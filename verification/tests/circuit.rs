use blake2::Digest;
use snarkvm_state::circuit::{Circuit, CircuitId};

#[test]
fn circuit_id_from_witness_label() {
    let hex = "00112233445566778899aabbccddeeff00112233445566778899AABBCCDDEEFF";
    let id = CircuitId::from_witness_label(&format!("circuit_{}_w", hex));
    let mut expected = [0u8; 32];
    for i in 0..16 {
        expected[i] = (i as u8) * 0x11;
        expected[16 + i] = (i as u8) * 0x11;
    }
    assert_eq!(id.0, expected);
    let id2 = CircuitId::from_witness_label(&format!("x_{}", hex));
    assert_eq!(id2.0, expected);
    assert_eq!(id.to_string(), hex.to_lowercase());
}

#[test]
fn circuit_hash_is_blake2s_of_the_parts() {
    let id = Circuit::hash(&vec![1, 2], &vec![3], &vec![], &vec![4, 5]);
    let expected: [u8; 32] = blake2::Blake2s256::digest([1u8, 2, 3, 4, 5]).into();
    assert_eq!(id.0, expected);
    // The empty input has the well-known BLAKE2s-256 digest.
    let empty = Circuit::hash(&vec![], &vec![], &vec![], &vec![]);
    assert_eq!(
        empty.to_string(),
        "69217a3079908094e11121d042354a7c1f55b6482ca1a51e1b250dfd1ed0eef9"
    );
    let circuit = Circuit::new(vec![1, 2], vec![3], vec![], vec![4, 5]);
    assert_eq!(circuit.id.0, id.0);
}

#[test]
fn circuit_id_survives_a_witness_label() {
    let id = CircuitId([7u8; 32]);
    let label = format!("circuit_{}_witness", id.to_string());
    assert_eq!(CircuitId::from_witness_label(&label).0, id.0);
    let label = format!("c_{}", id.to_string());
    assert_eq!(CircuitId::from_witness_label(&label).0, id.0);
}

#[test]
fn circuits_compare_by_id() {
    let a = Circuit::new(vec![1], vec![], vec![], vec![]);
    let b = Circuit::new(vec![1], vec![], vec![], vec![]);
    let c = Circuit::new(vec![2], vec![], vec![], vec![]);
    assert!(a == b);
    assert!(a != c);
    assert_eq!(a.partial_cmp(&c), Some(a.cmp(&c)));
    assert_eq!(a.partial_cmp(&b), Some(std::cmp::Ordering::Equal));
    assert_eq!(a.cmp(&b), std::cmp::Ordering::Equal);
    assert_eq!(a.cmp(&c), a.id.cmp(&c.id));
    assert_eq!(c.cmp(&a), c.id.cmp(&a.id));
    let low = Circuit { index_info: vec![], a: vec![], b: vec![], c: vec![], id: CircuitId([0u8; 32]) };
    let mut bytes = [0u8; 32];
    bytes[31] = 1;
    let high = Circuit { index_info: vec![], a: vec![], b: vec![], c: vec![], id: CircuitId(bytes) };
    assert_eq!(low.cmp(&high), std::cmp::Ordering::Less);
    assert_eq!(high.cmp(&low), std::cmp::Ordering::Greater);
}

