use bit_set::BitSet;
use indexmap::IndexSet;
use snarkvm_state::compact_header::{
    BatchHeader, CompactHeader, HeaderError, TransmissionId, MAX_CERTIFICATES, MAX_TRANSMISSIONS,
};

fn batch(round: u64, transmissions: &[TransmissionId], previous: &[u64]) -> BatchHeader {
    BatchHeader {
        version: 2,
        batch_id: 77,
        author: 5,
        round,
        timestamp: -3,
        transmission_ids: transmissions.iter().map(|t| t.key()).collect(),
        previous_certificate_ids: previous.iter().copied().collect(),
        last_election_certificate_ids: IndexSet::new(),
        signature: 99,
    }
}

fn bits(indices: &[usize]) -> BitSet {
    indices.iter().copied().collect()
}

fn set(ids: &[u64]) -> IndexSet<u64> {
    ids.iter().copied().collect()
}

fn indices(s: &BitSet) -> Vec<usize> {
    s.iter().collect()
}

#[test]
fn new_finds_transactions_and_solutions() {
    let header = batch(
        3,
        &[TransmissionId::Transaction(20), TransmissionId::Solution(8), TransmissionId::Transaction(31)],
        &[1, 2],
    );
    let compact = CompactHeader::new(&header, &[], Some(&[7, 8]), &[10, 20], &[30, 31]).unwrap();
    assert_eq!(indices(compact.transaction_indices()), vec![1, 3]);
    assert_eq!(indices(compact.solution_indices()), vec![1]);
    assert_eq!(compact.batch_id(), 77);
    assert_eq!(compact.author(), 5);
    assert_eq!(compact.round(), 3);
    assert_eq!(compact.timestamp(), -3);
    assert_eq!(compact.signature(), 99);
    assert_eq!(compact.previous_certificate_ids(), &set(&[1, 2]));
    assert!(compact.last_election_certificate_ids().is_empty());
}

#[test]
fn new_refuses_ratifications_and_missing_transmissions() {
    let header = batch(3, &[TransmissionId::Transaction(20)], &[1]);
    assert_eq!(CompactHeader::new(&header, &[1], None, &[20], &[]).err(), Some(HeaderError::ContainsRatifications));
    assert_eq!(CompactHeader::new(&header, &[], None, &[21], &[]).err(), Some(HeaderError::MissingTransmissionIds));
    let header = batch(3, &[TransmissionId::Ratification], &[1]);
    assert_eq!(CompactHeader::new(&header, &[], None, &[], &[]).err(), Some(HeaderError::MissingTransmissionIds));
}

#[test]
fn round_trip_without_solutions() {
    let header = batch(4, &[TransmissionId::Transaction(31), TransmissionId::Transaction(10)], &[1]);
    let compact = CompactHeader::new(&header, &[], None, &[10, 20], &[31]).unwrap();
    let back = compact.into_batch_header(&[], None, &[10, 20], &[31]).unwrap();
    let mut expected: Vec<(u8, u64)> = header.transmission_ids.iter().copied().collect();
    let mut found: Vec<(u8, u64)> = back.transmission_ids.iter().copied().collect();
    // The block's order.
    assert_eq!(found, vec![TransmissionId::Transaction(10).key(), TransmissionId::Transaction(31).key()]);
    expected.sort();
    found.sort();
    assert_eq!(expected, found);
    assert_eq!(back.version, 2);
    assert_eq!(back.batch_id, 77);
    assert_eq!(back.round, 4);
    assert_eq!(back.previous_certificate_ids, set(&[1]));
}

#[test]
fn into_batch_header_selects_solutions_by_solution_indices() {
    // Transaction indices {0}, solution indices {1}: transaction 40 and solution 8.
    let compact = CompactHeader::from(1, 2, 3, 4, bits(&[0]), bits(&[1]), set(&[9]), set(&[]), 5, true).unwrap();
    let back = compact.into_batch_header(&[], Some(&[7, 8]), &[40], &[]).unwrap();
    let found: Vec<(u8, u64)> = back.transmission_ids.iter().copied().collect();
    assert_eq!(found, vec![TransmissionId::Transaction(40).key(), TransmissionId::Solution(8).key()]);
    // With no solutions the count falls short.
    let compact = CompactHeader::from(1, 2, 3, 4, bits(&[0]), bits(&[1]), set(&[9]), set(&[]), 5, true).unwrap();
    assert_eq!(compact.into_batch_header(&[], None, &[40], &[]).err(), Some(HeaderError::MissingTransmissionIds));
    let compact = CompactHeader::from(1, 2, 3, 4, bits(&[0]), bits(&[]), set(&[9]), set(&[]), 5, true).unwrap();
    assert_eq!(compact.into_batch_header(&[1], None, &[40], &[]).err(), Some(HeaderError::ContainsRatifications));
}

#[test]
fn round_trip_with_solutions() {
    let header = batch(5, &[TransmissionId::Transaction(41), TransmissionId::Solution(7)], &[1]);
    let compact = CompactHeader::new(&header, &[], Some(&[7]), &[40, 41], &[]).unwrap();
    assert_eq!(indices(compact.transaction_indices()), vec![1]);
    assert_eq!(indices(compact.solution_indices()), vec![0]);
    let back = compact.into_batch_header(&[], Some(&[7]), &[40, 41], &[]).unwrap();
    let found: Vec<(u8, u64)> = back.transmission_ids.iter().copied().collect();
    assert_eq!(found, vec![TransmissionId::Transaction(41).key(), TransmissionId::Solution(7).key()]);
}

#[test]
fn from_checks_rounds_bounds_and_signature() {
    let ok = CompactHeader::from(1, 2, 0, 4, bits(&[]), bits(&[]), set(&[]), set(&[]), 5, true);
    assert!(ok.is_ok());
    assert_eq!(
        CompactHeader::from(1, 2, 1, 4, bits(&[]), bits(&[]), set(&[3]), set(&[]), 5, true).err(),
        Some(HeaderError::CertificatesInGenesisRound)
    );
    assert_eq!(
        CompactHeader::from(1, 2, 0, 4, bits(&[]), bits(&[]), set(&[]), set(&[3]), 5, true).err(),
        Some(HeaderError::ElectionCertificatesInGenesisRound)
    );
    assert_eq!(
        CompactHeader::from(1, 2, 2, 4, bits(&[]), bits(&[]), set(&[]), set(&[]), 5, true).err(),
        Some(HeaderError::MissingPreviousCertificates)
    );
    let many: Vec<usize> = (0..MAX_TRANSMISSIONS + 1).collect();
    assert_eq!(
        CompactHeader::from(1, 2, 2, 4, bits(&many), bits(&[]), set(&[1]), set(&[]), 5, true).err(),
        Some(HeaderError::TooManyTransmissions)
    );
    let at_limit: Vec<usize> = (0..MAX_TRANSMISSIONS).collect();
    assert!(CompactHeader::from(1, 2, 2, 4, bits(&at_limit), bits(&[]), set(&[1]), set(&[]), 5, true).is_ok());
    let certificates: Vec<u64> = (0..MAX_CERTIFICATES as u64 + 1).collect();
    assert_eq!(
        CompactHeader::from(1, 2, 2, 4, bits(&[]), bits(&[]), set(&certificates), set(&[]), 5, true).err(),
        Some(HeaderError::TooManyPreviousCertificates)
    );
    assert_eq!(
        CompactHeader::from(1, 2, 2, 4, bits(&[]), bits(&[]), set(&[1]), set(&certificates), 5, true).err(),
        Some(HeaderError::TooManyElectionCertificates)
    );
    assert_eq!(
        CompactHeader::from(1, 2, 2, 4, bits(&[]), bits(&[]), set(&[1]), set(&[]), 5, false).err(),
        Some(HeaderError::InvalidSignature)
    );
    let header = CompactHeader::from(1, 2, 2, 4, bits(&[3]), bits(&[0]), set(&[1]), set(&[]), 5, true).unwrap();
    assert_eq!((header.batch_id(), header.author(), header.round(), header.timestamp(), header.signature()), (1, 2, 2, 4, 5));
}
