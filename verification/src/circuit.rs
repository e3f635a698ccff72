//! The identity of an indexed circuit: its ID, derived from the hash of the circuit's
//! description or read back from a witness label.
use vstd::prelude::*;
use blake2::Digest;
use hex::FromHex;
use core::cmp::Ordering;
use vstd::string::StringSliceAdditionalSpecFns;

verus! {

/// The value of an ASCII hex digit (either case).
pub open spec fn hex_digit_value(c: u8) -> Option<u8> {
    if 0x30 <= c <= 0x39 {
        Some((c - 0x30) as u8)
    } else if 0x41 <= c <= 0x46 {
        Some((c - 0x41 + 10) as u8)
    } else if 0x61 <= c <= 0x66 {
        Some((c - 0x61 + 10) as u8)
    } else {
        None
    }
}

/// The 32 bytes that 64 hex digits spell, two digits per byte, high nibble first.
pub open spec fn decode_hex32(text: Seq<u8>) -> Option<Seq<u8>> {
    if text.len() == 64 && (forall|i: int| 0 <= i < 64 ==> (#[trigger] hex_digit_value(text[i])) is Some) {
        Some(Seq::new(32, |i: int| (hex_digit_value(text[2 * i]).unwrap() * 16 + hex_digit_value(text[2 * i + 1]).unwrap()) as u8))
    } else {
        None
    }
}

/// The lowercase hex digit of a nibble.
pub open spec fn hex_char(n: u8) -> char {
    if n < 10 {
        (0x30 + n) as char
    } else {
        (0x61 + n - 10) as char
    }
}

/// The lowercase hex text of bytes: two digits per byte, high nibble first.
pub open spec fn encode_hex(data: Seq<u8>) -> Seq<char> {
    Seq::new(2 * data.len(), |i: int| if i % 2 == 0 { hex_char(data[i / 2] / 16) } else { hex_char(data[i / 2] % 16) })
}

/// `<[u8; 32] as hex::FromHex>::from_hex`: the 32 bytes that the text spells in hex, if it
/// is exactly 64 hex digits.
#[verifier::external_body]
fn hex_decode_32(text: &[u8]) -> (r: Option<[u8; 32]>)
    ensures
        match r {
            Some(bytes) => decode_hex32(text@) == Some(bytes@),
            None => decode_hex32(text@) is None,
        },
{
    <[u8; 32]>::from_hex(text).ok()
}

/// `hex::encode`: the lowercase hex text of the bytes.
#[verifier::external_body]
fn hex_encode(data: &[u8]) -> (r: String)
    ensures
        r@ == encode_hex(data@),
{
    hex::encode(data)
}

/// The BLAKE2s-256 digest of `data`.
pub uninterp spec fn blake2s256(data: Seq<u8>) -> Seq<u8>;

/// `blake2::Blake2s256::digest`: the BLAKE2s-256 digest of the data.
#[verifier::external_body]
fn blake2s256_digest(data: &[u8]) -> (r: [u8; 32])
    ensures
        r@ == blake2s256(data@),
{
    blake2::Blake2s256::digest(data).into()
}

/// The first position at or after `from` that holds an underscore.
pub open spec fn underscore_from(text: Seq<u8>, from: int) -> Option<int>
    decreases text.len() - from,
{
    if from < 0 || from >= text.len() {
        None
    } else if text[from] == 0x5f {
        Some(from)
    } else {
        underscore_from(text, from + 1)
    }
}

proof fn lemma_underscore_from(text: Seq<u8>, from: int)
    ensures
        underscore_from(text, from) matches Some(i) ==> from <= i < text.len() && text[i] == 0x5f,
    decreases text.len() - from,
{
    if 0 <= from < text.len() && text[from] != 0x5f {
        lemma_underscore_from(text, from + 1);
    }
}

/// The second underscore-separated segment of `text`, if `text` has an underscore.
pub open spec fn second_segment(text: Seq<u8>) -> Option<Seq<u8>> {
    match underscore_from(text, 0) {
        None => None,
        Some(first) => match underscore_from(text, first + 1) {
            Some(second) => Some(text.subrange(first + 1, second)),
            None => Some(text.subrange(first + 1, text.len() as int)),
        },
    }
}

/// The circuit ID that a witness label names: its second underscore-separated segment
/// read as 64 hex digits.
pub open spec fn witness_label_id(label: Seq<u8>) -> Option<Seq<u8>> {
    match second_segment(label) {
        Some(segment) => decode_hex32(segment),
        None => None,
    }
}

/// The position of the first underscore at or after `from`, or the text's length.
fn find_underscore(text: &[u8], from: usize) -> (r: usize)
    requires
        from <= text.len(),
    ensures
        match underscore_from(text@, from as int) {
            Some(i) => r == i,
            None => r == text.len(),
        },
{
    let mut i = from;
    while i < text.len() && text[i] != 0x5f
        invariant
            from <= i <= text.len(),
            underscore_from(text@, from as int) == underscore_from(text@, i as int),
        decreases text.len() - i,
    {
        i = i + 1;
    }
    i
}

/// The ID of an indexed circuit.
#[derive(Clone, Copy, Debug, PartialEq, Eq, PartialOrd, Ord, Hash)]
pub struct CircuitId(pub [u8; 32]);

impl CircuitId {
    /// Reads the circuit ID from a witness label: the second underscore-separated segment
    /// of the label, as 64 hex digits.
    pub fn from_witness_label(witness_label: &str) -> (r: Self)
        requires
            witness_label_id(witness_label.spec_bytes()) is Some,
        ensures
            witness_label_id(witness_label.spec_bytes()) == Some(r.0@),
    {
        let text = witness_label.as_bytes();
        let n = text.len();
        let first = find_underscore(text, 0);
        proof {
            assert(text@ == witness_label.spec_bytes());
            assert(second_segment(text@) is Some);
            assert(underscore_from(text@, 0) is Some);
            lemma_underscore_from(text@, 0);
            let i = underscore_from(text@, 0).unwrap();
            assert(i < text@.len());
            assert(first == i);
            assert(first < n);
            lemma_underscore_from(text@, first + 1);
        }
        let second = find_underscore(text, first + 1);
        let segment = &text[first + 1..second];
        assert(segment@ =~= second_segment(text@).unwrap());
        let bytes = hex_decode_32(segment);
        CircuitId(bytes.unwrap())
    }

    /// The circuit ID as lowercase hex, two digits per byte.
    pub fn to_string(&self) -> (r: String)
        ensures
            r@ == encode_hex(self.0@),
    {
        hex_encode(&self.0)
    }
}

/// The description of an indexed circuit, by the canonical uncompressed encodings of its
/// parts: the index information and the A, B and C matrices of the R1CS instance.
pub struct Circuit {
    /// Information about the indexed circuit.
    pub index_info: Vec<u8>,
    /// The A matrix for the R1CS instance.
    pub a: Vec<u8>,
    /// The B matrix for the R1CS instance.
    pub b: Vec<u8>,
    /// The C matrix for the R1CS instance.
    pub c: Vec<u8>,
    /// The ID of the circuit.
    pub id: CircuitId,
}

impl Circuit {
    /// The ID of a circuit: the BLAKE2s-256 digest of its index information and its A, B
    /// and C matrices, encoded one after the other.
    pub fn hash(index_info: &Vec<u8>, a: &Vec<u8>, b: &Vec<u8>, c: &Vec<u8>) -> (r: CircuitId)
        ensures
            r.0@ == blake2s256(index_info@ + a@ + b@ + c@),
    {
        let mut data: Vec<u8> = Vec::new();
        append_bytes(&mut data, index_info);
        append_bytes(&mut data, a);
        append_bytes(&mut data, b);
        append_bytes(&mut data, c);
        CircuitId(blake2s256_digest(data.as_slice()))
    }

    /// Assembles a circuit from its parts, with the ID computed from them.
    pub fn new(index_info: Vec<u8>, a: Vec<u8>, b: Vec<u8>, c: Vec<u8>) -> (r: Self)
        ensures
            r.index_info@ == index_info@,
            r.a@ == a@,
            r.b@ == b@,
            r.c@ == c@,
            r.id.0@ == blake2s256(index_info@ + a@ + b@ + c@),
    {
        let id = Self::hash(&index_info, &a, &b, &c);
        Circuit { index_info, a, b, c, id }
    }
}

/// The bytes of `a` from position `i` on.
pub open spec fn bytes_from(a: Seq<u8>, i: usize) -> Seq<u8> {
    a.skip(i as int)
}

proof fn lemma_bytes_from_step(a: Seq<u8>, i: usize)
    requires
        i < a.len(),
        i < usize::MAX,
    ensures
        bytes_from(a, i).len() > 0,
        bytes_from(a, i)[0] == a[i as int],
        bytes_from(a, i).drop_first() == bytes_from(a, (i + 1) as usize),
{
    assert(bytes_from(a, i).drop_first() =~= bytes_from(a, (i + 1) as usize));
}

proof fn lemma_bytes_from_start(a: Seq<u8>)
    ensures
        bytes_from(a, 0) == a,
{
    assert(bytes_from(a, 0) =~= a);
}

proof fn lemma_bytes_from_end(a: Seq<u8>, i: usize)
    requires
        i == a.len(),
    ensures
        bytes_from(a, i).len() == 0,
{
}

/// Byte-by-byte (lexicographic) order of two byte strings of equal length.
pub open spec fn lex_order(a: Seq<u8>, b: Seq<u8>) -> Ordering
    decreases a.len(),
{
    if a.len() == 0 || b.len() == 0 {
        Ordering::Equal
    } else if a[0] < b[0] {
        Ordering::Less
    } else if a[0] > b[0] {
        Ordering::Greater
    } else {
        lex_order(a.drop_first(), b.drop_first())
    }
}

/// Two circuits are equal when their IDs are.
impl PartialEq for Circuit {
    fn eq(&self, other: &Self) -> (r: bool) {
        let mut i: usize = 0;
        while i < 32
            invariant
                i <= 32,
                forall|j: int| 0 <= j < i ==> self.id.0[j] == other.id.0[j],
            decreases 32 - i,
        {
            if self.id.0[i] != other.id.0[i] {
                return false;
            }
            i = i + 1;
        }
        assert(self.id.0 =~= other.id.0);
        true
    }
}

impl vstd::std_specs::cmp::PartialEqSpecImpl for Circuit {
    open spec fn obeys_eq_spec() -> bool {
        true
    }

    open spec fn eq_spec(&self, other: &Self) -> bool {
        self.id == other.id
    }
}

/// Circuits are ordered by their IDs, byte by byte; any two are comparable.
impl PartialOrd for Circuit {
    fn partial_cmp(&self, other: &Self) -> (r: Option<Ordering>) {
        Some(self.cmp(other))
    }
}

impl vstd::std_specs::cmp::PartialOrdSpecImpl for Circuit {
    open spec fn obeys_partial_cmp_spec() -> bool {
        true
    }

    open spec fn partial_cmp_spec(&self, other: &Self) -> Option<Ordering> {
        Some(lex_order(self.id.0@, other.id.0@))
    }
}

/// Two byte strings of equal length are in order `Equal` exactly when they are equal.
pub proof fn law_lex_order_equal(a: Seq<u8>, b: Seq<u8>)
    requires
        a.len() == b.len(),
    ensures
        (lex_order(a, b) == Ordering::Equal) == (a == b),
    decreases a.len(),
{
    if a.len() > 0 {
        law_lex_order_equal(a.drop_first(), b.drop_first());
        if a[0] == b[0] && a.drop_first() == b.drop_first() {
            assert(a =~= seq![a[0]] + a.drop_first());
            assert(b =~= seq![b[0]] + b.drop_first());
        }
        if a == b {
            assert(a.drop_first() == b.drop_first());
        }
    } else {
        assert(a =~= b);
    }
}

impl Circuit {
    /// Circuits are ordered by their IDs, byte by byte.
    pub fn cmp(&self, other: &Self) -> (r: Ordering)
        ensures
            r == lex_order(self.id.0@, other.id.0@),
            (r == Ordering::Equal) == (self.id == other.id),
    {
        proof {
            law_lex_order_equal(self.id.0@, other.id.0@);
            assert((self.id.0@ == other.id.0@) == (self.id.0 =~= other.id.0));
        }
        proof {
            lemma_bytes_from_start(self.id.0@);
            lemma_bytes_from_start(other.id.0@);
        }
        let mut i: usize = 0;
        while i < 32
            invariant
                i <= 32,
                lex_order(self.id.0@, other.id.0@) == lex_order(bytes_from(self.id.0@, i), bytes_from(other.id.0@, i)),
            decreases 32 - i,
        {
            let x = self.id.0[i];
            let y = other.id.0[i];
            proof {
                lemma_bytes_from_step(self.id.0@, i);
                lemma_bytes_from_step(other.id.0@, i);
            }
            if x < y {
                return Ordering::Less;
            }
            if x > y {
                return Ordering::Greater;
            }
            i = i + 1;
        }
        proof {
            lemma_bytes_from_end(self.id.0@, i);
        }
        Ordering::Equal
    }
}

/// Appends the bytes of `src` to `dst`.
fn append_bytes(dst: &mut Vec<u8>, src: &Vec<u8>)
    ensures
        final(dst)@ == old(dst)@ + src@,
{
    let mut i: usize = 0;
    while i < src.len()
        invariant
            i <= src.len(),
            dst@ == old(dst)@ + src@.take(i as int),
        decreases src.len() - i,
    {
        dst.push(src[i]);
        assert(dst@ =~= old(dst)@ + src@.take(i + 1));
        i = i + 1;
    }
    assert(src@.take(i as int) =~= src@);
}

/// The bytes of ASCII text, one per character.
pub open spec fn ascii_bytes(text: Seq<char>) -> Seq<u8> {
    text.map_values(|c: char| c as u8)
}

proof fn lemma_no_underscore_between(text: Seq<u8>, from: int, to: int)
    requires
        0 <= from <= to <= text.len(),
        forall|i: int| from <= i < to ==> text[i] != 0x5f,
    ensures
        underscore_from(text, from) == underscore_from(text, to),
    decreases to - from,
{
    if from < to {
        lemma_no_underscore_between(text, from + 1, to);
    }
}

proof fn lemma_hex_char(n: u8)
    requires
        n < 16,
    ensures
        hex_digit_value(hex_char(n) as u8) == Some(n),
        hex_char(n) as u8 != 0x5f,
{
}

/// Writing a circuit ID in hex (as `CircuitId::to_string` does) into a witness label, as
/// its second underscore-separated segment, reads the same ID back.
pub proof fn law_witness_label_round_trip(id: Seq<u8>, prefix: Seq<u8>, suffix: Seq<u8>)
    requires
        id.len() == 32,
        !prefix.contains(0x5f),
        suffix.len() == 0 || suffix[0] == 0x5f,
    ensures
        witness_label_id(prefix + seq![0x5fu8] + ascii_bytes(encode_hex(id)) + suffix) == Some(id),
{
    let hex = ascii_bytes(encode_hex(id));
    let label = prefix + seq![0x5fu8] + hex + suffix;
    let p = prefix.len() as int;
    assert(hex.len() == 64);
    assert forall|i: int| 0 <= i < 64 implies hex_digit_value(#[trigger] hex[i]) == Some(
        if i % 2 == 0 { id[i / 2] / 16 } else { id[i / 2] % 16 },
    ) && hex[i] != 0x5f by {
        if i % 2 == 0 {
            lemma_hex_char(id[i / 2] / 16);
        } else {
            lemma_hex_char(id[i / 2] % 16);
        }
    }
    assert forall|i: int| 0 <= i < p implies label[i] != 0x5f by {
        assert(label[i] == prefix[i]);
    }
    lemma_no_underscore_between(label, 0, p);
    assert(label[p] == 0x5f);
    assert forall|i: int| p + 1 <= i < p + 65 implies label[i] != 0x5f by {
        assert(label[i] == hex[i - p - 1]);
    }
    lemma_no_underscore_between(label, p + 1, p + 65);
    if suffix.len() == 0 {
        assert(underscore_from(label, p + 65) is None);
        assert(label.subrange(p + 1, label.len() as int) =~= hex);
    } else {
        assert(label[p + 65] == 0x5f);
        assert(label.subrange(p + 1, p + 65) =~= hex);
    }
    assert(second_segment(label) == Some(hex));
    let decoded = Seq::new(32, |i: int| (hex_digit_value(hex[2 * i]).unwrap() * 16 + hex_digit_value(hex[2 * i + 1]).unwrap()) as u8);
    assert forall|i: int| 0 <= i < 32 implies decoded[i] == id[i] by {
        assert(hex_digit_value(hex[2 * i]) == Some(id[i] / 16));
        assert(hex_digit_value(hex[2 * i + 1]) == Some(id[i] % 16));
        let b = id[i];
        assert((b / 16) * 16 + b % 16 == b) by (nonlinear_arith);
    }
    assert(decoded =~= id);
}

} // verus!
