//! The compact header of a batch: a batch header whose transmission IDs are replaced by
//! the indices of the block's transactions and solutions that they name.
use vstd::prelude::*;
use bit_set::BitSet;
use crate::bits::{bit_set_indices, bit_set_with_capacity, bit_set_default, bit_set_insert, bit_set_contains, bit_set_len};
use crate::ordered::{IdSet, id_set_elems, id_set_len, id_set_clone, TransmissionSet, transmission_set_elems, transmission_set_new, transmission_set_insert, transmission_set_contains, transmission_set_len, set_insert};

verus! {

// The bounds below are those of the Testnet3 network.

/// The maximum number of certificates in a batch.
pub const MAX_CERTIFICATES: usize = 200;
/// The maximum number of solutions in a batch.
pub const MAX_SOLUTIONS: usize = 256;
/// The maximum number of transactions in a batch: two to the depth of the transactions tree.
pub const MAX_TRANSACTIONS: usize = 65536;
/// The maximum number of transmissions in a batch.
pub const MAX_TRANSMISSIONS: usize = MAX_SOLUTIONS + MAX_TRANSACTIONS;

/// The key tag of a ratification transmission ID.
pub const RATIFICATION_TAG: u8 = 0;
/// The key tag of a solution transmission ID.
pub const SOLUTION_TAG: u8 = 1;
/// The key tag of a transaction transmission ID.
pub const TRANSACTION_TAG: u8 = 2;

/// A transmission ID: what a batch carries.
#[derive(Clone, Copy, Debug, PartialEq, Eq, Structural)]
pub enum TransmissionId {
    Ratification,
    /// A solution, by its puzzle commitment.
    Solution(u64),
    /// A transaction, by its ID.
    Transaction(u64),
}

impl TransmissionId {
    pub open spec fn spec_key(self) -> (u8, u64) {
        match self {
            TransmissionId::Ratification => (RATIFICATION_TAG, 0),
            TransmissionId::Solution(c) => (SOLUTION_TAG, c),
            TransmissionId::Transaction(t) => (TRANSACTION_TAG, t),
        }
    }

    /// The key under which the transmission ID is held in a `TransmissionSet`.
    pub fn key(&self) -> (r: (u8, u64))
        ensures
            r == self.spec_key(),
    {
        match self {
            TransmissionId::Ratification => (RATIFICATION_TAG, 0),
            TransmissionId::Solution(c) => (SOLUTION_TAG, *c),
            TransmissionId::Transaction(t) => (TRANSACTION_TAG, *t),
        }
    }
}

/// A batch header, by the values a compact header takes from it or gives back.
pub struct BatchHeader {
    pub version: u8,
    pub batch_id: u64,
    pub author: u64,
    pub round: u64,
    pub timestamp: i64,
    pub transmission_ids: TransmissionSet,
    pub previous_certificate_ids: IdSet,
    pub last_election_certificate_ids: IdSet,
    pub signature: u64,
}

/// Why a compact header could not be built.
#[derive(Clone, Copy, Debug, PartialEq, Eq, Structural)]
pub enum HeaderError {
    /// The batch contains ratifications.
    ContainsRatifications,
    /// Not every transmission ID of the batch was found among the block's transmissions.
    MissingTransmissionIds,
    /// A batch of round zero or one has previous certificate IDs.
    CertificatesInGenesisRound,
    /// A batch of round zero or one has last election certificate IDs.
    ElectionCertificatesInGenesisRound,
    /// A batch after round one has no previous certificate IDs.
    MissingPreviousCertificates,
    /// The batch has more transmissions than `MAX_TRANSMISSIONS`.
    TooManyTransmissions,
    /// The batch has more previous certificate IDs than `MAX_CERTIFICATES`.
    TooManyPreviousCertificates,
    /// The batch has more last election certificate IDs than `MAX_CERTIFICATES`.
    TooManyElectionCertificates,
    /// The signature does not verify for the author over the batch ID.
    InvalidSignature,
}

/// The positions `i` of `items` whose transmission key `(tag, items[i])` is in `ids`.
pub open spec fn selected_indices(items: Seq<u64>, tag: u8, ids: Seq<(u8, u64)>) -> Set<usize> {
    Set::new(|i: usize| i < items.len() && ids.contains((tag, items[i as int])))
}

/// The transaction indices of a compact header: positions in the block's transactions,
/// followed by its rejected transactions, of those the batch carries.
pub open spec fn transaction_index_set(transactions: Seq<u64>, rejected: Seq<u64>, ids: Seq<(u8, u64)>) -> Set<usize> {
    selected_indices(transactions + rejected, TRANSACTION_TAG, ids)
}

/// The solution indices of a compact header: positions in the block's solutions of those the
/// batch carries (none if the block has no solutions).
pub open spec fn solution_index_set(solutions: Option<Seq<u64>>, ids: Seq<(u8, u64)>) -> Set<usize> {
    match solutions {
        Some(s) => selected_indices(s, SOLUTION_TAG, ids),
        None => Set::empty(),
    }
}

/// The check that `CompactHeader::from` makes, in its order: the first rule broken, if any.
pub open spec fn from_check(
    round: u64,
    num_transactions: nat,
    num_solutions: nat,
    num_previous: nat,
    num_election: nat,
    signature_verifies: bool,
) -> Option<HeaderError> {
    if round <= 1 && num_previous != 0 {
        Some(HeaderError::CertificatesInGenesisRound)
    } else if round <= 1 && num_election != 0 {
        Some(HeaderError::ElectionCertificatesInGenesisRound)
    } else if round > 1 && num_previous == 0 {
        Some(HeaderError::MissingPreviousCertificates)
    } else if num_transactions + num_solutions > MAX_TRANSMISSIONS {
        Some(HeaderError::TooManyTransmissions)
    } else if num_previous > MAX_CERTIFICATES {
        Some(HeaderError::TooManyPreviousCertificates)
    } else if num_election > MAX_CERTIFICATES {
        Some(HeaderError::TooManyElectionCertificates)
    } else if !signature_verifies {
        Some(HeaderError::InvalidSignature)
    } else {
        None
    }
}

/// The transmission keys named by the selected positions of `items`, added in order to
/// `acc` (without repetition).
pub open spec fn collect_selected(acc: Seq<(u8, u64)>, items: Seq<u64>, tag: u8, indices: Set<usize>) -> Seq<(u8, u64)>
    decreases items.len(),
{
    if items.len() == 0 {
        acc
    } else {
        let prev = collect_selected(acc, items.drop_last(), tag, indices);
        if indices.contains((items.len() - 1) as usize) {
            set_insert(prev, (tag, items.last()))
        } else {
            prev
        }
    }
}

/// The transmission IDs that `CompactHeader::into_batch_header` rebuilds: the transactions
/// (then rejected transactions) at the transaction indices, then the solutions at the
/// solution indices.
pub open spec fn rebuilt_transmission_ids(
    h: CompactHeaderModel,
    solutions: Option<Seq<u64>>,
    transactions: Seq<u64>,
    rejected: Seq<u64>,
) -> Seq<(u8, u64)> {
    let txs = collect_selected(Seq::empty(), transactions + rejected, TRANSACTION_TAG, h.transaction_indices);
    match solutions {
        Some(s) => collect_selected(txs, s, SOLUTION_TAG, h.solution_indices),
        None => txs,
    }
}

/// Adds the keys of the selected items to the set.
fn collect_into(items: &[u64], tag: u8, indices: &BitSet, set: &mut TransmissionSet)
    requires
        items.len() < usize::MAX,
    ensures
        transmission_set_elems(*final(set)) == collect_selected(transmission_set_elems(*old(set)), items@, tag, bit_set_indices(*indices)),
{
    let ghost start = transmission_set_elems(*set);
    let mut k: usize = 0;
    assert(items@.take(0) =~= Seq::<u64>::empty());
    while k < items.len()
        invariant
            k <= items.len(),
            start == transmission_set_elems(*old(set)),
            transmission_set_elems(*set) == collect_selected(start, items@.take(k as int), tag, bit_set_indices(*indices)),
        decreases items.len() - k,
    {
        proof {
            assert(items@.take(k + 1).drop_last() =~= items@.take(k as int));
            assert(items@.take(k + 1).last() == items@[k as int]);
        }
        if bit_set_contains(indices, k) {
            transmission_set_insert(set, (tag, items[k]));
        }
        k = k + 1;
    }
    assert(items@.take(k as int) =~= items@);
}

/// Collects the selected items into a bit set of their positions.
fn select_indices(items: &[u64], offset: usize, tag: u8, ids: &TransmissionSet, indices: &mut BitSet, all: Ghost<Seq<u64>>)
    requires
        offset + items.len() <= all@.len(),
        items@ == all@.subrange(offset as int, offset + items.len()),
        all@.len() < usize::MAX,
        bit_set_indices(*old(indices)) == Set::new(|i: usize| i < offset && transmission_set_elems(*ids).contains((tag, all@[i as int]))),
    ensures
        bit_set_indices(*final(indices)) == Set::new(|i: usize| i < offset + items.len() && transmission_set_elems(*ids).contains((tag, all@[i as int]))),
{
    let mut k: usize = 0;
    while k < items.len()
        invariant
            k <= items.len(),
            offset + items.len() <= all@.len(),
            items@ == all@.subrange(offset as int, offset + items.len()),
            all@.len() < usize::MAX,
            bit_set_indices(*indices) == Set::new(|i: usize| i < offset + k && transmission_set_elems(*ids).contains((tag, all@[i as int]))),
        decreases items.len() - k,
    {
        let ghost before = bit_set_indices(*indices);
        if transmission_set_contains(ids, &(tag, items[k])) {
            bit_set_insert(indices, offset + k);
            assert(bit_set_indices(*indices) =~= Set::new(|i: usize| i < offset + k + 1 && transmission_set_elems(*ids).contains((tag, all@[i as int]))));
        } else {
            assert(bit_set_indices(*indices) =~= Set::new(|i: usize| i < offset + k + 1 && transmission_set_elems(*ids).contains((tag, all@[i as int]))));
        }
        k = k + 1;
    }
}

/// The compact header of a batch.
pub struct CompactHeader {
    /// The batch ID: the hash of the author, round number, timestamp, transmission IDs,
    /// previous batch certificate IDs, and last election certificate IDs.
    batch_id: u64,
    /// The author of the batch.
    author: u64,
    /// The round number.
    round: u64,
    /// The timestamp.
    timestamp: i64,
    /// The set of transaction indices in a block.
    transaction_indices: BitSet,
    /// The set of solution indices in a block.
    solution_indices: BitSet,
    /// The batch certificate IDs of the previous round.
    previous_certificate_ids: IdSet,
    /// The last election batch certificate IDs.
    last_election_certificate_ids: IdSet,
    /// The signature of the batch ID from the creator.
    signature: u64,
}

/// The abstract content of a compact header.
pub struct CompactHeaderModel {
    pub batch_id: u64,
    pub author: u64,
    pub round: u64,
    pub timestamp: i64,
    pub transaction_indices: Set<usize>,
    pub solution_indices: Set<usize>,
    pub previous_certificate_ids: Seq<u64>,
    pub last_election_certificate_ids: Seq<u64>,
    pub signature: u64,
}

impl View for CompactHeader {
    type V = CompactHeaderModel;

    closed spec fn view(&self) -> CompactHeaderModel {
        CompactHeaderModel {
            batch_id: self.batch_id,
            author: self.author,
            round: self.round,
            timestamp: self.timestamp,
            transaction_indices: bit_set_indices(self.transaction_indices),
            solution_indices: bit_set_indices(self.solution_indices),
            previous_certificate_ids: id_set_elems(self.previous_certificate_ids),
            last_election_certificate_ids: id_set_elems(self.last_election_certificate_ids),
            signature: self.signature,
        }
    }
}

impl CompactHeader {
    /// Initializes a compact header from a batch header and the block's ratifications,
    /// solutions (if any), transactions and rejected transactions.
    pub fn new(
        batch_header: &BatchHeader,
        ratifications: &[u64],
        solutions: Option<&[u64]>,
        transactions: &[u64],
        rejected_transactions: &[u64],
    ) -> (r: Result<Self, HeaderError>)
        requires
            transactions.len() + rejected_transactions.len() < usize::MAX,
            solutions matches Some(s) ==> s.len() < usize::MAX,
        ensures
            ({
                let ids = transmission_set_elems(batch_header.transmission_ids);
                let tx = transaction_index_set(transactions@, rejected_transactions@, ids);
                let sol = solution_index_set(
                    match solutions { Some(s) => Some(s@), None => None },
                    ids,
                );
                match r {
                    Err(e) => if ratifications.len() != 0 {
                        e == HeaderError::ContainsRatifications
                    } else {
                        e == HeaderError::MissingTransmissionIds && tx.len() + sol.len() != ids.len()
                    },
                    Ok(h) => {
                        &&& ratifications.len() == 0
                        &&& tx.len() + sol.len() == ids.len()
                        &&& h@ == (CompactHeaderModel {
                            batch_id: batch_header.batch_id,
                            author: batch_header.author,
                            round: batch_header.round,
                            timestamp: batch_header.timestamp,
                            transaction_indices: tx,
                            solution_indices: sol,
                            previous_certificate_ids: id_set_elems(batch_header.previous_certificate_ids),
                            last_election_certificate_ids: id_set_elems(batch_header.last_election_certificate_ids),
                            signature: batch_header.signature,
                        })
                    },
                }
            }),
    {
        let transmission_ids = &batch_header.transmission_ids;
        if ratifications.len() != 0 {
            return Err(HeaderError::ContainsRatifications);
        }
        // Check which transaction indices the certificate contains.
        let num_transactions = transactions.len() + rejected_transactions.len();
        let ghost all = transactions@ + rejected_transactions@;
        let mut transaction_indices = bit_set_with_capacity(num_transactions);
        assert(bit_set_indices(transaction_indices) =~= Set::new(|i: usize| i < 0 && transmission_set_elems(*transmission_ids).contains((TRANSACTION_TAG, all[i as int]))));
        assert(transactions@ =~= all.subrange(0, transactions.len() as int));
        select_indices(transactions, 0, TRANSACTION_TAG, transmission_ids, &mut transaction_indices, Ghost(all));
        assert(rejected_transactions@ =~= all.subrange(transactions.len() as int, transactions.len() + rejected_transactions.len()));
        select_indices(rejected_transactions, transactions.len(), TRANSACTION_TAG, transmission_ids, &mut transaction_indices, Ghost(all));
        assert(bit_set_indices(transaction_indices) =~= transaction_index_set(transactions@, rejected_transactions@, transmission_set_elems(*transmission_ids)));
        // Check which solution indices the certificate contains.
        let solution_indices = match solutions {
            Some(solutions) => {
                let mut solution_indices = bit_set_with_capacity(solutions.len());
                assert(bit_set_indices(solution_indices) =~= Set::new(|i: usize| i < 0 && transmission_set_elems(*transmission_ids).contains((SOLUTION_TAG, solutions@[i as int]))));
                assert(solutions@ =~= solutions@.subrange(0, solutions.len() as int));
                select_indices(solutions, 0, SOLUTION_TAG, transmission_ids, &mut solution_indices, Ghost(solutions@));
                assert(bit_set_indices(solution_indices) =~= selected_indices(solutions@, SOLUTION_TAG, transmission_set_elems(*transmission_ids)));
                solution_indices
            },
            None => bit_set_default(),
        };
        // Check that all transmission IDs were found.
        let found = bit_set_len(&transaction_indices) as u128 + bit_set_len(&solution_indices) as u128;
        if found != transmission_set_len(transmission_ids) as u128 {
            return Err(HeaderError::MissingTransmissionIds);
        }
        Ok(CompactHeader {
            batch_id: batch_header.batch_id,
            author: batch_header.author,
            round: batch_header.round,
            timestamp: batch_header.timestamp,
            transaction_indices,
            solution_indices,
            previous_certificate_ids: id_set_clone(&batch_header.previous_certificate_ids),
            last_election_certificate_ids: id_set_clone(&batch_header.last_election_certificate_ids),
            signature: batch_header.signature,
        })
    }

    /// Initializes a compact header from its parts; the batch ID is taken as given.
    /// `signature_verifies` is whether `signature` verifies for `author` over `[batch_id]`:
    /// the signature scheme is not part of this library, so the caller supplies the verdict
    /// and nothing here ties it to the signature.
    pub fn from(
        batch_id: u64,
        author: u64,
        round: u64,
        timestamp: i64,
        transaction_indices: BitSet,
        solution_indices: BitSet,
        previous_certificate_ids: IdSet,
        last_election_certificate_ids: IdSet,
        signature: u64,
        signature_verifies: bool,
    ) -> (r: Result<Self, HeaderError>)
        ensures
            ({
                let check = from_check(
                    round,
                    bit_set_indices(transaction_indices).len(),
                    bit_set_indices(solution_indices).len(),
                    id_set_elems(previous_certificate_ids).len(),
                    id_set_elems(last_election_certificate_ids).len(),
                    signature_verifies,
                );
                match r {
                    Err(e) => check == Some(e),
                    Ok(h) => check is None && h@ == (CompactHeaderModel {
                        batch_id,
                        author,
                        round,
                        timestamp,
                        transaction_indices: bit_set_indices(transaction_indices),
                        solution_indices: bit_set_indices(solution_indices),
                        previous_certificate_ids: id_set_elems(previous_certificate_ids),
                        last_election_certificate_ids: id_set_elems(last_election_certificate_ids),
                        signature,
                    }),
                }
            }),
    {
        let num_previous = id_set_len(&previous_certificate_ids);
        let num_election = id_set_len(&last_election_certificate_ids);
        if round <= 1 {
            // In round zero or one there are no previous certificate IDs ...
            if num_previous != 0 {
                return Err(HeaderError::CertificatesInGenesisRound);
            }
            // ... and no last election certificate IDs.
            if num_election != 0 {
                return Err(HeaderError::ElectionCertificatesInGenesisRound);
            }
        } else if num_previous == 0 {
            // After round one there is at least one previous certificate ID.
            return Err(HeaderError::MissingPreviousCertificates);
        }
        // Ensure that the number of transmissions is within bounds.
        let num_transmissions = bit_set_len(&transaction_indices) as u128 + bit_set_len(&solution_indices) as u128;
        if num_transmissions > MAX_TRANSMISSIONS as u128 {
            return Err(HeaderError::TooManyTransmissions);
        }
        // Ensure that the number of previous certificate IDs is within bounds.
        if num_previous > MAX_CERTIFICATES {
            return Err(HeaderError::TooManyPreviousCertificates);
        }
        // Ensure the number of last election certificate IDs is within bounds.
        if num_election > MAX_CERTIFICATES {
            return Err(HeaderError::TooManyElectionCertificates);
        }
        // Verify the signature.
        if !signature_verifies {
            return Err(HeaderError::InvalidSignature);
        }
        Ok(CompactHeader {
            batch_id,
            author,
            round,
            timestamp,
            transaction_indices,
            solution_indices,
            previous_certificate_ids,
            last_election_certificate_ids,
            signature,
        })
    }

    /// Returns the batch ID.
    pub fn batch_id(&self) -> (r: u64)
        ensures
            r == self@.batch_id,
    {
        self.batch_id
    }

    /// Returns the author.
    pub fn author(&self) -> (r: u64)
        ensures
            r == self@.author,
    {
        self.author
    }

    /// Returns the round number.
    pub fn round(&self) -> (r: u64)
        ensures
            r == self@.round,
    {
        self.round
    }

    /// Returns the timestamp.
    pub fn timestamp(&self) -> (r: i64)
        ensures
            r == self@.timestamp,
    {
        self.timestamp
    }

    /// Returns the transaction indices.
    pub fn transaction_indices(&self) -> (r: &BitSet)
        ensures
            bit_set_indices(*r) == self@.transaction_indices,
    {
        &self.transaction_indices
    }

    /// Returns the solution indices.
    pub fn solution_indices(&self) -> (r: &BitSet)
        ensures
            bit_set_indices(*r) == self@.solution_indices,
    {
        &self.solution_indices
    }

    /// Returns the batch certificate IDs for the previous round.
    pub fn previous_certificate_ids(&self) -> (r: &IdSet)
        ensures
            id_set_elems(*r) == self@.previous_certificate_ids,
    {
        &self.previous_certificate_ids
    }

    /// Returns the last election batch certificate IDs.
    pub fn last_election_certificate_ids(&self) -> (r: &IdSet)
        ensures
            id_set_elems(*r) == self@.last_election_certificate_ids,
    {
        &self.last_election_certificate_ids
    }

    /// Returns the signature.
    pub fn signature(&self) -> (r: u64)
        ensures
            r == self@.signature,
    {
        self.signature
    }

    /// Converts the compact header back into a batch header, given the block's
    /// ratifications, solutions (if any), transactions and rejected transactions.
    ///
    /// The batch header is assembled from the compact header's fields and the transmission
    /// IDs found: its batch ID is the stored one. A batch header's own constructor would
    /// also recompute the batch ID, check the round and size rules again, and verify the
    /// signature; that constructor is not part of this library, so none of that is done
    /// here, and the result is `Ok` whenever the transmission IDs are all found.
    pub fn into_batch_header(
        self,
        ratifications: &[u64],
        solutions: Option<&[u64]>,
        transactions: &[u64],
        rejected_transactions: &[u64],
    ) -> (r: Result<BatchHeader, HeaderError>)
        requires
            transactions.len() + rejected_transactions.len() < usize::MAX,
            solutions matches Some(s) ==> s.len() < usize::MAX,
        ensures
            ({
                let ids = rebuilt_transmission_ids(
                    self@,
                    match solutions { Some(s) => Some(s@), None => None },
                    transactions@,
                    rejected_transactions@,
                );
                match r {
                    Err(e) => if ratifications.len() != 0 {
                        e == HeaderError::ContainsRatifications
                    } else {
                        e == HeaderError::MissingTransmissionIds
                            && ids.len() != self@.transaction_indices.len() + self@.solution_indices.len()
                    },
                    Ok(b) => {
                        &&& ratifications.len() == 0
                        &&& ids.len() == self@.transaction_indices.len() + self@.solution_indices.len()
                        &&& b.version == 2
                        &&& b.batch_id == self@.batch_id
                        &&& b.author == self@.author
                        &&& b.round == self@.round
                        &&& b.timestamp == self@.timestamp
                        &&& b.signature == self@.signature
                        &&& transmission_set_elems(b.transmission_ids) == ids
                        &&& id_set_elems(b.previous_certificate_ids) == self@.previous_certificate_ids
                        &&& id_set_elems(b.last_election_certificate_ids) == self@.last_election_certificate_ids
                    },
                }
            }),
    {
        if ratifications.len() != 0 {
            return Err(HeaderError::ContainsRatifications);
        }
        let version: u8 = 2;
        let mut transmission_ids = transmission_set_new();
        let mut all_transactions: Vec<u64> = Vec::new();
        let mut k: usize = 0;
        while k < transactions.len()
            invariant
                k <= transactions.len(),
                all_transactions@ == transactions@.take(k as int),
            decreases transactions.len() - k,
        {
            all_transactions.push(transactions[k]);
            assert(all_transactions@ =~= transactions@.take(k + 1));
            k = k + 1;
        }
        let mut k: usize = 0;
        while k < rejected_transactions.len()
            invariant
                k <= rejected_transactions.len(),
                all_transactions@ == transactions@ + rejected_transactions@.take(k as int),
            decreases rejected_transactions.len() - k,
        {
            all_transactions.push(rejected_transactions[k]);
            assert(all_transactions@ =~= transactions@ + rejected_transactions@.take(k + 1));
            k = k + 1;
        }
        assert(all_transactions@ =~= transactions@ + rejected_transactions@);
        collect_into(all_transactions.as_slice(), TRANSACTION_TAG, &self.transaction_indices, &mut transmission_ids);
        if let Some(block_solutions) = solutions {
            collect_into(block_solutions, SOLUTION_TAG, &self.solution_indices, &mut transmission_ids);
        }
        let num_found = transmission_set_len(&transmission_ids) as u128;
        let num_expected = bit_set_len(&self.transaction_indices) as u128 + bit_set_len(&self.solution_indices) as u128;
        if num_found != num_expected {
            return Err(HeaderError::MissingTransmissionIds);
        }
        Ok(BatchHeader {
            version,
            batch_id: self.batch_id,
            author: self.author,
            round: self.round,
            timestamp: self.timestamp,
            transmission_ids,
            previous_certificate_ids: self.previous_certificate_ids,
            last_election_certificate_ids: self.last_election_certificate_ids,
            signature: self.signature,
        })
    }
}

/// The positions before `k` that `selected_indices` takes.
pub open spec fn selected_before(items: Seq<u64>, tag: u8, ids: Seq<(u8, u64)>, k: int) -> Set<usize> {
    Set::new(|i: usize| i < k && ids.contains((tag, items[i as int])))
}

proof fn lemma_collect_selected_prefix(acc: Seq<(u8, u64)>, items: Seq<u64>, tag: u8, ids: Seq<(u8, u64)>, k: int)
    requires
        items.no_duplicates(),
        acc.no_duplicates(),
        forall|x: (u8, u64)| #[trigger] acc.contains(x) ==> x.0 != tag && ids.contains(x),
        0 <= k <= items.len(),
        items.len() < usize::MAX,
    ensures
        ({
            let r = collect_selected(acc, items.take(k), tag, selected_indices(items, tag, ids));
            &&& r.no_duplicates()
            &&& forall|x: (u8, u64)| #[trigger] r.contains(x) ==> ids.contains(x)
                && (acc.contains(x) || (x.0 == tag && items.take(k).contains(x.1)))
            &&& selected_before(items, tag, ids, k).finite()
            &&& r.len() == acc.len() + selected_before(items, tag, ids, k).len()
        }),
    decreases k,
{
    let sel = selected_indices(items, tag, ids);
    if k == 0 {
        assert(selected_before(items, tag, ids, 0) =~= Set::<usize>::empty());
        assert(items.take(0).len() == 0);
    } else {
        lemma_collect_selected_prefix(acc, items, tag, ids, k - 1);
        let prev = collect_selected(acc, items.take(k - 1), tag, sel);
        assert(items.take(k).drop_last() =~= items.take(k - 1));
        assert(items.take(k).last() == items[k - 1]);
        let r = collect_selected(acc, items.take(k), tag, sel);
        let x = (tag, items[k - 1]);
        assert forall|i: int| 0 <= i < k - 1 implies #[trigger] items.take(k - 1)[i] != items[k - 1] by {
            assert(items[i] != items[k - 1]);
        }
        if prev.contains(x) {
            assert(!acc.contains(x));
            assert(items.take(k - 1).contains(items[k - 1]));
            assert(false);
        }
        if sel.contains((k - 1) as usize) {
            assert(r == prev.push(x));
            assert(selected_before(items, tag, ids, k) =~= selected_before(items, tag, ids, k - 1).insert((k - 1) as usize));
            assert forall|y: (u8, u64)| #[trigger] r.contains(y) implies ids.contains(y)
                && (acc.contains(y) || (y.0 == tag && items.take(k).contains(y.1))) by {
                if y != x {
                    let j = choose|j: int| 0 <= j < r.len() && r[j] == y;
                    assert(prev[j] == y);
                    assert(prev.contains(y));
                    if !acc.contains(y) {
                        let t = choose|t: int| 0 <= t < items.take(k - 1).len() && #[trigger] items.take(k - 1)[t] == y.1;
                        assert(items.take(k)[t] == y.1);
                    }
                } else {
                    assert(items.take(k)[k - 1] == y.1);
                }
            }
        } else {
            assert(r == prev);
            assert(selected_before(items, tag, ids, k) =~= selected_before(items, tag, ids, k - 1));
            assert forall|y: (u8, u64)| #[trigger] r.contains(y) implies ids.contains(y)
                && (acc.contains(y) || (y.0 == tag && items.take(k).contains(y.1))) by {
                if !acc.contains(y) {
                    let t = choose|t: int| 0 <= t < items.take(k - 1).len() && #[trigger] items.take(k - 1)[t] == y.1;
                    assert(items.take(k)[t] == y.1);
                }
            }
        }
    }
}

/// Converting a batch header into a compact header and back gives the same transmission
/// IDs, for a block whose transaction IDs are distinct and whose solutions are distinct:
/// when `CompactHeader::new` succeeds, `into_batch_header` finds exactly the batch's
/// transmission IDs again (as a set; they come back in the block's order).
pub proof fn law_compact_header_round_trip(
    h: CompactHeaderModel,
    ids: Seq<(u8, u64)>,
    solutions: Option<Seq<u64>>,
    transactions: Seq<u64>,
    rejected: Seq<u64>,
)
    requires
        ids.no_duplicates(),
        (transactions + rejected).no_duplicates(),
        transactions.len() + rejected.len() < usize::MAX,
        solutions matches Some(s) ==> s.no_duplicates() && s.len() < usize::MAX,
        h.transaction_indices == transaction_index_set(transactions, rejected, ids),
        h.solution_indices == solution_index_set(solutions, ids),
        h.transaction_indices.len() + h.solution_indices.len() == ids.len(),
    ensures
        rebuilt_transmission_ids(h, solutions, transactions, rejected).len()
            == h.transaction_indices.len() + h.solution_indices.len(),
        rebuilt_transmission_ids(h, solutions, transactions, rejected).to_set() == ids.to_set(),
{
    let all = transactions + rejected;
    let empty = Seq::<(u8, u64)>::empty();
    lemma_collect_selected_prefix(empty, all, TRANSACTION_TAG, ids, all.len() as int);
    assert(all.take(all.len() as int) =~= all);
    assert(selected_before(all, TRANSACTION_TAG, ids, all.len() as int) =~= h.transaction_indices);
    let txs = collect_selected(empty, all, TRANSACTION_TAG, h.transaction_indices);
    let r = rebuilt_transmission_ids(h, solutions, transactions, rejected);
    match solutions {
        Some(s) => {
            assert forall|x: (u8, u64)| #[trigger] txs.contains(x) implies x.0 != SOLUTION_TAG && ids.contains(x) by {}
            lemma_collect_selected_prefix(txs, s, SOLUTION_TAG, ids, s.len() as int);
            assert(s.take(s.len() as int) =~= s);
            assert(selected_before(s, SOLUTION_TAG, ids, s.len() as int) =~= h.solution_indices);
        },
        None => {
            assert(h.solution_indices.len() == 0);
        },
    }
    r.unique_seq_to_set();
    ids.unique_seq_to_set();
    vstd::seq_lib::seq_to_set_is_finite(r);
    vstd::seq_lib::seq_to_set_is_finite(ids);
    assert(r.to_set().subset_of(ids.to_set())) by {
        assert forall|x: (u8, u64)| r.to_set().contains(x) implies ids.to_set().contains(x) by {
            assert(r.contains(x));
        }
    }
    vstd::set_lib::lemma_subset_equality(r.to_set(), ids.to_set());
}

/// What an accepted compact header satisfies: rounds zero and one carry no certificate
/// IDs, every later round carries previous certificate IDs, the counts are within bounds,
/// and the signature verifies. Conversely, a batch after round one without previous
/// certificate IDs is refused as such, and a batch of round zero or one with certificate IDs
/// is refused as such.
pub proof fn law_from_rules(
    round: u64,
    num_transactions: nat,
    num_solutions: nat,
    num_previous: nat,
    num_election: nat,
    signature_verifies: bool,
)
    ensures
        from_check(round, num_transactions, num_solutions, num_previous, num_election, signature_verifies) is None
            <==> {
            &&& round <= 1 ==> num_previous == 0 && num_election == 0
            &&& round > 1 ==> num_previous > 0
            &&& num_transactions + num_solutions <= MAX_TRANSMISSIONS
            &&& num_previous <= MAX_CERTIFICATES
            &&& num_election <= MAX_CERTIFICATES
            &&& signature_verifies
        },
        round > 1 && num_previous == 0 ==> from_check(round, num_transactions, num_solutions, num_previous, num_election, signature_verifies)
            == Some(HeaderError::MissingPreviousCertificates),
        round <= 1 && num_previous > 0 ==> from_check(round, num_transactions, num_solutions, num_previous, num_election, signature_verifies)
            == Some(HeaderError::CertificatesInGenesisRound),
        round <= 1 && num_previous == 0 && num_election > 0 ==> from_check(round, num_transactions, num_solutions, num_previous, num_election, signature_verifies)
            == Some(HeaderError::ElectionCertificatesInGenesisRound),
{
}

} // verus!
