//! Properties of speculation that span calls: what every step keeps, what a repeated
//! transaction meets, and what a commit keeps of the logged operations.
use vstd::prelude::*;
use crate::ordered::{lookup, keys_of, lemma_keys_put, lemma_lookup_some_iff_key};
use crate::speculate::{
    SpeculateModel, transaction_step, transactions_step, deduplicated, group_operations, kept_operations, program_operations, live_operations, lemma_group_operations,
    lookup_or, deployment_step, execution_step, StateEntries, state_with_value, speculative_value,
    law_read_after_write, flatten_operations, OperationEntries, ExecOutcome, run_commands, run_transitions,
    transition_step, execution_outcome, store_operation,
};
use crate::types::{ChainState, Transaction, SpeculateError, MerkleTreeUpdate, Deployment, Execution, Transition, FinalizeCommand, StoreCommand};

verus! {

/// Whether `a` is `b` with some elements left out, the rest in their order.
pub open spec fn is_subsequence(a: Seq<u64>, b: Seq<u64>) -> bool
    decreases b.len(),
{
    if a.len() == 0 {
        true
    } else if b.len() == 0 {
        false
    } else if a.last() == b.last() {
        is_subsequence(a.drop_last(), b.drop_last())
    } else {
        is_subsequence(a, b.drop_last())
    }
}

/// The bookkeeping that speculation keeps: no transaction is processed twice, no
/// transaction is accepted twice, the accepted transactions are processed ones in the order
/// they were processed, and operations are logged only for processed transactions.
pub open spec fn well_formed(m: SpeculateModel) -> bool {
    &&& m.processed.no_duplicates()
    &&& m.accepted.no_duplicates()
    &&& forall|id: u64| m.accepted.contains(id) ==> m.processed.contains(id)
    &&& is_subsequence(m.accepted, m.processed)
    &&& forall|id: u64| #[trigger] lookup(m.operations, id) is Some ==> m.processed.contains(id)
}

/// A new speculation is well formed.
pub proof fn law_new_is_well_formed(latest_storage_root: u64)
    ensures
        well_formed(SpeculateModel {
            latest_storage_root,
            processed: Seq::empty(),
            accepted: Seq::empty(),
            state: Seq::empty(),
            operations: Seq::empty(),
        }),
{
}

proof fn lemma_subsequence_push(a: Seq<u64>, b: Seq<u64>, x: u64)
    requires
        is_subsequence(a, b),
    ensures
        is_subsequence(a, b.push(x)),
    decreases b.len(), 1int,
{
    assert(b.push(x).drop_last() =~= b);
    if a.len() > 0 && a.last() == x {
        lemma_subsequence_drop_last(a, b);
    }
}

proof fn lemma_subsequence_drop_last(a: Seq<u64>, b: Seq<u64>)
    requires
        is_subsequence(a, b),
        a.len() > 0,
    ensures
        is_subsequence(a.drop_last(), b),
    decreases b.len(), 0int,
{
    if a.last() == b.last() {
        lemma_subsequence_push(a.drop_last(), b.drop_last(), b.last());
        assert(b.drop_last().push(b.last()) =~= b);
    } else {
        lemma_subsequence_drop_last(a, b.drop_last());
        lemma_subsequence_push(a.drop_last(), b.drop_last(), b.last());
        assert(b.drop_last().push(b.last()) =~= b);
    }
}

/// Deployments and executions touch neither the storage root nor the transaction lists.
proof fn lemma_steps_keep_lists(m: SpeculateModel, vm: ChainState, tx: Transaction)
    ensures
        match tx {
            Transaction::Deploy(id, d) => {
                let m2 = deployment_step(m, vm.program_ids@, id, d).0;
                m2.latest_storage_root == m.latest_storage_root && m2.processed == m.processed && m2.accepted == m.accepted
            },
            Transaction::Execute(id, e) => {
                let m2 = execution_step(m, id, e).0;
                m2.latest_storage_root == m.latest_storage_root && m2.processed == m.processed && m2.accepted == m.accepted
            },
        },
{
}

/// The outcome of speculating one transaction: a refusal changes nothing; otherwise the
/// transaction joins the processed ones, and the accepted ones exactly when the result is
/// `true`. The storage root never changes.
pub proof fn law_transaction_outcome(m: SpeculateModel, vm: ChainState, tx: Transaction)
    ensures
        ({
            let (m2, r) = transaction_step(m, vm, tx);
            &&& m2.latest_storage_root == m.latest_storage_root
            &&& r is Err ==> m2 == m
            &&& r is Ok ==> m2.processed == m.processed.push(tx.spec_id()) && !m.contains_transaction(tx.spec_id())
            &&& r is Ok ==> forall|id: u64| #[trigger] lookup(m2.operations, id) is Some
                ==> id == tx.spec_id() || lookup(m.operations, id) is Some
            &&& r == Ok::<bool, SpeculateError>(true) ==> m2.accepted == m.accepted.push(tx.spec_id())
            &&& r == Ok::<bool, SpeculateError>(false) ==> m2.accepted == m.accepted
        }),
{
    let m1 = SpeculateModel { processed: m.processed.push(tx.spec_id()), ..m };
    lemma_steps_keep_lists(m1, vm, tx);
    let (m2, r) = transaction_step(m, vm, tx);
    if r is Ok {
        assert forall|id: u64| #[trigger] lookup(m2.operations, id) is Some
            implies id == tx.spec_id() || lookup(m.operations, id) is Some by {
            match tx {
                Transaction::Deploy(tid, d) => {
                    let ops = crate::speculate::deployment_operations(d.program_id, d.mapping_ids@);
                    if ops.len() > 0 {
                        crate::ordered::lemma_lookup_put(m.operations, tid, ops, id);
                    }
                },
                Transaction::Execute(tid, e) => {
                    let o = crate::speculate::execution_outcome(m1.state, e);
                    if o.ops.len() > 0 {
                        crate::ordered::lemma_lookup_put(m.operations, tid, o.ops, id);
                    }
                },
            }
        }
    }
}

/// Every step of speculation keeps the bookkeeping well formed.
pub proof fn law_transaction_keeps_well_formed(m: SpeculateModel, vm: ChainState, tx: Transaction)
    requires
        well_formed(m),
    ensures
        well_formed(transaction_step(m, vm, tx).0),
{
    law_transaction_outcome(m, vm, tx);
    let (m2, r) = transaction_step(m, vm, tx);
    let id = tx.spec_id();
    if r is Ok {
        assert forall|x: u64| m2.accepted.contains(x) implies m2.processed.contains(x) by {
            if x != id {
                assert(m.accepted.contains(x) ==> m.processed.contains(x));
                if m.accepted.contains(x) {
                    let k = choose|k: int| 0 <= k < m.processed.len() && m.processed[k] == x;
                    assert(m2.processed[k] == x);
                } else {
                    let k = choose|k: int| 0 <= k < m2.accepted.len() && m2.accepted[k] == x;
                    assert(k < m.accepted.len());
                    assert(m.accepted[k] == x);
                }
            } else {
                assert(m2.processed[m.processed.len() as int] == id);
            }
        }
        assert(!m.processed.contains(id));
        assert(!m.accepted.contains(id));
        lemma_subsequence_push(m.accepted, m.processed, id);
        if r == Ok::<bool, SpeculateError>(true) {
            assert(m2.accepted.drop_last() =~= m.accepted);
            assert(m2.processed.drop_last() =~= m.processed);
        }
        assert forall|x: u64| #[trigger] lookup(m2.operations, x) is Some implies m2.processed.contains(x) by {
            if x == id {
                assert(m2.processed[m.processed.len() as int] == id);
            } else {
                let k = choose|k: int| 0 <= k < m.processed.len() && m.processed[k] == x;
                assert(m2.processed[k] == x);
            }
        }
    }
}

/// Speculating a transaction that speculation already took is refused: after a
/// transaction was speculated (accepted or not), speculating it again fails with
/// `TransactionAlreadyProcessed`.
pub proof fn law_repeated_transaction_is_refused(m: SpeculateModel, vm: ChainState, tx: Transaction)
    requires
        transaction_step(m, vm, tx).1 is Ok,
    ensures
        transaction_step(transaction_step(m, vm, tx).0, vm, tx).1
            == Err::<bool, SpeculateError>(SpeculateError::TransactionAlreadyProcessed),
{
    law_transaction_outcome(m, vm, tx);
    let m2 = transaction_step(m, vm, tx).0;
    assert(m2.processed[m.processed.len() as int] == tx.spec_id());
    assert(m2.contains_transaction(tx.spec_id()));
}

/// Speculating a batch of transactions, the processed transactions only grow.
proof fn lemma_batch_processed_grows(m: SpeculateModel, vm: ChainState, txs: Seq<Transaction>, id: u64)
    requires
        m.processed.contains(id),
    ensures
        transactions_step(m, vm, txs).0.processed.contains(id),
    decreases txs.len(),
{
    if txs.len() > 0 {
        lemma_batch_processed_grows(m, vm, txs.drop_last(), id);
        let (m1, r1) = transactions_step(m, vm, txs.drop_last());
        if r1 is Ok {
            law_transaction_outcome(m1, vm, txs.last());
            let m2 = transaction_step(m1, vm, txs.last()).0;
            if transaction_step(m1, vm, txs.last()).1 is Ok {
                let k = choose|k: int| 0 <= k < m1.processed.len() && m1.processed[k] == id;
                assert(m2.processed[k] == id);
            }
        }
    }
}

/// Once a batch has failed on a prefix, it has failed.
proof fn lemma_batch_stops(m: SpeculateModel, vm: ChainState, txs: Seq<Transaction>, j: int)
    requires
        0 <= j <= txs.len(),
        transactions_step(m, vm, txs.take(j)).1 is Err,
    ensures
        transactions_step(m, vm, txs).1 is Err,
    decreases txs.len() - j,
{
    if j < txs.len() {
        assert(txs.take(j + 1).drop_last() =~= txs.take(j));
        lemma_batch_stops(m, vm, txs, j + 1);
    } else {
        assert(txs.take(j) =~= txs);
    }
}

/// A batch that holds the same transaction twice is refused.
pub proof fn law_duplicate_in_batch_is_refused(m: SpeculateModel, vm: ChainState, txs: Seq<Transaction>, i: int, j: int)
    requires
        0 <= i < j < txs.len(),
        txs[i].spec_id() == txs[j].spec_id(),
    ensures
        transactions_step(m, vm, txs).1 is Err,
{
    let id = txs[i].spec_id();
    let pre_i = txs.take(i + 1);
    assert(pre_i.drop_last() =~= txs.take(i));
    assert(pre_i.last() == txs[i]);
    if transactions_step(m, vm, pre_i).1 is Err {
        lemma_batch_stops(m, vm, txs, i + 1);
    } else {
        let (mi, _) = transactions_step(m, vm, txs.take(i));
        law_transaction_outcome(mi, vm, txs[i]);
        let m_after_i = transactions_step(m, vm, pre_i).0;
        assert(m_after_i.processed[mi.processed.len() as int] == id);
        let between = txs.subrange(i + 1, j);
        let pre_j = txs.take(j);
        // The processed list after the prefix up to `j` still holds `id`.
        lemma_batch_suffix_processed(m, vm, txs, i + 1, j, id);
        if transactions_step(m, vm, pre_j).1 is Err {
            lemma_batch_stops(m, vm, txs, j);
        } else {
            let mj = transactions_step(m, vm, pre_j).0;
            assert(txs.take(j + 1).drop_last() =~= pre_j);
            assert(txs.take(j + 1).last() == txs[j]);
            assert(mj.contains_transaction(id));
            lemma_batch_stops(m, vm, txs, j + 1);
        }
    }
}

/// If the prefix up to `a` left `id` processed, so does every longer prefix up to `b`.
proof fn lemma_batch_suffix_processed(m: SpeculateModel, vm: ChainState, txs: Seq<Transaction>, a: int, b: int, id: u64)
    requires
        0 <= a <= b <= txs.len(),
        transactions_step(m, vm, txs.take(a)).0.processed.contains(id),
    ensures
        transactions_step(m, vm, txs.take(b)).0.processed.contains(id),
    decreases b - a,
{
    if a < b {
        let ma = transactions_step(m, vm, txs.take(a));
        assert(txs.take(a + 1).drop_last() =~= txs.take(a));
        if ma.1 is Ok {
            law_transaction_outcome(ma.0, vm, txs.take(a + 1).last());
            let m2 = transaction_step(ma.0, vm, txs.take(a + 1).last()).0;
            if transaction_step(ma.0, vm, txs.take(a + 1).last()).1 is Ok {
                let k = choose|k: int| 0 <= k < ma.0.processed.len() && ma.0.processed[k] == id;
                assert(m2.processed[k] == id);
            }
        }
        lemma_batch_suffix_processed(m, vm, txs, a + 1, b, id);
    }
}

/// Speculating a batch: on success, the accepted transactions grow by exactly the IDs
/// returned, and the batch keeps the bookkeeping well formed.
pub proof fn law_batch_returns_the_accepted(m: SpeculateModel, vm: ChainState, txs: Seq<Transaction>)
    requires
        well_formed(m),
    ensures
        well_formed(transactions_step(m, vm, txs).0),
        transactions_step(m, vm, txs).0.latest_storage_root == m.latest_storage_root,
        transactions_step(m, vm, txs).1 matches Ok(ids) ==> transactions_step(m, vm, txs).0.accepted == m.accepted + ids,
    decreases txs.len(),
{
    if txs.len() == 0 {
        assert(m.accepted + Seq::<u64>::empty() =~= m.accepted);
    } else {
        law_batch_returns_the_accepted(m, vm, txs.drop_last());
        let (m1, r1) = transactions_step(m, vm, txs.drop_last());
        if let Ok(ids) = r1 {
            law_transaction_outcome(m1, vm, txs.last());
            law_transaction_keeps_well_formed(m1, vm, txs.last());
            let (m2, r2) = transaction_step(m1, vm, txs.last());
            if r2 == Ok::<bool, SpeculateError>(true) {
                assert(m.accepted + ids.push(txs.last().spec_id()) =~= (m.accepted + ids).push(txs.last().spec_id()));
            }
        }
    }
}

/// Committing lists the programs in the order they first appear in the log, and gives each
/// its logged operations minus those that a later operation of the same program, with an
/// equal key ID, outdates.
pub proof fn law_commit_drops_outdated_operations(all: Seq<(u64, MerkleTreeUpdate)>, program_id: u64)
    ensures
        lookup(group_operations(all), program_id) == (if program_operations(all, program_id).len() > 0 {
            Some(live_operations(program_operations(all, program_id)))
        } else {
            None
        }),
        keys_of(group_operations(all)) == deduplicated(keys_of(all)),
    decreases all.len(),
{
    lemma_group_operations(all, program_id);
    if all.len() > 0 {
        law_commit_drops_outdated_operations(all.drop_last(), program_id);
        let prev = group_operations(all.drop_last());
        let (p, op) = all.last();
        lemma_keys_put(prev, p, kept_operations(lookup_or(prev, p, Seq::empty()), op).push(op));
        lemma_lookup_some_iff_key(prev, p);
        assert(keys_of(all).drop_last() =~= keys_of(all.drop_last()));
        assert(keys_of(all).last() == p);
    } else {
        assert(keys_of(all) =~= Seq::<u64>::empty());
    }
}

/// The distinct mapping IDs of a deployment: each ID once, and exactly the IDs given.
pub proof fn law_deduplicated_ids(ids: Seq<u64>)
    ensures
        deduplicated(ids).no_duplicates(),
        forall|x: u64| deduplicated(ids).contains(x) <==> ids.contains(x),
    decreases ids.len(),
{
    if ids.len() > 0 {
        law_deduplicated_ids(ids.drop_last());
        let prev = deduplicated(ids.drop_last());
        let x = ids.last();
        assert forall|y: u64| deduplicated(ids).contains(y) <==> ids.contains(y) by {
            if !prev.contains(x) {
                if prev.push(x).contains(y) {
                    let k = choose|k: int| 0 <= k < prev.push(x).len() && prev.push(x)[k] == y;
                    if k < prev.len() {
                        assert(prev[k] == y);
                    }
                }
                if prev.contains(y) {
                    let k = choose|k: int| 0 <= k < prev.len() && prev[k] == y;
                    assert(prev.push(x)[k] == y);
                }
                assert(prev.push(x)[prev.len() as int] == x);
            }
            if ids.contains(y) {
                let k = choose|k: int| 0 <= k < ids.len() && ids[k] == y;
                if k < ids.len() - 1 {
                    assert(ids.drop_last()[k] == y);
                }
            }
            if ids.drop_last().contains(y) {
                let k = choose|k: int| 0 <= k < ids.drop_last().len() && ids.drop_last()[k] == y;
                assert(ids[k] == y);
            }
        }
    }
}

/// A call that changes a speculation.
pub enum SpeculateCall {
    SpeculateTransaction(ChainState, Transaction),
    SpeculateTransactions(ChainState, Seq<Transaction>),
    UpdateKeyValue(u64, u64, Seq<u8>, Seq<u8>),
}

/// The speculation after one call (whatever the call returned).
pub open spec fn apply_call(m: SpeculateModel, call: SpeculateCall) -> SpeculateModel {
    match call {
        SpeculateCall::SpeculateTransaction(vm, tx) => transaction_step(m, vm, tx).0,
        SpeculateCall::SpeculateTransactions(vm, txs) => transactions_step(m, vm, txs).0,
        SpeculateCall::UpdateKeyValue(p, mapping, k, v) => SpeculateModel {
            state: state_with_value(m.state, p, mapping, k, v),
            ..m
        },
    }
}

/// The speculation after the calls, in order.
pub open spec fn apply_calls(m: SpeculateModel, calls: Seq<SpeculateCall>) -> SpeculateModel
    decreases calls.len(),
{
    if calls.len() == 0 {
        m
    } else {
        apply_call(apply_calls(m, calls.drop_last()), calls.last())
    }
}

/// A processed transaction stays processed, whatever calls follow.
pub proof fn law_processed_stays_processed(m: SpeculateModel, calls: Seq<SpeculateCall>, id: u64)
    requires
        m.processed.contains(id),
    ensures
        apply_calls(m, calls).processed.contains(id),
        apply_calls(m, calls).contains_transaction(id),
    decreases calls.len(),
{
    if calls.len() > 0 {
        law_processed_stays_processed(m, calls.drop_last(), id);
        let m1 = apply_calls(m, calls.drop_last());
        match calls.last() {
            SpeculateCall::SpeculateTransaction(vm, tx) => {
                law_transaction_outcome(m1, vm, tx);
                if transaction_step(m1, vm, tx).1 is Ok {
                    let k = choose|k: int| 0 <= k < m1.processed.len() && m1.processed[k] == id;
                    assert(transaction_step(m1, vm, tx).0.processed[k] == id);
                }
            },
            SpeculateCall::SpeculateTransactions(vm, txs) => {
                lemma_batch_processed_grows(m1, vm, txs, id);
            },
            SpeculateCall::UpdateKeyValue(..) => {},
        }
    }
}

/// Whatever calls follow, a well-formed speculation stays well formed.
pub proof fn law_calls_keep_well_formed(m: SpeculateModel, calls: Seq<SpeculateCall>)
    requires
        well_formed(m),
    ensures
        well_formed(apply_calls(m, calls)),
    decreases calls.len(),
{
    if calls.len() > 0 {
        law_calls_keep_well_formed(m, calls.drop_last());
        let m1 = apply_calls(m, calls.drop_last());
        match calls.last() {
            SpeculateCall::SpeculateTransaction(vm, tx) => {
                law_transaction_keeps_well_formed(m1, vm, tx);
            },
            SpeculateCall::SpeculateTransactions(vm, txs) => {
                law_batch_returns_the_accepted(m1, vm, txs);
            },
            SpeculateCall::UpdateKeyValue(..) => {},
        }
    }
}

/// Once a transaction has been speculated (accepted or not), it counts as processed after
/// any later calls, so it can never be speculated again.
pub proof fn law_speculated_transaction_stays_processed(m: SpeculateModel, vm: ChainState, tx: Transaction, calls: Seq<SpeculateCall>)
    requires
        transaction_step(m, vm, tx).1 is Ok,
    ensures
        apply_calls(transaction_step(m, vm, tx).0, calls).contains_transaction(tx.spec_id()),
{
    law_transaction_outcome(m, vm, tx);
    assert(transaction_step(m, vm, tx).0.processed[m.processed.len() as int] == tx.spec_id());
    law_processed_stays_processed(transaction_step(m, vm, tx).0, calls, tx.spec_id());
}

/// The speculative state after the writes (program, mapping, key, value), in order.
pub open spec fn apply_writes(state: StateEntries, writes: Seq<(u64, u64, Seq<u8>, Seq<u8>)>) -> StateEntries
    decreases writes.len(),
{
    if writes.len() == 0 {
        state
    } else {
        let (p, mapping, k, v) = writes.last();
        state_with_value(apply_writes(state, writes.drop_last()), p, mapping, k, v)
    }
}

/// Writes under other (program, mapping, key) triples leave a value as it was.
pub proof fn law_other_writes_keep_value(
    state: StateEntries,
    writes: Seq<(u64, u64, Seq<u8>, Seq<u8>)>,
    p: u64,
    mapping: u64,
    k: Seq<u8>,
)
    requires
        forall|i: int| 0 <= i < writes.len() ==> (#[trigger] writes[i]).0 != p || writes[i].1 != mapping || writes[i].2 != k,
    ensures
        speculative_value(apply_writes(state, writes), p, mapping, k) == speculative_value(state, p, mapping, k),
    decreases writes.len(),
{
    if writes.len() > 0 {
        let (p2, m2, k2, v2) = writes.last();
        assert(writes[writes.len() - 1] == writes.last());
        law_other_writes_keep_value(state, writes.drop_last(), p, mapping, k);
        law_read_after_write(apply_writes(state, writes.drop_last()), p2, m2, k2, v2, p, mapping, k);
    }
}

/// A written value is read back after any later writes under other (program, mapping, key)
/// triples.
pub proof fn law_written_value_survives_other_writes(
    state: StateEntries,
    p: u64,
    mapping: u64,
    k: Seq<u8>,
    v: Seq<u8>,
    writes: Seq<(u64, u64, Seq<u8>, Seq<u8>)>,
)
    requires
        forall|i: int| 0 <= i < writes.len() ==> (#[trigger] writes[i]).0 != p || writes[i].1 != mapping || writes[i].2 != k,
    ensures
        speculative_value(apply_writes(state_with_value(state, p, mapping, k, v), writes), p, mapping, k) == Some(v),
{
    law_read_after_write(state, p, mapping, k, v, p, mapping, k);
    law_other_writes_keep_value(state_with_value(state, p, mapping, k, v), writes, p, mapping, k);
}

/// Speculating on a chain whose storage root is not the speculation's latest storage root is
/// refused with `StorageRootMismatch`, and the speculation is left as it was.
pub proof fn law_root_mismatch_is_refused(m: SpeculateModel, vm: ChainState, tx: Transaction)
    requires
        vm.storage_root != m.latest_storage_root,
    ensures
        transaction_step(m, vm, tx) == (m, Err::<bool, SpeculateError>(SpeculateError::StorageRootMismatch)),
{
}

/// A non-empty batch on a chain whose storage root is not the speculation's is refused with
/// `StorageRootMismatch`, and the speculation is left as it was.
pub proof fn law_batch_root_mismatch_is_refused(m: SpeculateModel, vm: ChainState, txs: Seq<Transaction>)
    requires
        vm.storage_root != m.latest_storage_root,
        txs.len() > 0,
    ensures
        transactions_step(m, vm, txs) == (m, Err::<Seq<u64>, SpeculateError>(SpeculateError::StorageRootMismatch)),
    decreases txs.len(),
{
    if txs.len() > 1 {
        law_batch_root_mismatch_is_refused(m, vm, txs.drop_last());
    } else {
        assert(txs.drop_last().len() == 0);
        assert(transactions_step(m, vm, txs.drop_last()) == (m, Ok::<Seq<u64>, SpeculateError>(Seq::empty())));
        law_root_mismatch_is_refused(m, vm, txs.last());
    }
}

/// A new deployment of a program that the chain already holds (anywhere among its deployed
/// programs) is processed but rejected, and logs nothing.
pub proof fn law_redeployment_is_rejected(m: SpeculateModel, vm: ChainState, id: u64, d: Deployment)
    requires
        vm.storage_root == m.latest_storage_root,
        !m.contains_transaction(id),
        vm.program_ids@.contains(d.program_id),
    ensures
        transaction_step(m, vm, Transaction::Deploy(id, d))
            == (SpeculateModel { processed: m.processed.push(id), ..m }, Ok::<bool, SpeculateError>(false)),
{
}

/// A new deployment of a program that the chain does not hold is accepted, and logs one
/// mapping insertion per distinct mapping ID under the transaction (nothing if the program
/// has no mappings).
pub proof fn law_fresh_deployment_is_accepted(m: SpeculateModel, vm: ChainState, id: u64, d: Deployment)
    requires
        vm.storage_root == m.latest_storage_root,
        !m.contains_transaction(id),
        !vm.program_ids@.contains(d.program_id),
    ensures
        ({
            let (m2, r) = transaction_step(m, vm, Transaction::Deploy(id, d));
            &&& r == Ok::<bool, SpeculateError>(true)
            &&& m2.accepted == m.accepted.push(id)
            &&& (lookup(m2.operations, id) is Some) == (d.mapping_ids@.len() > 0)
            &&& forall|x: u64| x != id ==> lookup(m2.operations, x) == lookup(m.operations, x)
        }),
{
    let ops = crate::speculate::deployment_operations(d.program_id, d.mapping_ids@);
    law_deduplicated_ids(d.mapping_ids@);
    if d.mapping_ids@.len() > 0 {
        assert(d.mapping_ids@.contains(d.mapping_ids@[0]));
        assert(crate::speculate::deduplicated(d.mapping_ids@).contains(d.mapping_ids@[0]));
        assert(ops.len() > 0);
        crate::ordered::lemma_lookup_put(m.operations, id, ops, id);
    } else {
        assert(crate::speculate::deduplicated(d.mapping_ids@).len() == 0);
    }
    assert forall|x: u64| x != id implies lookup(transaction_step(m, vm, Transaction::Deploy(id, d)).0.operations, x)
        == lookup(m.operations, x) by {
        if ops.len() > 0 {
            crate::ordered::lemma_lookup_put(m.operations, id, ops, x);
        }
    }
}

/// The number of logged operations, over all transactions.
pub open spec fn logged_count(log: OperationEntries) -> nat
    decreases log.len(),
{
    if log.len() == 0 {
        0
    } else {
        logged_count(log.drop_last()) + log.last().1.len()
    }
}

/// The operations that commit works on are all the logged ones: as many as were logged, and
/// each logged (program, operation) among them.
pub proof fn law_commit_collects_every_operation(log: OperationEntries, i: int, j: int)
    ensures
        flatten_operations(log).len() == logged_count(log),
        0 <= i < log.len() && 0 <= j < log[i].1.len() ==> flatten_operations(log).contains(log[i].1[j]),
    decreases log.len(),
{
    if log.len() > 0 {
        law_commit_collects_every_operation(log.drop_last(), i, j);
        let prev = flatten_operations(log.drop_last());
        let all = flatten_operations(log);
        if 0 <= i < log.len() && 0 <= j < log[i].1.len() {
            if i < log.len() - 1 {
                assert(log.drop_last()[i] == log[i]);
                let k = choose|k: int| 0 <= k < prev.len() && prev[k] == log[i].1[j];
                assert(all[k] == log[i].1[j]);
            } else {
                assert(all[prev.len() + j] == log[i].1[j]);
            }
        }
    }
}

proof fn lemma_program_operations_nonempty(all: Seq<(u64, MerkleTreeUpdate)>, e: (u64, MerkleTreeUpdate))
    requires
        all.contains(e),
    ensures
        program_operations(all, e.0).len() > 0,
    decreases all.len(),
{
    if all.last() != e {
        let k = choose|k: int| 0 <= k < all.len() && all[k] == e;
        assert(k < all.len() - 1);
        assert(all.drop_last()[k] == e);
        lemma_program_operations_nonempty(all.drop_last(), e);
    }
}

/// Every program with a logged operation gets an entry among the operations that commit
/// groups by program.
pub proof fn law_commit_covers_every_program(log: OperationEntries, i: int, j: int)
    requires
        0 <= i < log.len(),
        0 <= j < log[i].1.len(),
    ensures
        lookup(group_operations(flatten_operations(log)), log[i].1[j].0) is Some,
{
    law_commit_collects_every_operation(log, i, j);
    lemma_program_operations_nonempty(flatten_operations(log), log[i].1[j]);
    lemma_group_operations(flatten_operations(log), log[i].1[j].0);
}

/// Whether the commands hold a store to `(mapping, key)`.
pub open spec fn commands_store_to(commands: Seq<FinalizeCommand>, mapping: u64, key: Seq<u8>) -> bool {
    exists|c: int| 0 <= c < commands.len() && (#[trigger] commands[c] matches FinalizeCommand::Store(s)
        && s.mapping_name == mapping && s.key@ == key)
}

/// Whether the commands hold a store that logs `op`.
pub open spec fn commands_log(commands: Seq<FinalizeCommand>, op: MerkleTreeUpdate) -> bool {
    exists|c: int| 0 <= c < commands.len() && (#[trigger] commands[c] matches FinalizeCommand::Store(s)
        && store_operation(s) == op)
}

/// Whether the transition's finalize scope holds a store to `(mapping, key)`.
pub open spec fn transition_stores_to(t: Transition, mapping: u64, key: Seq<u8>) -> bool {
    match t.finalize {
        Some(commands) => commands_store_to(commands@, mapping, key),
        None => false,
    }
}

/// Whether the transition's finalize scope holds a store that logs `op`.
pub open spec fn transition_logs(t: Transition, op: MerkleTreeUpdate) -> bool {
    match t.finalize {
        Some(commands) => commands_log(commands@, op),
        None => false,
    }
}

proof fn lemma_run_commands_frame(o: ExecOutcome, pid: u64, cmds: Seq<FinalizeCommand>, p: u64, mapping: u64, key: Seq<u8>)
    ensures
        speculative_value(run_commands(o, pid, cmds).state, p, mapping, key) != speculative_value(o.state, p, mapping, key)
            ==> p == pid && commands_store_to(cmds, mapping, key),
    decreases cmds.len(),
{
    if cmds.len() > 0 {
        lemma_run_commands_frame(o, pid, cmds.drop_last(), p, mapping, key);
        let prev = run_commands(o, pid, cmds.drop_last());
        let r = run_commands(o, pid, cmds);
        if speculative_value(r.state, p, mapping, key) != speculative_value(o.state, p, mapping, key) {
            if speculative_value(prev.state, p, mapping, key) != speculative_value(o.state, p, mapping, key) {
                let c = choose|c: int| 0 <= c < cmds.drop_last().len() && (#[trigger] cmds.drop_last()[c] matches FinalizeCommand::Store(s)
                    && s.mapping_name == mapping && s.key@ == key);
                assert(cmds[c] == cmds.drop_last()[c]);
            } else {
                assert(cmds[cmds.len() - 1] == cmds.last());
                match cmds.last() {
                    FinalizeCommand::Store(st) => {
                        law_read_after_write(prev.state, pid, st.mapping_name, st.key@, st.value@, p, mapping, key);
                    },
                    _ => {},
                }
            }
        }
    }
}

proof fn lemma_run_commands_ops(o: ExecOutcome, pid: u64, cmds: Seq<FinalizeCommand>)
    ensures
        ({
            let r = run_commands(o, pid, cmds);
            &&& r.ops.len() >= o.ops.len()
            &&& r.ops.take(o.ops.len() as int) == o.ops
            &&& forall|idx: int| o.ops.len() <= idx < r.ops.len() ==> (#[trigger] r.ops[idx]).0 == pid
                && commands_log(cmds, r.ops[idx].1)
        }),
    decreases cmds.len(),
{
    if cmds.len() > 0 {
        lemma_run_commands_ops(o, pid, cmds.drop_last());
        let prev = run_commands(o, pid, cmds.drop_last());
        let r = run_commands(o, pid, cmds);
        assert(cmds[cmds.len() - 1] == cmds.last());
        assert(r.ops.take(o.ops.len() as int) =~= o.ops) by {
            assert(prev.ops.take(o.ops.len() as int) == o.ops);
        }
        assert forall|idx: int| o.ops.len() <= idx < r.ops.len() implies (#[trigger] r.ops[idx]).0 == pid
            && commands_log(cmds, r.ops[idx].1) by {
            if idx < prev.ops.len() {
                assert(r.ops[idx] == prev.ops[idx]);
                let c = choose|c: int| 0 <= c < cmds.drop_last().len() && (#[trigger] cmds.drop_last()[c] matches FinalizeCommand::Store(s)
                    && store_operation(s) == prev.ops[idx].1);
                assert(cmds[c] == cmds.drop_last()[c]);
            }
        }
    } else {
        assert(o.ops.take(o.ops.len() as int) =~= o.ops);
    }
}

proof fn lemma_run_transitions_frame(o: ExecOutcome, ts: Seq<Transition>, p: u64, mapping: u64, key: Seq<u8>)
    ensures
        speculative_value(run_transitions(o, ts).state, p, mapping, key) != speculative_value(o.state, p, mapping, key)
            ==> exists|i: int| 0 <= i < ts.len() && (#[trigger] ts[i]).program_id == p && transition_stores_to(ts[i], mapping, key),
    decreases ts.len(),
{
    if ts.len() > 0 {
        lemma_run_transitions_frame(o, ts.drop_first(), p, mapping, key);
        let prev = run_transitions(o, ts.drop_first());
        let r = run_transitions(o, ts);
        if speculative_value(r.state, p, mapping, key) != speculative_value(o.state, p, mapping, key) {
            if speculative_value(prev.state, p, mapping, key) != speculative_value(o.state, p, mapping, key) {
                let i = choose|i: int| 0 <= i < ts.drop_first().len() && (#[trigger] ts.drop_first()[i]).program_id == p
                    && transition_stores_to(ts.drop_first()[i], mapping, key);
                assert(ts[i + 1] == ts.drop_first()[i]);
            } else {
                let t = ts[0];
                match t.finalize {
                    Some(commands) => {
                        lemma_run_commands_frame(prev, t.program_id, commands@, p, mapping, key);
                    },
                    None => {},
                }
            }
        }
    }
}

proof fn lemma_run_transitions_ops(o: ExecOutcome, ts: Seq<Transition>)
    ensures
        ({
            let r = run_transitions(o, ts);
            &&& r.ops.len() >= o.ops.len()
            &&& r.ops.take(o.ops.len() as int) == o.ops
            &&& forall|idx: int| o.ops.len() <= idx < r.ops.len() ==> exists|i: int| 0 <= i < ts.len()
                && (#[trigger] ts[i]).program_id == (#[trigger] r.ops[idx]).0 && transition_logs(ts[i], r.ops[idx].1)
        }),
    decreases ts.len(),
{
    if ts.len() > 0 {
        lemma_run_transitions_ops(o, ts.drop_first());
        let prev = run_transitions(o, ts.drop_first());
        let r = run_transitions(o, ts);
        let t = ts[0];
        match t.finalize {
            Some(commands) => {
                lemma_run_commands_ops(prev, t.program_id, commands@);
            },
            None => {},
        }
        assert(r.ops.take(o.ops.len() as int) =~= o.ops) by {
            assert(prev.ops.take(o.ops.len() as int) == o.ops);
            assert(r.ops.take(prev.ops.len() as int) == prev.ops);
        }
        assert forall|idx: int| o.ops.len() <= idx < r.ops.len() implies exists|i: int| 0 <= i < ts.len()
            && (#[trigger] ts[i]).program_id == (#[trigger] r.ops[idx]).0 && transition_logs(ts[i], r.ops[idx].1) by {
            if idx < prev.ops.len() {
                assert(r.ops[idx] == prev.ops[idx]);
                let i = choose|i: int| 0 <= i < ts.drop_first().len()
                    && (#[trigger] ts.drop_first()[i]).program_id == (#[trigger] prev.ops[idx]).0
                    && transition_logs(ts.drop_first()[i], prev.ops[idx].1);
                assert(ts[i + 1] == ts.drop_first()[i]);
            } else {
                assert(ts[0] == t);
            }
        }
    } else {
        assert(o.ops.take(o.ops.len() as int) =~= o.ops);
    }
}

/// An execution writes the speculative state only under the programs of its transitions:
/// if the value of (program, mapping, key) changes, some transition of that program stores
/// to that mapping and key.
pub proof fn law_execution_writes_under_its_transitions(
    state: StateEntries,
    execution: Execution,
    p: u64,
    mapping: u64,
    key: Seq<u8>,
)
    ensures
        speculative_value(execution_outcome(state, execution).state, p, mapping, key) != speculative_value(state, p, mapping, key)
            ==> exists|i: int| 0 <= i < execution.transitions@.len() && (#[trigger] execution.transitions@[i]).program_id == p
                && transition_stores_to(execution.transitions@[i], mapping, key),
{
    lemma_run_transitions_frame(
        ExecOutcome { state, ops: Seq::empty(), error: None },
        execution.transitions@,
        p,
        mapping,
        key,
    );
}

/// Every operation an execution logs is paired with the program of a transition whose
/// finalize scope holds the store that logs it.
pub proof fn law_execution_logs_under_its_transitions(state: StateEntries, execution: Execution, idx: int)
    requires
        0 <= idx < execution_outcome(state, execution).ops.len(),
    ensures
        exists|i: int| 0 <= i < execution.transitions@.len()
            && (#[trigger] execution.transitions@[i]).program_id == execution_outcome(state, execution).ops[idx].0
            && transition_logs(execution.transitions@[i], execution_outcome(state, execution).ops[idx].1),
{
    lemma_run_transitions_ops(ExecOutcome { state, ops: Seq::empty(), error: None }, execution.transitions@);
    let r = execution_outcome(state, execution);
    assert(r.ops[idx] == r.ops[idx]);
}

/// Whether command `c` is a store to `(mapping, key)`.
pub open spec fn is_store_to(command: FinalizeCommand, mapping: u64, key: Seq<u8>) -> bool {
    command matches FinalizeCommand::Store(s) && s.mapping_name == mapping && s.key@ == key
}

proof fn lemma_run_commands_error_stays(o: ExecOutcome, pid: u64, cmds: Seq<FinalizeCommand>)
    requires
        o.error is Some,
    ensures
        run_commands(o, pid, cmds) == o,
    decreases cmds.len(),
{
    if cmds.len() > 0 {
        lemma_run_commands_error_stays(o, pid, cmds.drop_last());
    }
}

proof fn lemma_run_commands_store(o: ExecOutcome, pid: u64, cmds: Seq<FinalizeCommand>, c: int, store: StoreCommand)
    requires
        run_commands(o, pid, cmds).error is None,
        0 <= c < cmds.len(),
        cmds[c] == FinalizeCommand::Store(store),
        forall|c2: int| c < c2 < cmds.len() ==> !is_store_to(#[trigger] cmds[c2], store.mapping_name, store.key@),
    ensures
        speculative_value(run_commands(o, pid, cmds).state, pid, store.mapping_name, store.key@) == Some(store.value@),
        run_commands(o, pid, cmds).ops.contains((pid, store_operation(store))),
    decreases cmds.len(),
{
    let prev = run_commands(o, pid, cmds.drop_last());
    let r = run_commands(o, pid, cmds);
    if prev.error is Some {
        lemma_run_commands_error_stays(prev, pid, seq![cmds.last()]);
        assert(r.error is Some);
    }
    if c == cmds.len() - 1 {
        law_read_after_write(prev.state, pid, store.mapping_name, store.key@, store.value@, pid, store.mapping_name, store.key@);
        assert(r.ops[r.ops.len() - 1] == (pid, store_operation(store)));
    } else {
        assert forall|c2: int| c < c2 < cmds.drop_last().len() implies !is_store_to(#[trigger] cmds.drop_last()[c2], store.mapping_name, store.key@) by {
            assert(cmds.drop_last()[c2] == cmds[c2]);
        }
        assert(cmds.drop_last()[c] == cmds[c]);
        lemma_run_commands_store(o, pid, cmds.drop_last(), c, store);
        assert(!is_store_to(cmds[cmds.len() - 1], store.mapping_name, store.key@));
        match cmds.last() {
            FinalizeCommand::Store(st) => {
                law_read_after_write(prev.state, pid, st.mapping_name, st.key@, st.value@, pid, store.mapping_name, store.key@);
            },
            _ => {},
        }
        let k = choose|k: int| 0 <= k < prev.ops.len() && prev.ops[k] == (pid, store_operation(store));
        lemma_run_commands_ops(prev, pid, seq![cmds.last()]);
        assert(r.ops[k] == prev.ops[k]) by {
            assert(r.ops.take(prev.ops.len() as int)[k] == prev.ops[k]);
        }
    }
}

proof fn lemma_run_transitions_store(o: ExecOutcome, ts: Seq<Transition>, i: int, commands: Vec<FinalizeCommand>, c: int, store: StoreCommand)
    requires
        run_transitions(o, ts).error is None,
        0 <= i < ts.len(),
        ts[i].finalize == Some(commands),
        0 <= c < commands@.len(),
        commands@[c] == FinalizeCommand::Store(store),
        forall|c2: int| c < c2 < commands@.len() ==> !is_store_to(#[trigger] commands@[c2], store.mapping_name, store.key@),
        forall|j: int| 0 <= j < i && (#[trigger] ts[j]).program_id == ts[i].program_id
            ==> !transition_stores_to(ts[j], store.mapping_name, store.key@),
    ensures
        speculative_value(run_transitions(o, ts).state, ts[i].program_id, store.mapping_name, store.key@) == Some(store.value@),
        run_transitions(o, ts).ops.contains((ts[i].program_id, store_operation(store))),
    decreases ts.len(),
{
    let prev = run_transitions(o, ts.drop_first());
    let r = run_transitions(o, ts);
    let t = ts[0];
    let p = ts[i].program_id;
    if prev.error is Some {
        assert(r == prev);
    }
    if i == 0 {
        assert(t.function_found);
        assert(t.has_finalize_inputs);
        lemma_run_commands_store(prev, t.program_id, commands@, c, store);
    } else {
        assert forall|j: int| 0 <= j < i - 1 && (#[trigger] ts.drop_first()[j]).program_id == ts.drop_first()[i - 1].program_id
            implies !transition_stores_to(ts.drop_first()[j], store.mapping_name, store.key@) by {
            assert(ts.drop_first()[j] == ts[j + 1]);
        }
        assert(ts.drop_first()[i - 1] == ts[i]);
        lemma_run_transitions_store(o, ts.drop_first(), i - 1, commands, c, store);
        let k = choose|k: int| 0 <= k < prev.ops.len() && prev.ops[k] == (p, store_operation(store));
        match t.finalize {
            Some(cmds) => {
                if t.function_found && t.has_finalize_inputs {
                    lemma_run_commands_frame(prev, t.program_id, cmds@, p, store.mapping_name, store.key@);
                    lemma_run_commands_ops(prev, t.program_id, cmds@);
                    assert(r.ops[k] == prev.ops[k]) by {
                        assert(r.ops.take(prev.ops.len() as int)[k] == prev.ops[k]);
                    }
                    if t.program_id == p {
                        assert(!transition_stores_to(ts[0], store.mapping_name, store.key@));
                    }
                }
            },
            None => {},
        }
        assert(r.ops[k] == (p, store_operation(store)));
    }
}

/// In an execution that succeeds, every store is logged under its transition's program, and
/// a store that no later-processed store to the same (program, mapping, key) overrides is
/// what the speculative state holds afterwards. Transitions run from the last to the first,
/// so later-processed stores are those in earlier transitions of the same program, and those
/// after it in its own transition.
pub proof fn law_execution_store_is_read_back(
    state: StateEntries,
    execution: Execution,
    i: int,
    commands: Vec<FinalizeCommand>,
    c: int,
    store: StoreCommand,
)
    requires
        execution_outcome(state, execution).error is None,
        0 <= i < execution.transitions@.len(),
        execution.transitions@[i].finalize == Some(commands),
        0 <= c < commands@.len(),
        commands@[c] == FinalizeCommand::Store(store),
        forall|c2: int| c < c2 < commands@.len() ==> !is_store_to(#[trigger] commands@[c2], store.mapping_name, store.key@),
        forall|j: int| 0 <= j < i && (#[trigger] execution.transitions@[j]).program_id == execution.transitions@[i].program_id
            ==> !transition_stores_to(execution.transitions@[j], store.mapping_name, store.key@),
    ensures
        speculative_value(execution_outcome(state, execution).state, execution.transitions@[i].program_id, store.mapping_name, store.key@)
            == Some(store.value@),
        execution_outcome(state, execution).ops.contains((execution.transitions@[i].program_id, store_operation(store))),
{
    lemma_run_transitions_store(
        ExecOutcome { state, ops: Seq::empty(), error: None },
        execution.transitions@,
        i,
        commands,
        c,
        store,
    );
}

} // verus!
