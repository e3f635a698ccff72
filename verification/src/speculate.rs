//! The speculative executor for the program state.
use vstd::prelude::*;
use crate::ordered::{lookup, put, lemma_lookup_put, state_map_entries, operations_map_entries, StateMap, OperationsMap, state_map_new, operations_map_new, operations_map_contains_key, state_map_get, mapping_map_get, value_map_get, state_map_entry_or_new, mapping_map_entry_or_new, value_map_insert, set_insert, IdSet, id_set_elems, id_set_new, id_set_insert, id_set_len, id_set_get_index, operations_map_insert, operations_map_len, operations_map_get_index, ProgramOpsMap, program_ops_entries, program_ops_with_capacity, program_ops_entry_or_new};
use crate::types::{MerkleTreeUpdate, SpeculateError, ChainState, Deployment, Execution, Transition, FinalizeCommand, StoreCommand, Transaction};

verus! {

/// The speculative state: program, then mapping name, then key bytes, to value bytes.
pub type StateEntries = Seq<(u64, Seq<(u64, Seq<(Seq<u8>, Seq<u8>)>)>)>;

/// The logged operations: transaction, then its (program, operation) list.
pub type OperationEntries = Seq<(u64, Seq<(u64, MerkleTreeUpdate)>)>;

/// The value stored under `k`, or the empty value of that type.
pub open spec fn lookup_or<K, V>(entries: Seq<(K, V)>, k: K, default: V) -> V {
    match lookup(entries, k) {
        Some(v) => v,
        None => default,
    }
}

/// The speculative value of `key` in mapping `mapping_name` of program `program_id`.
pub open spec fn speculative_value(state: StateEntries, program_id: u64, mapping_name: u64, key: Seq<u8>) -> Option<Seq<u8>> {
    match lookup(state, program_id) {
        None => None,
        Some(mappings) => match lookup(mappings, mapping_name) {
            None => None,
            Some(mapping) => lookup(mapping, key),
        },
    }
}

/// The speculative state after storing `value` under `key` in the mapping; missing programs
/// and mappings are created, placed last.
pub open spec fn state_with_value(state: StateEntries, program_id: u64, mapping_name: u64, key: Seq<u8>, value: Seq<u8>) -> StateEntries {
    let mappings = lookup_or(state, program_id, Seq::empty());
    let mapping = lookup_or(mappings, mapping_name, Seq::empty());
    put(state, program_id, put(mappings, mapping_name, put(mapping, key, value)))
}

/// The elements of `ids` without repetition, each at its first occurrence.
pub open spec fn deduplicated(ids: Seq<u64>) -> Seq<u64>
    decreases ids.len(),
{
    if ids.len() == 0 {
        Seq::empty()
    } else {
        set_insert(deduplicated(ids.drop_last()), ids.last())
    }
}

/// The operations a deployment logs: one mapping insertion per distinct mapping ID.
pub open spec fn deployment_operations(program_id: u64, mapping_ids: Seq<u64>) -> Seq<(u64, MerkleTreeUpdate)> {
    deduplicated(mapping_ids).map_values(|m: u64| (program_id, MerkleTreeUpdate::InsertMapping(m)))
}

/// The operation log after `ops` were logged for `transaction_id`: nothing is logged for an
/// empty list.
pub open spec fn log_operations(log: OperationEntries, transaction_id: u64, ops: Seq<(u64, MerkleTreeUpdate)>) -> OperationEntries {
    if ops.len() > 0 {
        put(log, transaction_id, ops)
    } else {
        log
    }
}

/// Speculating a deployment: refused if the program is deployed, else its operations are
/// logged.
pub open spec fn deployment_step(m: SpeculateModel, deployed: Seq<u64>, transaction_id: u64, deployment: Deployment) -> (SpeculateModel, Result<(), SpeculateError>) {
    if deployed.contains(deployment.program_id) {
        (m, Err(SpeculateError::ProgramAlreadyDeployed))
    } else {
        (
            SpeculateModel {
                operations: log_operations(
                    m.operations,
                    transaction_id,
                    deployment_operations(deployment.program_id, deployment.mapping_ids@),
                ),
                ..m
            },
            Ok(()),
        )
    }
}

/// What speculating an execution has produced so far: the speculative state, the operations
/// collected, and the error that stopped it, if any.
pub struct ExecOutcome {
    pub state: StateEntries,
    pub ops: Seq<(u64, MerkleTreeUpdate)>,
    pub error: Option<SpeculateError>,
}

/// The operation a store logs: an update if the key is already committed, else an insertion.
pub open spec fn store_operation(store: StoreCommand) -> MerkleTreeUpdate {
    match store.key_index {
        Some(key_index) => MerkleTreeUpdate::UpdateValue(store.mapping_id, #[verifier::truncate] (key_index as usize), store.key_id, store.value_id),
        None => MerkleTreeUpdate::InsertValue(store.mapping_id, store.key_id, store.value_id),
    }
}

/// One finalize command of program `program_id`; nothing happens once an error occurred.
pub open spec fn command_step(o: ExecOutcome, program_id: u64, command: FinalizeCommand) -> ExecOutcome {
    if o.error is Some {
        o
    } else {
        match command {
            FinalizeCommand::Store(store) => ExecOutcome {
                state: state_with_value(o.state, program_id, store.mapping_name, store.key@, store.value@),
                ops: o.ops.push((program_id, store_operation(store))),
                error: None,
            },
            FinalizeCommand::Other => o,
            FinalizeCommand::Failed => ExecOutcome { error: Some(SpeculateError::FinalizeCommandFailed), ..o },
        }
    }
}

/// The finalize commands of program `program_id`, in order.
pub open spec fn run_commands(o: ExecOutcome, program_id: u64, commands: Seq<FinalizeCommand>) -> ExecOutcome
    decreases commands.len(),
{
    if commands.len() == 0 {
        o
    } else {
        command_step(run_commands(o, program_id, commands.drop_last()), program_id, commands.last())
    }
}

/// One transition: its finalize scope, if its function has one.
pub open spec fn transition_step(o: ExecOutcome, t: Transition) -> ExecOutcome {
    if o.error is Some {
        o
    } else if !t.function_found {
        ExecOutcome { error: Some(SpeculateError::UnknownFunction), ..o }
    } else {
        match t.finalize {
            None => o,
            Some(commands) => if !t.has_finalize_inputs {
                ExecOutcome { error: Some(SpeculateError::MissingFinalizeInputs), ..o }
            } else {
                run_commands(o, t.program_id, commands@)
            },
        }
    }
}

/// The transitions, from the last one to the first.
pub open spec fn run_transitions(o: ExecOutcome, transitions: Seq<Transition>) -> ExecOutcome
    decreases transitions.len(),
{
    if transitions.len() == 0 {
        o
    } else {
        transition_step(run_transitions(o, transitions.drop_first()), transitions[0])
    }
}

/// Speculating an execution from the speculative state `state`.
pub open spec fn execution_outcome(state: StateEntries, execution: Execution) -> ExecOutcome {
    run_transitions(ExecOutcome { state, ops: Seq::empty(), error: None }, execution.transitions@)
}

/// Speculating an execution: the speculative state keeps every store made before an error;
/// the operations are logged only if no error occurred.
pub open spec fn execution_step(m: SpeculateModel, transaction_id: u64, execution: Execution) -> (SpeculateModel, Result<(), SpeculateError>) {
    let o = execution_outcome(m.state, execution);
    match o.error {
        Some(e) => (SpeculateModel { state: o.state, ..m }, Err(e)),
        None => (
            SpeculateModel { state: o.state, operations: log_operations(m.operations, transaction_id, o.ops), ..m },
            Ok(()),
        ),
    }
}

proof fn lemma_run_commands_stops(o: ExecOutcome, program_id: u64, commands: Seq<FinalizeCommand>, j: int)
    requires
        0 <= j <= commands.len(),
        run_commands(o, program_id, commands.take(j)).error is Some,
    ensures
        run_commands(o, program_id, commands) == run_commands(o, program_id, commands.take(j)),
    decreases commands.len() - j,
{
    if j < commands.len() {
        assert(commands.take(j + 1).drop_last() =~= commands.take(j));
        lemma_run_commands_stops(o, program_id, commands, j + 1);
    } else {
        assert(commands.take(j) =~= commands);
    }
}

proof fn lemma_run_transitions_stops(o: ExecOutcome, transitions: Seq<Transition>, i: int)
    requires
        0 <= i <= transitions.len(),
        run_transitions(o, transitions.skip(i)).error is Some,
    ensures
        run_transitions(o, transitions) == run_transitions(o, transitions.skip(i)),
    decreases i,
{
    if i > 0 {
        assert(transitions.skip(i - 1).drop_first() =~= transitions.skip(i));
        lemma_run_transitions_stops(o, transitions, i - 1);
    } else {
        assert(transitions.skip(0) =~= transitions);
    }
}

/// Speculating one transaction on the chain state `vm`: refused if the storage root
/// differs or the transaction was processed; otherwise it is recorded as processed, and as
/// accepted exactly when its deployment or execution succeeds.
pub open spec fn transaction_step(m: SpeculateModel, vm: ChainState, transaction: Transaction) -> (SpeculateModel, Result<bool, SpeculateError>) {
    let id = transaction.spec_id();
    if vm.storage_root != m.latest_storage_root {
        (m, Err(SpeculateError::StorageRootMismatch))
    } else if m.contains_transaction(id) {
        (m, Err(SpeculateError::TransactionAlreadyProcessed))
    } else {
        let m1 = SpeculateModel { processed: m.processed.push(id), ..m };
        let (m2, r) = match transaction {
            Transaction::Deploy(transaction_id, deployment) => deployment_step(m1, vm.program_ids@, transaction_id, deployment),
            Transaction::Execute(transaction_id, execution) => execution_step(m1, transaction_id, execution),
        };
        match r {
            Err(_) => (m2, Ok(false)),
            Ok(()) => (SpeculateModel { accepted: m2.accepted.push(id), ..m2 }, Ok(true)),
        }
    }
}

/// Speculating the transactions in order; the first refusal ends it, with the effects of
/// the earlier transactions kept. On success, the IDs of the accepted transactions.
pub open spec fn transactions_step(m: SpeculateModel, vm: ChainState, transactions: Seq<Transaction>) -> (SpeculateModel, Result<Seq<u64>, SpeculateError>)
    decreases transactions.len(),
{
    if transactions.len() == 0 {
        (m, Ok(Seq::empty()))
    } else {
        let (m1, r1) = transactions_step(m, vm, transactions.drop_last());
        match r1 {
            Err(e) => (m1, Err(e)),
            Ok(accepted) => {
                let (m2, r2) = transaction_step(m1, vm, transactions.last());
                match r2 {
                    Err(e) => (m2, Err(e)),
                    Ok(b) => (m2, Ok(if b { accepted.push(transactions.last().spec_id()) } else { accepted })),
                }
            },
        }
    }
}

proof fn lemma_transactions_step_stops(m: SpeculateModel, vm: ChainState, transactions: Seq<Transaction>, j: int)
    requires
        0 <= j <= transactions.len(),
        transactions_step(m, vm, transactions.take(j)).1 is Err,
    ensures
        transactions_step(m, vm, transactions) == transactions_step(m, vm, transactions.take(j)),
    decreases transactions.len() - j,
{
    if j < transactions.len() {
        assert(transactions.take(j + 1).drop_last() =~= transactions.take(j));
        lemma_transactions_step_stops(m, vm, transactions, j + 1);
    } else {
        assert(transactions.take(j) =~= transactions);
    }
}

/// All logged operations, transaction by transaction, in order.
pub open spec fn flatten_operations(log: OperationEntries) -> Seq<(u64, MerkleTreeUpdate)>
    decreases log.len(),
{
    if log.len() == 0 {
        Seq::empty()
    } else {
        flatten_operations(log.drop_last()) + log.last().1
    }
}

/// Whether an operation survives the arrival of `new_op`: its key ID differs from the new
/// operation's.
pub open spec fn not_outdated_by(new_op: MerkleTreeUpdate) -> spec_fn(MerkleTreeUpdate) -> bool {
    |op: MerkleTreeUpdate| op.spec_key_id() != new_op.spec_key_id()
}

/// The operations of `ops` kept when `new_op` arrives for the same program: those whose key
/// ID differs from the new operation's.
pub open spec fn kept_operations(ops: Seq<MerkleTreeUpdate>, new_op: MerkleTreeUpdate) -> Seq<MerkleTreeUpdate> {
    ops.filter(not_outdated_by(new_op))
}

/// The operations to apply, by program, in the order programs first appear: each new
/// operation goes after the operations of its program that it does not outdate.
pub open spec fn group_operations(all: Seq<(u64, MerkleTreeUpdate)>) -> Seq<(u64, Seq<MerkleTreeUpdate>)>
    decreases all.len(),
{
    if all.len() == 0 {
        Seq::empty()
    } else {
        let prev = group_operations(all.drop_last());
        let (program_id, op) = all.last();
        put(prev, program_id, kept_operations(lookup_or(prev, program_id, Seq::empty()), op).push(op))
    }
}

/// The operations of `all` that belong to `program_id`, in order.
pub open spec fn program_operations(all: Seq<(u64, MerkleTreeUpdate)>, program_id: u64) -> Seq<MerkleTreeUpdate>
    decreases all.len(),
{
    if all.len() == 0 {
        Seq::empty()
    } else {
        let prev = program_operations(all.drop_last(), program_id);
        if all.last().0 == program_id {
            prev.push(all.last().1)
        } else {
            prev
        }
    }
}

/// The operations of `ops` that no later operation outdates: each operation is dropped when
/// a later one has an equal key ID; the rest keep their order.
pub open spec fn live_operations(ops: Seq<MerkleTreeUpdate>) -> Seq<MerkleTreeUpdate>
    decreases ops.len(),
{
    if ops.len() == 0 {
        ops
    } else {
        let later = ops.drop_first();
        if exists|j: int| 0 <= j < later.len() && #[trigger] later[j].spec_key_id() == ops[0].spec_key_id() {
            live_operations(later)
        } else {
            seq![ops[0]] + live_operations(later)
        }
    }
}

/// Adding an operation at the end drops the live operations that it outdates.
pub proof fn lemma_live_operations_push(ops: Seq<MerkleTreeUpdate>, x: MerkleTreeUpdate)
    ensures
        live_operations(ops.push(x)) == kept_operations(live_operations(ops), x).push(x),
    decreases ops.len(),
{
    broadcast use vstd::seq_lib::group_seq_properties;
    let p = not_outdated_by(x);
    if ops.len() == 0 {
        assert(ops.push(x).drop_first() =~= Seq::<MerkleTreeUpdate>::empty());
        reveal(Seq::filter);
        let e = Seq::<MerkleTreeUpdate>::empty();
        assert(live_operations(e) == e);
        assert(ops.push(x)[0] == x);
        assert(live_operations(ops.push(x)) == seq![x] + live_operations(ops.push(x).drop_first()));
        assert(live_operations(ops.push(x)) =~= seq![x]);
        assert(kept_operations(live_operations(ops), x) == e);
    } else {
        let f = ops[0];
        let rest = ops.drop_first();
        lemma_live_operations_push(rest, x);
        assert(ops.push(x).drop_first() =~= rest.push(x));
        assert(ops.push(x)[0] == f);
        let sup = exists|j: int| 0 <= j < rest.len() && #[trigger] rest[j].spec_key_id() == f.spec_key_id();
        let sup2 = exists|j: int| 0 <= j < rest.push(x).len() && #[trigger] rest.push(x)[j].spec_key_id() == f.spec_key_id();
        if sup {
            let j = choose|j: int| 0 <= j < rest.len() && #[trigger] rest[j].spec_key_id() == f.spec_key_id();
            assert(rest.push(x)[j].spec_key_id() == f.spec_key_id());
        }
        if x.spec_key_id() == f.spec_key_id() {
            assert(rest.push(x)[rest.len() as int].spec_key_id() == f.spec_key_id());
        }
        if sup2 {
            let j = choose|j: int| 0 <= j < rest.push(x).len() && #[trigger] rest.push(x)[j].spec_key_id() == f.spec_key_id();
            if j < rest.len() {
                assert(rest[j].spec_key_id() == f.spec_key_id());
            }
        }
        assert(sup2 == (sup || !p(f)));
        let lr = live_operations(rest);
        if sup {
            assert(live_operations(ops) == lr);
            assert(live_operations(ops.push(x)) == live_operations(rest.push(x)));
        } else {
            assert(live_operations(ops) == seq![f] + lr);
            lr.lemma_filter_prepend(f, p);
            if p(f) {
                assert(live_operations(ops.push(x)) == seq![f] + live_operations(rest.push(x)));
                assert(kept_operations(seq![f] + lr, x) == seq![f] + kept_operations(lr, x));
                assert(live_operations(ops.push(x)) =~= kept_operations(live_operations(ops), x).push(x));
            } else {
                assert(live_operations(ops.push(x)) == live_operations(rest.push(x)));
                assert(kept_operations(seq![f] + lr, x) =~= kept_operations(lr, x));
            }
        }
    }
}

/// Grouping the log by program gives each program that occurs its live operations, and no
/// entry to a program that does not occur.
pub proof fn lemma_group_operations(all: Seq<(u64, MerkleTreeUpdate)>, program_id: u64)
    ensures
        lookup(group_operations(all), program_id) == (if program_operations(all, program_id).len() > 0 {
            Some(live_operations(program_operations(all, program_id)))
        } else {
            None
        }),
    decreases all.len(),
{
    if all.len() > 0 {
        let prev = group_operations(all.drop_last());
        let (q, op) = all.last();
        lemma_group_operations(all.drop_last(), q);
        lemma_group_operations(all.drop_last(), program_id);
        lemma_lookup_put(prev, q, kept_operations(lookup_or(prev, q, Seq::empty()), op).push(op), program_id);
        lemma_live_operations_push(program_operations(all.drop_last(), q), op);
        if program_operations(all.drop_last(), q).len() == 0 {
            assert(program_operations(all.drop_last(), q) =~= Seq::<MerkleTreeUpdate>::empty());
        }
    }
}

/// What committing the speculation asks of the storage tree.
pub enum CommitPlan {
    /// No operation was logged: the current storage tree stands.
    KeepCurrentTree,
    /// Rebuild the trees of these programs with these operations, then update or append
    /// their roots in the storage tree.
    UpdatePrograms(ProgramOpsMap),
}

/// The first position at or after `from` that holds `program_id`.
pub open spec fn position_from(program_ids: Seq<u64>, from: int, program_id: u64) -> Option<int>
    decreases program_ids.len() - from,
{
    if from < 0 || from >= program_ids.len() {
        None
    } else if program_ids[from] == program_id {
        Some(from)
    } else {
        position_from(program_ids, from + 1, program_id)
    }
}

/// Where the new program roots go in the storage tree, scanning the storage's program IDs
/// with a single cursor that starts at `cursor`: each program is looked for from the
/// cursor on; if found, its root updates the leaf at its position counted from the
/// cursor, and the cursor moves past it; if not, its root is appended and the scan is
/// exhausted. Returns the updates (position, root) and the appended roots.
pub open spec fn placement(program_ids: Seq<u64>, cursor: int, roots: Seq<(u64, u64)>) -> (Seq<(usize, u64)>, Seq<u64>)
    decreases roots.len(),
{
    if roots.len() == 0 {
        (Seq::empty(), Seq::empty())
    } else {
        let (program_id, root) = roots[0];
        match position_from(program_ids, cursor, program_id) {
            Some(a) => {
                let (updates, appends) = placement(program_ids, a + 1, roots.drop_first());
                (seq![((a - cursor) as usize, root)] + updates, appends)
            },
            None => {
                let (updates, appends) = placement(program_ids, program_ids.len() as int, roots.drop_first());
                (updates, seq![root] + appends)
            },
        }
    }
}

/// Places the new roots of the updated programs in the storage tree. `program_ids` are the
/// storage's program IDs in order, `program_roots` the updated programs with the roots of
/// their rebuilt trees, in order. The storage's program IDs are scanned once, with one
/// cursor shared by all lookups (see `placement`).
pub fn place_program_roots(program_ids: &Vec<u64>, program_roots: &Vec<(u64, u64)>) -> (r: (Vec<(usize, u64)>, Vec<u64>))
    ensures
        (r.0@, r.1@) == placement(program_ids@, 0, program_roots@),
{
    let ghost ids = program_ids@;
    let ghost roots = program_roots@;
    let mut updates: Vec<(usize, u64)> = Vec::new();
    let mut appends: Vec<u64> = Vec::new();
    let mut cursor: usize = 0;
    let mut k: usize = 0;
    assert(roots.skip(0) =~= roots);
    while k < program_roots.len()
        invariant
            k <= roots.len(),
            cursor <= ids.len(),
            ids == program_ids@,
            roots == program_roots@,
            placement(ids, 0, roots) == (
                updates@ + placement(ids, cursor as int, roots.skip(k as int)).0,
                appends@ + placement(ids, cursor as int, roots.skip(k as int)).1,
            ),
        decreases roots.len() - k,
    {
        let (program_id, root) = program_roots[k];
        proof {
            assert(roots.skip(k as int)[0] == roots[k as int]);
            assert(roots.skip(k as int).drop_first() =~= roots.skip(k + 1));
        }
        // Find the program from the cursor on.
        let mut a: usize = cursor;
        while a < program_ids.len() && program_ids[a] != program_id
            invariant
                cursor <= a <= ids.len(),
                ids == program_ids@,
                position_from(ids, cursor as int, program_id) == position_from(ids, a as int, program_id),
            decreases ids.len() - a,
        {
            a = a + 1;
        }
        let ghost rest = placement(ids, cursor as int, roots.skip(k as int));
        if a < program_ids.len() {
            let ghost tail = placement(ids, a + 1, roots.skip(k + 1));
            assert(rest == (seq![((a - cursor) as usize, root)] + tail.0, tail.1));
            updates.push((a - cursor, root));
            cursor = a + 1;
        } else {
            let ghost tail = placement(ids, ids.len() as int, roots.skip(k + 1));
            assert(rest == (tail.0, seq![root] + tail.1));
            appends.push(root);
            cursor = program_ids.len();
        }
        k = k + 1;
    }
    assert(roots.skip(k as int) =~= Seq::<(u64, u64)>::empty());
    (updates, appends)
}

/// The speculative executor for the program state.
pub struct Speculate {
    /// The latest storage root: the speculation must build on this state.
    pub latest_storage_root: u64,
    /// The transactions that have been processed, the rejected ones included.
    pub processed_transactions: Vec<u64>,
    /// The accepted transactions that have been processed.
    pub accepted_transactions: Vec<u64>,
    /// The values updated in the speculative state:
    /// (`program ID`, (`mapping name`, (`key`, `value`))).
    pub speculate_state: StateMap,
    /// The operations being performed, by transaction.
    pub operations: OperationsMap,
}

/// The abstract content of a `Speculate`.
pub struct SpeculateModel {
    pub latest_storage_root: u64,
    pub processed: Seq<u64>,
    pub accepted: Seq<u64>,
    pub state: StateEntries,
    pub operations: OperationEntries,
}

impl View for Speculate {
    type V = SpeculateModel;

    open spec fn view(&self) -> SpeculateModel {
        SpeculateModel {
            latest_storage_root: self.latest_storage_root,
            processed: self.processed_transactions@,
            accepted: self.accepted_transactions@,
            state: state_map_entries(self.speculate_state),
            operations: operations_map_entries(self.operations),
        }
    }
}

impl SpeculateModel {
    /// Whether the transaction has been processed: it is among the processed or accepted
    /// transactions, or it has logged operations.
    pub open spec fn contains_transaction(self, id: u64) -> bool {
        ||| self.processed.contains(id)
        ||| self.accepted.contains(id)
        ||| lookup(self.operations, id) is Some
    }
}

/// Whether `id` occurs in `ids`.
fn contains_id(ids: &Vec<u64>, id: u64) -> (r: bool)
    ensures
        r == ids@.contains(id),
{
    let mut i: usize = 0;
    while i < ids.len()
        invariant
            i <= ids.len(),
            forall|j: int| 0 <= j < i ==> ids@[j] != id,
        decreases ids.len() - i,
    {
        if ids[i] == id {
            return true;
        }
        i = i + 1;
    }
    false
}

impl Speculate {
    /// Initializes a new instance of `Speculate`.
    pub fn new(latest_storage_root: u64) -> (r: Self)
        ensures
            r@.latest_storage_root == latest_storage_root,
            r@.processed == Seq::<u64>::empty(),
            r@.accepted == Seq::<u64>::empty(),
            r@.state == Seq::<(u64, Seq<(u64, Seq<(Seq<u8>, Seq<u8>)>)>)>::empty(),
            r@.operations == Seq::<(u64, Seq<(u64, MerkleTreeUpdate)>)>::empty(),
    {
        Speculate {
            latest_storage_root,
            processed_transactions: Vec::new(),
            accepted_transactions: Vec::new(),
            speculate_state: state_map_new(),
            operations: operations_map_new(),
        }
    }

    /// Returns `true` if the transaction has been processed.
    pub fn contains_transaction(&self, transaction_id: &u64) -> (r: bool)
        ensures
            r == self@.contains_transaction(*transaction_id),
    {
        contains_id(&self.processed_transactions, *transaction_id)
            || contains_id(&self.accepted_transactions, *transaction_id)
            || operations_map_contains_key(&self.operations, transaction_id)
    }

    /// Returns the accepted transactions, in the order they were accepted.
    pub fn accepted_transactions(&self) -> (r: &[u64])
        ensures
            r@ == self@.accepted,
    {
        self.accepted_transactions.as_slice()
    }

    /// Returns the logged operations, by transaction.
    pub fn operations(&self) -> (r: &OperationsMap)
        ensures
            *r == self.operations,
            operations_map_entries(*r) == self@.operations,
    {
        &self.operations
    }

    /// Returns the speculative value for the given `program ID`, `mapping name`, and `key`
    /// (the key's byte encoding).
    pub fn get_value(&self, program_id: &u64, mapping_name: &u64, key: &Vec<u8>) -> (r: Option<Vec<u8>>)
        ensures
            match r {
                Some(v) => speculative_value(self@.state, *program_id, *mapping_name, key@) == Some(v@),
                None => speculative_value(self@.state, *program_id, *mapping_name, key@) is None,
            },
    {
        // Get the list of mappings associated with the program.
        let mappings = match state_map_get(&self.speculate_state, program_id) {
            Some(mappings) => mappings,
            None => return None,
        };
        // Get the mapping associated with the mapping name.
        let mapping = match mapping_map_get(mappings, mapping_name) {
            Some(mapping) => mapping,
            None => return None,
        };
        // Get the value associated with the key.
        match value_map_get(mapping, key) {
            Some(value) => {
                let v = value.clone();
                assert(v@ =~= value@);
                Some(v)
            },
            None => None,
        }
    }

    /// Stores the given `(key, value)` pair at the given `program ID` and `mapping name` in
    /// speculative storage. If the `key` does not exist, the pair is initialized; if it
    /// exists, the value is overwritten.
    pub fn update_key_value(&mut self, program_id: &u64, mapping_name: &u64, key: Vec<u8>, value: Vec<u8>)
        ensures
            final(self)@ == (SpeculateModel {
                state: state_with_value(old(self)@.state, *program_id, *mapping_name, key@, value@),
                ..old(self)@
            }),
    {
        // Get the list of mappings associated with the program.
        let mappings = state_map_entry_or_new(&mut self.speculate_state, *program_id);
        // Get the mapping associated with the mapping name.
        let mapping = mapping_map_entry_or_new(mappings, *mapping_name);
        // Update the key-value pair.
        value_map_insert(mapping, key, value);
    }

    /// Speculatively executes the given deployment.
    fn speculate_deployment(&mut self, vm: &ChainState, transaction_id: u64, deployment: &Deployment) -> (r: Result<(), SpeculateError>)
        ensures
            (final(self)@, r) == deployment_step(old(self)@, vm.program_ids@, transaction_id, *deployment),
    {
        let program_id = deployment.program_id;
        // Ensure that the program has not already been deployed.
        if vm.contains_program(&program_id) {
            return Err(SpeculateError::ProgramAlreadyDeployed);
        }
        // Compute the mapping IDs.
        let mut mapping_ids: IdSet = id_set_new();
        let mut i: usize = 0;
        while i < deployment.mapping_ids.len()
            invariant
                i <= deployment.mapping_ids.len(),
                id_set_elems(mapping_ids) == deduplicated(deployment.mapping_ids@.take(i as int)),
            decreases deployment.mapping_ids.len() - i,
        {
            proof {
                assert(deployment.mapping_ids@.take(i + 1).drop_last() =~= deployment.mapping_ids@.take(i as int));
            }
            id_set_insert(&mut mapping_ids, deployment.mapping_ids[i]);
            i = i + 1;
        }
        proof {
            assert(deployment.mapping_ids@.take(i as int) =~= deployment.mapping_ids@);
        }
        // Determine the operations that are being executed.
        let ghost target = deployment_operations(program_id, deployment.mapping_ids@);
        let n = id_set_len(&mapping_ids);
        let mut operations: Vec<(u64, MerkleTreeUpdate)> = Vec::new();
        let mut k: usize = 0;
        while k < n
            invariant
                k <= n,
                n == id_set_elems(mapping_ids).len(),
                id_set_elems(mapping_ids) == deduplicated(deployment.mapping_ids@),
                target == deployment_operations(program_id, deployment.mapping_ids@),
                operations@ == target.take(k as int),
            decreases n - k,
        {
            let mapping_id = *id_set_get_index(&mapping_ids, k).unwrap();
            // Log the Merkle tree operation.
            operations.push((program_id, MerkleTreeUpdate::InsertMapping(mapping_id)));
            proof {
                assert(operations@ =~= target.take(k + 1));
            }
            k = k + 1;
        }
        proof {
            assert(operations@ =~= target);
        }
        // Update the log of operations.
        if operations.len() > 0 {
            operations_map_insert(&mut self.operations, transaction_id, operations);
        }
        Ok(())
    }

    /// Speculatively executes the given execution: the finalize scopes of its transitions,
    /// from the last transition to the first.
    fn speculate_execution(&mut self, transaction_id: u64, execution: &Execution) -> (r: Result<(), SpeculateError>)
        ensures
            (final(self)@, r) == execution_step(old(self)@, transaction_id, *execution),
    {
        let ghost ts = execution.transitions@;
        let ghost o0 = ExecOutcome { state: self@.state, ops: Seq::empty(), error: None };
        let ghost m0 = self@;
        // Specify the mapping IDs that are updated by the transaction.
        let mut updated_mapping_ids: IdSet = id_set_new();
        // Determine the operations that are being executed.
        let mut operations: Vec<(u64, MerkleTreeUpdate)> = Vec::new();
        // Process the transitions, starting from the last one.
        let mut i: usize = execution.transitions.len();
        assert(ts.skip(i as int) =~= Seq::<Transition>::empty());
        while i > 0
            invariant
                i <= ts.len(),
                ts == execution.transitions@,
                o0 == (ExecOutcome { state: m0.state, ops: Seq::empty(), error: None }),
                run_transitions(o0, ts.skip(i as int)) == (ExecOutcome { state: self@.state, ops: operations@, error: None }),
                self@ == (SpeculateModel { state: self@.state, ..m0 }),
                m0 == old(self)@,
            decreases i,
        {
            i = i - 1;
            let transition = &execution.transitions[i];
            let program_id = transition.program_id;
            let ghost before = ExecOutcome { state: self@.state, ops: operations@, error: None };
            proof {
                assert(ts.skip(i as int).drop_first() =~= ts.skip(i + 1));
                assert(ts.skip(i as int)[0] == ts[i as int]);
                assert(run_transitions(o0, ts.skip(i as int)) == transition_step(before, ts[i as int]));
            }
            // Retrieve the function of the transition.
            if !transition.function_found {
                proof {
                    lemma_run_transitions_stops(o0, ts, i as int);
                }
                return Err(SpeculateError::UnknownFunction);
            }
            // If there is a finalize scope, perform the speculative finalize.
            if let Some(commands) = &transition.finalize {
                // Ensure the transition contains finalize inputs.
                if !transition.has_finalize_inputs {
                    proof {
                        assert(run_transitions(o0, ts.skip(i as int)) == transition_step(before, ts[i as int]));
                        lemma_run_transitions_stops(o0, ts, i as int);
                    }
                    return Err(SpeculateError::MissingFinalizeInputs);
                }
                // Evaluate the commands.
                let mut j: usize = 0;
                assert(commands@.take(0) =~= Seq::<FinalizeCommand>::empty());
                while j < commands.len()
                    invariant
                        j <= commands.len(),
                        run_commands(before, program_id, commands@.take(j as int))
                            == (ExecOutcome { state: self@.state, ops: operations@, error: None }),
                        self@ == (SpeculateModel { state: self@.state, ..m0 }),
                        m0 == old(self)@,
                        before.error is None,
                        i < ts.len(),
                        ts == execution.transitions@,
                        o0 == (ExecOutcome { state: m0.state, ops: Seq::empty(), error: None }),
                        *transition == ts[i as int],
                        transition.finalize == Some(*commands),
                        transition.has_finalize_inputs,
                        transition.function_found,
                        program_id == transition.program_id,
                        run_transitions(o0, ts.skip(i as int)) == transition_step(before, ts[i as int]),
                    decreases commands.len() - j,
                {
                    proof {
                        assert(commands@.take(j + 1).drop_last() =~= commands@.take(j as int));
                    }
                    match &commands[j] {
                        FinalizeCommand::Store(store) => {
                            id_set_insert(&mut updated_mapping_ids, store.mapping_id);
                            // Construct the update operation. If the key ID does not exist, insert it.
                            let operation = match store.key_index {
                                Some(key_index) => MerkleTreeUpdate::UpdateValue(
                                    store.mapping_id,
                                    #[verifier::truncate] (key_index as usize),
                                    store.key_id,
                                    store.value_id,
                                ),
                                None => MerkleTreeUpdate::InsertValue(store.mapping_id, store.key_id, store.value_id),
                            };
                            operations.push((program_id, operation));
                            // Perform the speculative store.
                            let key = store.key.clone();
                            let value = store.value.clone();
                            assert(key@ =~= store.key@);
                            assert(value@ =~= store.value@);
                            self.update_key_value(&program_id, &store.mapping_name, key, value);
                        },
                        FinalizeCommand::Other => {},
                        FinalizeCommand::Failed => {
                            proof {
                                let err = ExecOutcome {
                                    state: self@.state,
                                    ops: operations@,
                                    error: Some(SpeculateError::FinalizeCommandFailed),
                                };
                                assert(commands@.take(j + 1).last() == commands@[j as int]);
                                assert(run_commands(before, program_id, commands@.take(j + 1)) == err);
                                lemma_run_commands_stops(before, program_id, commands@, j + 1);
                                assert(run_transitions(o0, ts.skip(i as int)) == err);
                                lemma_run_transitions_stops(o0, ts, i as int);
                            }
                            return Err(SpeculateError::FinalizeCommandFailed);
                        },
                    }
                    j = j + 1;
                }
                assert(commands@.take(j as int) =~= commands@);
            }
        }
        assert(ts.skip(0) =~= ts);
        // Update the log of operations.
        if operations.len() > 0 {
            operations_map_insert(&mut self.operations, transaction_id, operations);
        }
        Ok(())
    }

    /// Speculatively executes the given transaction. Returns whether it was accepted.
    pub fn speculate_transaction(&mut self, vm: &ChainState, transaction: &Transaction) -> (r: Result<bool, SpeculateError>)
        ensures
            (final(self)@, r) == transaction_step(old(self)@, *vm, *transaction),
    {
        // Check that the chain state is the one the speculation builds on.
        if vm.storage_root != self.latest_storage_root {
            return Err(SpeculateError::StorageRootMismatch);
        }
        let id = transaction.id();
        // Check that the transaction has not been processed.
        if self.contains_transaction(&id) {
            return Err(SpeculateError::TransactionAlreadyProcessed);
        }
        // Add the transaction to the list of transactions.
        self.processed_transactions.push(id);
        // Perform the transaction mapping updates.
        match transaction {
            Transaction::Deploy(transaction_id, deployment) => {
                if self.speculate_deployment(vm, *transaction_id, deployment).is_err() {
                    return Ok(false);
                }
            },
            Transaction::Execute(transaction_id, execution) => {
                if self.speculate_execution(*transaction_id, execution).is_err() {
                    return Ok(false);
                }
            },
        }
        // Add to the list of accepted transactions.
        self.accepted_transactions.push(id);
        Ok(true)
    }

    /// Speculatively executes the given transactions. Returns the transactions that were
    /// accepted.
    pub fn speculate_transactions(&mut self, vm: &ChainState, transactions: &[Transaction]) -> (r: Result<Vec<u64>, SpeculateError>)
        ensures
            ({
                let (m, spec_r) = transactions_step(old(self)@, *vm, transactions@);
                &&& final(self)@ == m
                &&& match (r, spec_r) {
                    (Ok(ids), Ok(spec_ids)) => ids@ == spec_ids,
                    (Err(e), Err(spec_e)) => e == spec_e,
                    _ => false,
                }
            }),
    {
        let mut accepted_transactions: Vec<u64> = Vec::new();
        let mut i: usize = 0;
        assert(transactions@.take(0) =~= Seq::<Transaction>::empty());
        while i < transactions.len()
            invariant
                i <= transactions.len(),
                transactions_step(old(self)@, *vm, transactions@.take(i as int))
                    == (self@, Ok::<Seq<u64>, SpeculateError>(accepted_transactions@)),
            decreases transactions.len() - i,
        {
            proof {
                assert(transactions@.take(i + 1).drop_last() =~= transactions@.take(i as int));
                assert(transactions@.take(i + 1).last() == transactions@[i as int]);
            }
            let transaction = &transactions[i];
            match self.speculate_transaction(vm, transaction) {
                Ok(accepted) => {
                    if accepted {
                        accepted_transactions.push(transaction.id());
                    }
                },
                Err(e) => {
                    proof {
                        lemma_transactions_step_stops(old(self)@, *vm, transactions@, i + 1);
                    }
                    return Err(e);
                },
            }
            i = i + 1;
        }
        assert(transactions@.take(i as int) =~= transactions@);
        Ok(accepted_transactions)
    }

    /// Finalizes the speculation: the operations to apply to the storage tree, by program.
    pub fn commit(&self, vm: &ChainState) -> (r: Result<CommitPlan, SpeculateError>)
        ensures
            (r is Err) == (vm.storage_root != self.latest_storage_root),
            r matches Err(e) ==> e == SpeculateError::StorageRootMismatch,
            r matches Ok(CommitPlan::KeepCurrentTree) ==> flatten_operations(self@.operations).len() == 0,
            r matches Ok(CommitPlan::UpdatePrograms(m)) ==> {
                let all = flatten_operations(self@.operations);
                &&& all.len() > 0
                &&& program_ops_entries(m) == group_operations(all)
                &&& forall|program_id: u64| #[trigger] lookup(program_ops_entries(m), program_id)
                    == (if program_operations(all, program_id).len() > 0 {
                        Some(live_operations(program_operations(all, program_id)))
                    } else {
                        None
                    })
            },
    {
        // Check that the chain state is the one the speculation builds on.
        if vm.storage_root != self.latest_storage_root {
            return Err(SpeculateError::StorageRootMismatch);
        }
        let ghost log = self@.operations;
        // Collect the operations.
        let mut all_operations: Vec<(u64, MerkleTreeUpdate)> = Vec::new();
        let n = operations_map_len(&self.operations);
        let mut i: usize = 0;
        assert(log.take(0) =~= Seq::<(u64, Seq<(u64, MerkleTreeUpdate)>)>::empty());
        while i < n
            invariant
                i <= n,
                n == log.len(),
                log == operations_map_entries(self.operations),
                all_operations@ == flatten_operations(log.take(i as int)),
            decreases n - i,
        {
            let (_, ops) = operations_map_get_index(&self.operations, i).unwrap();
            let mut j: usize = 0;
            let ghost base = all_operations@;
            assert(ops@.take(0) =~= Seq::<(u64, MerkleTreeUpdate)>::empty());
            while j < ops.len()
                invariant
                    j <= ops.len(),
                    all_operations@ == base + ops@.take(j as int),
                decreases ops.len() - j,
            {
                all_operations.push(ops[j]);
                proof {
                    assert(base + ops@.take(j + 1) =~= (base + ops@.take(j as int)).push(ops@[j as int]));
                }
                j = j + 1;
            }
            proof {
                assert(ops@.take(j as int) =~= ops@);
                assert(log.take(i + 1).drop_last() =~= log.take(i as int));
                assert(log.take(i + 1).last() == log[i as int]);
            }
            i = i + 1;
        }
        assert(log.take(i as int) =~= log);
        // If there are no operations, the current storage tree stands.
        if all_operations.len() == 0 {
            return Ok(CommitPlan::KeepCurrentTree);
        }
        let ghost all = all_operations@;
        // Group the operations by program.
        let mut final_operations = program_ops_with_capacity(all_operations.len());
        let mut k: usize = 0;
        assert(all.take(0) =~= Seq::<(u64, MerkleTreeUpdate)>::empty());
        while k < all_operations.len()
            invariant
                k <= all_operations.len(),
                all == all_operations@,
                program_ops_entries(final_operations) == group_operations(all.take(k as int)),
            decreases all_operations.len() - k,
        {
            let (program_id, operation) = all_operations[k];
            proof {
                assert(all.take(k + 1).drop_last() =~= all.take(k as int));
                assert(all.take(k + 1).last() == all[k as int]);
            }
            let operations = program_ops_entry_or_new(&mut final_operations, program_id);
            // Remove the operations that have the same key ID, because they are now outdated.
            retain_operations(operations, &operation);
            // Add the operation to the list.
            operations.push(operation);
            k = k + 1;
        }
        assert(all.take(k as int) =~= all);
        assert forall|program_id: u64| #[trigger] lookup(program_ops_entries(final_operations), program_id)
            == (if program_operations(all, program_id).len() > 0 {
                Some(live_operations(program_operations(all, program_id)))
            } else {
                None
            }) by {
            lemma_group_operations(all, program_id);
        }
        Ok(CommitPlan::UpdatePrograms(final_operations))
    }
}

/// Keeps the operations whose key ID differs from that of `new_op`.
fn retain_operations(operations: &mut Vec<MerkleTreeUpdate>, new_op: &MerkleTreeUpdate)
    ensures
        final(operations)@ == kept_operations(old(operations)@, *new_op),
{
    let mut kept: Vec<MerkleTreeUpdate> = Vec::new();
    let mut t: usize = 0;
    let new_key_id = new_op.key_id();
    proof {
        reveal(Seq::filter);
    }
    assert(operations@.take(0) =~= Seq::<MerkleTreeUpdate>::empty());
    while t < operations.len()
        invariant
            t <= operations.len(),
            new_key_id == new_op.spec_key_id(),
            kept@ == kept_operations(operations@.take(t as int), *new_op),
        decreases operations.len() - t,
    {
        let op = operations[t];
        proof {
            reveal(Seq::filter);
            assert(operations@.take(t + 1).drop_last() =~= operations@.take(t as int));
            assert(operations@.take(t + 1).last() == op);
        }
        if op.key_id() != new_key_id {
            kept.push(op);
        }
        t = t + 1;
    }
    assert(operations@.take(t as int) =~= operations@);
    *operations = kept;
}

/// A read of the speculative state after a write sees the written value under the written
/// (program, mapping, key), and the earlier value everywhere else.
pub proof fn law_read_after_write(
    state: StateEntries,
    program_id: u64,
    mapping_name: u64,
    key: Seq<u8>,
    value: Seq<u8>,
    p: u64,
    m: u64,
    k: Seq<u8>,
)
    ensures
        speculative_value(state_with_value(state, program_id, mapping_name, key, value), p, m, k)
            == (if p == program_id && m == mapping_name && k == key {
            Some(value)
        } else {
            speculative_value(state, p, m, k)
        }),
{
    let mappings = lookup_or(state, program_id, Seq::empty());
    let mapping = lookup_or(mappings, mapping_name, Seq::empty());
    lemma_lookup_put(state, program_id, put(mappings, mapping_name, put(mapping, key, value)), p);
    lemma_lookup_put(mappings, mapping_name, put(mapping, key, value), m);
    lemma_lookup_put(mapping, key, value, k);
}

} // verus!
