use snarkvm_state::speculate::{place_program_roots, CommitPlan, Speculate};
use snarkvm_state::types::{
    ChainState, Deployment, Execution, FinalizeCommand, MerkleTreeUpdate, SpeculateError, StoreCommand, Transaction,
    Transition,
};

fn chain(root: u64, programs: &[u64]) -> ChainState {
    ChainState { storage_root: root, program_ids: programs.to_vec() }
}

fn store(mapping_name: u64, key: &[u8], value: &[u8], key_id: u64, key_index: Option<u64>) -> FinalizeCommand {
    FinalizeCommand::Store(StoreCommand {
        mapping_name,
        mapping_id: 1000 + mapping_name,
        key: key.to_vec(),
        value: value.to_vec(),
        key_id,
        value_id: key_id + 1,
        key_index,
    })
}

fn transition(program_id: u64, commands: Option<Vec<FinalizeCommand>>, inputs: bool) -> Transition {
    Transition { program_id, function_found: true, finalize: commands, has_finalize_inputs: inputs }
}

fn deployment(id: u64, program_id: u64, mapping_ids: &[u64]) -> Transaction {
    Transaction::Deploy(id, Deployment { program_id, mapping_ids: mapping_ids.to_vec() })
}

fn operations_of(speculate: &Speculate, tx: u64) -> Option<Vec<(u64, MerkleTreeUpdate)>> {
    speculate.operations().get(&tx).cloned()
}

#[test]
fn new_speculate_is_empty() {
    let speculate = Speculate::new(7);
    assert_eq!(speculate.latest_storage_root, 7);
    assert!(speculate.accepted_transactions().is_empty());
    assert!(speculate.operations().is_empty());
    assert!(!speculate.contains_transaction(&1));
    assert_eq!(speculate.get_value(&1, &2, &vec![3]), None);
}

#[test]
fn update_key_value_then_get_value() {
    let mut speculate = Speculate::new(0);
    speculate.update_key_value(&1, &2, vec![3, 4], vec![5]);
    assert_eq!(speculate.get_value(&1, &2, &vec![3, 4]), Some(vec![5]));
    assert_eq!(speculate.get_value(&1, &2, &vec![3]), None);
    assert_eq!(speculate.get_value(&1, &9, &vec![3, 4]), None);
    assert_eq!(speculate.get_value(&9, &2, &vec![3, 4]), None);
    // Overwriting keeps one entry and the new value.
    speculate.update_key_value(&1, &2, vec![3, 4], vec![6, 7]);
    assert_eq!(speculate.get_value(&1, &2, &vec![3, 4]), Some(vec![6, 7]));
    assert_eq!(speculate.speculate_state.len(), 1);
    assert_eq!(speculate.speculate_state[&1][&2].len(), 1);
}

#[test]
fn update_key_value_keeps_insertion_order() {
    let mut speculate = Speculate::new(0);
    speculate.update_key_value(&5, &1, vec![1], vec![1]);
    speculate.update_key_value(&3, &1, vec![1], vec![1]);
    speculate.update_key_value(&5, &2, vec![1], vec![1]);
    let programs: Vec<u64> = speculate.speculate_state.keys().copied().collect();
    assert_eq!(programs, vec![5, 3]);
    let mappings: Vec<u64> = speculate.speculate_state[&5].keys().copied().collect();
    assert_eq!(mappings, vec![1, 2]);
}

#[test]
fn test_speculate_duplicate() {
    let vm = chain(42, &[1]);
    let deployment_transaction = deployment(100, 2, &[11, 12]);
    // Initialize the state speculator.
    let mut speculate = Speculate::new(42);
    assert!(speculate.speculate_transaction(&vm, &deployment_transaction).unwrap());
    // Speculating the same transaction again fails.
    assert!(speculate.speculate_transaction(&vm, &deployment_transaction).is_err());
    // Speculating duplicate transactions fails.
    let mut speculate = Speculate::new(42);
    let transactions = [deployment(100, 2, &[11, 12]), deployment(100, 2, &[11, 12])];
    assert!(speculate.speculate_transactions(&vm, &transactions).is_err());
}

#[test]
fn duplicate_transaction_error_kind() {
    let vm = chain(42, &[]);
    let mut speculate = Speculate::new(42);
    let tx = deployment(100, 2, &[11]);
    assert_eq!(speculate.speculate_transaction(&vm, &tx), Ok(true));
    assert_eq!(speculate.speculate_transaction(&vm, &tx), Err(SpeculateError::TransactionAlreadyProcessed));
    assert_eq!(speculate.processed_transactions, vec![100]);
    assert_eq!(speculate.accepted_transactions(), &[100]);
}

#[test]
fn storage_root_mismatch_is_refused() {
    let vm = chain(1, &[]);
    let mut speculate = Speculate::new(2);
    let tx = deployment(100, 2, &[11]);
    assert_eq!(speculate.speculate_transaction(&vm, &tx), Err(SpeculateError::StorageRootMismatch));
    assert!(speculate.processed_transactions.is_empty());
    assert!(matches!(speculate.commit(&vm), Err(SpeculateError::StorageRootMismatch)));
}

#[test]
fn deployment_of_deployed_program_is_rejected() {
    let vm = chain(0, &[2]);
    let mut speculate = Speculate::new(0);
    let tx = deployment(100, 2, &[11]);
    assert_eq!(speculate.speculate_transaction(&vm, &tx), Ok(false));
    assert_eq!(speculate.processed_transactions, vec![100]);
    assert!(speculate.accepted_transactions().is_empty());
    assert!(speculate.operations().is_empty());
    assert!(speculate.contains_transaction(&100));
}

#[test]
fn deployment_logs_one_insertion_per_distinct_mapping() {
    let vm = chain(0, &[]);
    let mut speculate = Speculate::new(0);
    let tx = deployment(100, 2, &[11, 12, 11, 13]);
    assert_eq!(speculate.speculate_transaction(&vm, &tx), Ok(true));
    assert_eq!(
        operations_of(&speculate, 100),
        Some(vec![
            (2, MerkleTreeUpdate::InsertMapping(11)),
            (2, MerkleTreeUpdate::InsertMapping(12)),
            (2, MerkleTreeUpdate::InsertMapping(13)),
        ])
    );
    // A program without mappings logs nothing.
    let tx = deployment(101, 3, &[]);
    assert_eq!(speculate.speculate_transaction(&vm, &tx), Ok(true));
    assert_eq!(operations_of(&speculate, 101), None);
    assert!(speculate.contains_transaction(&101));
}

#[test]
fn execution_runs_transitions_from_last_to_first() {
    let vm = chain(0, &[]);
    let mut speculate = Speculate::new(0);
    let execution = Execution {
        transitions: vec![
            transition(1, Some(vec![store(7, &[1], &[10], 50, Some(3))]), true),
            transition(2, None, false),
            transition(1, Some(vec![FinalizeCommand::Other, store(7, &[1], &[20], 50, None)]), true),
        ],
    };
    let tx = Transaction::Execute(200, execution);
    assert_eq!(speculate.speculate_transaction(&vm, &tx), Ok(true));
    // The first transition runs last, so its value stands.
    assert_eq!(speculate.get_value(&1, &7, &vec![1]), Some(vec![10]));
    assert_eq!(
        operations_of(&speculate, 200),
        Some(vec![
            (1, MerkleTreeUpdate::InsertValue(1007, 50, 51)),
            (1, MerkleTreeUpdate::UpdateValue(1007, 3, 50, 51)),
        ])
    );
}

#[test]
fn failed_execution_keeps_earlier_stores_but_logs_nothing() {
    let vm = chain(0, &[]);
    let mut speculate = Speculate::new(0);
    let execution = Execution {
        transitions: vec![transition(1, Some(vec![store(7, &[1], &[10], 50, None), FinalizeCommand::Failed]), true)],
    };
    assert_eq!(speculate.speculate_transaction(&vm, &Transaction::Execute(300, execution)), Ok(false));
    assert_eq!(speculate.get_value(&1, &7, &vec![1]), Some(vec![10]));
    assert!(speculate.operations().is_empty());

    let mut speculate = Speculate::new(0);
    let tx = Transaction::Execute(
        301,
        Execution { transitions: vec![transition(1, Some(vec![store(7, &[1], &[10], 50, None)]), false)] },
    );
    assert_eq!(speculate.speculate_transaction(&vm, &tx), Ok(false));
    assert_eq!(speculate.processed_transactions, vec![301]);
    assert!(speculate.accepted_transactions().is_empty());
    assert_eq!(speculate.get_value(&1, &7, &vec![1]), None);
    let tx = Transaction::Execute(302, Execution { transitions: vec![transition(1, Some(vec![]), false)] });
    assert_eq!(speculate.speculate_transaction(&vm, &tx), Ok(false));
    assert!(speculate.operations().is_empty());
}

#[test]
fn speculate_transactions_returns_the_accepted() {
    let vm = chain(0, &[9]);
    let mut speculate = Speculate::new(0);
    let failing = Execution { transitions: vec![transition(1, Some(vec![FinalizeCommand::Failed]), true)] };
    let transactions = [deployment(1, 2, &[5]), Transaction::Execute(2, failing), deployment(3, 9, &[6]), deployment(4, 4, &[])];
    assert_eq!(speculate.speculate_transactions(&vm, &transactions), Ok(vec![1, 4]));
    assert_eq!(speculate.processed_transactions, vec![1, 2, 3, 4]);
    assert_eq!(speculate.accepted_transactions(), &[1, 4]);
}

#[test]
fn commit_without_operations_keeps_the_tree() {
    let vm = chain(5, &[]);
    let speculate = Speculate::new(5);
    assert!(matches!(speculate.commit(&vm), Ok(CommitPlan::KeepCurrentTree)));
}

#[test]
fn commit_drops_only_outdated_operations() {
    let vm = chain(0, &[]);
    let mut speculate = Speculate::new(0);
    let first = Execution {
        transitions: vec![transition(
            1,
            Some(vec![store(7, &[1], &[10], 50, None), store(7, &[2], &[11], 60, Some(4))]),
            true,
        )],
    };
    let second = Execution { transitions: vec![transition(1, Some(vec![store(7, &[1], &[12], 50, Some(9))]), true)] };
    assert_eq!(speculate.speculate_transaction(&vm, &deployment(10, 2, &[21])), Ok(true));
    assert_eq!(speculate.speculate_transaction(&vm, &Transaction::Execute(11, first)), Ok(true));
    assert_eq!(speculate.speculate_transaction(&vm, &Transaction::Execute(12, second)), Ok(true));
    match speculate.commit(&vm) {
        Ok(CommitPlan::UpdatePrograms(plan)) => {
            let entries: Vec<(u64, Vec<MerkleTreeUpdate>)> = plan.into_iter().collect();
            // Key 50 is written twice: only its last operation stays; key 60 stays.
            assert_eq!(
                entries,
                vec![
                    (2, vec![MerkleTreeUpdate::InsertMapping(21)]),
                    (
                        1,
                        vec![
                            MerkleTreeUpdate::UpdateValue(1007, 4, 60, 61),
                            MerkleTreeUpdate::UpdateValue(1007, 9, 50, 51),
                        ]
                    ),
                ]
            );
        }
        _ => panic!("expected operations to apply"),
    }
}

#[test]
fn commit_of_two_mapping_insertions_keeps_the_last() {
    // Mapping insertions carry no key ID, so a later insertion outdates an earlier one.
    let vm = chain(0, &[]);
    let mut speculate = Speculate::new(0);
    assert_eq!(speculate.speculate_transaction(&vm, &deployment(10, 2, &[21, 22])), Ok(true));
    match speculate.commit(&vm) {
        Ok(CommitPlan::UpdatePrograms(plan)) => {
            assert_eq!(plan.get(&2), Some(&vec![MerkleTreeUpdate::InsertMapping(22)]));
        }
        _ => panic!("expected operations to apply"),
    }
}

#[test]
fn program_roots_are_placed_with_one_cursor() {
    // 7 is found at position 1; the cursor moves past it, so 5 is not found and is appended;
    // the scan is then exhausted, so 9 is appended too.
    let (updates, appends) = place_program_roots(&vec![5, 7, 9], &vec![(7, 100), (5, 200), (9, 300)]);
    assert_eq!(updates, vec![(1, 100)]);
    assert_eq!(appends, vec![200, 300]);
    // Positions are counted from the cursor.
    let (updates, appends) = place_program_roots(&vec![5, 7, 9], &vec![(5, 1), (9, 2)]);
    assert_eq!(updates, vec![(0, 1), (1, 2)]);
    assert!(appends.is_empty());
}

#[test]
fn unknown_function_rejects_the_execution() {
    let vm = chain(0, &[]);
    let mut speculate = Speculate::new(0);
    let execution = Execution {
        transitions: vec![
            Transition { program_id: 4, function_found: false, finalize: None, has_finalize_inputs: false },
            transition(1, Some(vec![store(7, &[1], &[10], 50, None)]), true),
        ],
    };
    // The last transition runs first: its store stands, then the unknown function stops it.
    assert_eq!(speculate.speculate_transaction(&vm, &Transaction::Execute(400, execution)), Ok(false));
    assert_eq!(speculate.get_value(&1, &7, &vec![1]), Some(vec![10]));
    assert!(speculate.operations().is_empty());
    assert_eq!(speculate.accepted_transactions(), &[] as &[u64]);
}

#[test]
fn test_speculate_deployment() {
    let vm = chain(3, &[1]);
    let deployment_transaction = deployment(500, 2, &[21]);
    let mut speculate = Speculate::new(3);
    assert!(speculate.speculate_transaction(&vm, &deployment_transaction).unwrap());
    match speculate.commit(&vm) {
        Ok(CommitPlan::UpdatePrograms(plan)) => {
            assert_eq!(plan.get(&2), Some(&vec![MerkleTreeUpdate::InsertMapping(21)]));
        }
        _ => panic!("expected operations to apply"),
    }
}

#[test]
fn test_speculate_execution() {
    let vm = chain(3, &[1]);
    // A mint updates the caller's balance; a transfer updates it again and creates the
    // recipient's.
    let mint_transaction = Transaction::Execute(
        600,
        Execution { transitions: vec![transition(1, Some(vec![store(0, b"caller", &[30], 70, Some(0))]), true)] },
    );
    let transfer_transaction = Transaction::Execute(
        601,
        Execution {
            transitions: vec![transition(
                1,
                Some(vec![store(0, b"caller", &[20], 70, Some(0)), store(0, b"recipient", &[10], 80, None)]),
                true,
            )],
        },
    );
    let mut speculate = Speculate::new(3);
    assert!(speculate.speculate_transaction(&vm, &mint_transaction).unwrap());
    assert!(speculate.speculate_transaction(&vm, &transfer_transaction).unwrap());
    assert_eq!(speculate.get_value(&1, &0, &b"caller".to_vec()), Some(vec![20]));
    assert_eq!(speculate.get_value(&1, &0, &b"recipient".to_vec()), Some(vec![10]));
    match speculate.commit(&vm) {
        Ok(CommitPlan::UpdatePrograms(plan)) => {
            let entries: Vec<(u64, Vec<MerkleTreeUpdate>)> = plan.into_iter().collect();
            // The mint's update of the caller is outdated by the transfer's.
            assert_eq!(
                entries,
                vec![(
                    1,
                    vec![MerkleTreeUpdate::UpdateValue(1000, 0, 70, 71), MerkleTreeUpdate::InsertValue(1000, 80, 81)]
                )]
            );
        }
        _ => panic!("expected operations to apply"),
    }
}

/// A public mint of the credits program (program 1, mapping 0): it updates the caller's
/// committed balance entry.
fn mint(id: u64, balance_after: u8) -> Transaction {
    Transaction::Execute(
        id,
        Execution { transitions: vec![transition(1, Some(vec![store(0, b"caller", &[balance_after], 70, Some(0))]), true)] },
    )
}

/// A public transfer of the credits program: it updates the caller's balance and the
/// recipient's, or its finalize fails when the balance does not cover it.
fn transfer(id: u64, outcome: Option<(u8, u8)>) -> Transaction {
    let commands = match outcome {
        Some((caller, recipient)) => {
            vec![store(0, b"caller", &[caller], 70, Some(0)), store(0, b"recipient", &[recipient], 80, None)]
        }
        None => vec![FinalizeCommand::Failed],
    };
    Transaction::Execute(id, Execution { transitions: vec![transition(1, Some(commands), true)] })
}

#[test]
fn test_speculate_many() {
    let vm = chain(3, &[1]);
    // Mint_10 -> Balance = 20 + 10  = 30
    // Transfer_10 -> Balance = 30 - 10 = 20
    // Transfer_20 -> Balance = 20 - 20
    {
        let mut speculate = Speculate::new(3);
        let transactions = [mint(1, 30), transfer(3, Some((20, 10))), transfer(4, Some((0, 30)))];
        assert_eq!(vec![1, 3, 4], speculate.speculate_transactions(&vm, &transactions).unwrap());
    }
    // Transfer_20 -> Balance = 20 - 20 = 0
    // Mint_10 -> Balance = 0 + 10 = 10
    // Mint_20 -> Balance = 10 + 20 = 30
    // Transfer_30 -> Balance = 30 - 30 = 0
    {
        let mut speculate = Speculate::new(3);
        let transactions = [transfer(4, Some((0, 20))), mint(1, 10), mint(2, 30), transfer(5, Some((0, 50)))];
        assert_eq!(vec![4, 1, 2, 5], speculate.speculate_transactions(&vm, &transactions).unwrap());
    }
    // Transfer_20 -> Balance = 20 - 20 = 0
    // Transfer_10 -> Balance = 0 - 10 should fail
    {
        let mut speculate = Speculate::new(3);
        let transactions = [transfer(4, Some((0, 20))), transfer(3, None)];
        assert_eq!(vec![4], speculate.speculate_transactions(&vm, &transactions).unwrap());
    }
    // Mint_20 -> Balance = 20 + 20
    // Transfer_30 -> Balance = 40 - 30 = 10
    // Transfer_20 (its finalize succeeds here)
    {
        let mut speculate = Speculate::new(3);
        let transactions = [mint(2, 40), transfer(5, Some((10, 30))), transfer(4, Some((0, 50)))];
        assert_eq!(vec![2, 5, 4], speculate.speculate_transactions(&vm, &transactions).unwrap());
    }
}

#[test]
fn processed_transactions_stay_processed() {
    let vm = chain(0, &[]);
    let mut speculate = Speculate::new(0);
    let rejected = transfer(9, None);
    assert_eq!(speculate.speculate_transaction(&vm, &rejected), Ok(false));
    speculate.update_key_value(&1, &0, vec![1], vec![2]);
    assert_eq!(speculate.speculate_transactions(&vm, &[mint(1, 5)]), Ok(vec![1]));
    assert!(speculate.contains_transaction(&9));
    assert_eq!(speculate.speculate_transaction(&vm, &rejected), Err(SpeculateError::TransactionAlreadyProcessed));
    assert_eq!(speculate.processed_transactions, vec![9, 1]);
    assert_eq!(speculate.accepted_transactions(), &[1]);
}

#[test]
fn written_value_survives_other_writes() {
    let mut speculate = Speculate::new(0);
    speculate.update_key_value(&1, &2, vec![3], vec![4]);
    speculate.update_key_value(&1, &2, vec![5], vec![6]);
    speculate.update_key_value(&1, &9, vec![3], vec![7]);
    speculate.update_key_value(&8, &2, vec![3], vec![8]);
    assert_eq!(speculate.get_value(&1, &2, &vec![3]), Some(vec![4]));
}
