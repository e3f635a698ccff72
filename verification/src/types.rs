//! The values that speculative execution reads and produces.
use vstd::prelude::*;

verus! {

/// An update to the storage Merkle trees, recorded while speculating.
/// Identifiers (mapping IDs, key IDs, value IDs) are field elements, held as integers.
#[derive(Clone, Copy, Debug, PartialEq, Eq, Structural)]
pub enum MerkleTreeUpdate {
    /// Insert a new mapping: (`mapping ID`).
    InsertMapping(u64),
    /// Insert a key-value pair: (`mapping ID`, `key ID`, `value ID`).
    InsertValue(u64, u64, u64),
    /// Update a key-value pair: (`mapping ID`, `key index`, `key ID`, `value ID`).
    UpdateValue(u64, usize, u64, u64),
}

impl MerkleTreeUpdate {
    /// The key ID that the operation writes, if it writes a key.
    pub open spec fn spec_key_id(self) -> Option<u64> {
        match self {
            MerkleTreeUpdate::InsertMapping(_) => None,
            MerkleTreeUpdate::InsertValue(_, key_id, _) => Some(key_id),
            MerkleTreeUpdate::UpdateValue(_, _, key_id, _) => Some(key_id),
        }
    }

    /// Returns the key ID that the operation writes, if it writes a key.
    pub fn key_id(&self) -> (r: Option<u64>)
        ensures
            r == self.spec_key_id(),
    {
        match self {
            MerkleTreeUpdate::InsertMapping(_) => None,
            MerkleTreeUpdate::InsertValue(_, key_id, _) => Some(*key_id),
            MerkleTreeUpdate::UpdateValue(_, _, key_id, _) => Some(*key_id),
        }
    }
}

/// Why a speculation step was refused.
#[derive(Clone, Copy, Debug, PartialEq, Eq, Structural)]
pub enum SpeculateError {
    /// The chain's current storage root is not the one the speculation builds on.
    StorageRootMismatch,
    /// The transaction has already been processed.
    TransactionAlreadyProcessed,
    /// The deployed program is already on the chain.
    ProgramAlreadyDeployed,
    /// The program or function of a transition is not known.
    UnknownFunction,
    /// A transition whose function has a finalize scope carries no finalize inputs.
    MissingFinalizeInputs,
    /// A finalize command could not be evaluated.
    FinalizeCommandFailed,
}

/// The chain state that speculation builds on: its current storage root and the programs
/// that are deployed, in the order of the storage's program map.
pub struct ChainState {
    pub storage_root: u64,
    pub program_ids: Vec<u64>,
}

impl ChainState {
    /// Returns `true` if the program is deployed.
    pub fn contains_program(&self, program_id: &u64) -> (r: bool)
        ensures
            r == self.program_ids@.contains(*program_id),
    {
        let mut i: usize = 0;
        while i < self.program_ids.len()
            invariant
                i <= self.program_ids.len(),
                forall|j: int| 0 <= j < i ==> self.program_ids@[j] != *program_id,
            decreases self.program_ids.len() - i,
        {
            if self.program_ids[i] == *program_id {
                return true;
            }
            i = i + 1;
        }
        false
    }
}

/// A deployment, by what speculation reads of it: the program and the IDs of its mappings
/// (each the hash of the program ID and the mapping name), in the program's order.
pub struct Deployment {
    pub program_id: u64,
    pub mapping_ids: Vec<u64>,
}

/// A `set` of a mapping entry in a finalize scope, with the values computed for it: the
/// mapping ID, the key ID and value ID, and the index of the key in the committed mapping
/// if the key is already there.
pub struct StoreCommand {
    pub mapping_name: u64,
    pub mapping_id: u64,
    pub key: Vec<u8>,
    pub value: Vec<u8>,
    pub key_id: u64,
    pub value_id: u64,
    pub key_index: Option<u64>,
}

/// A command of a finalize scope, as speculation sees it.
pub enum FinalizeCommand {
    /// Stores a key-value pair in a mapping.
    Store(StoreCommand),
    /// A command that writes to no mapping.
    Other,
    /// A command whose evaluation fails.
    Failed,
}

/// A transition of an execution: its program, whether its program and function were found,
/// the finalize commands of its function if the function has a finalize scope, and whether
/// it carries finalize inputs.
pub struct Transition {
    pub program_id: u64,
    pub function_found: bool,
    pub finalize: Option<Vec<FinalizeCommand>>,
    pub has_finalize_inputs: bool,
}

/// An execution: its transitions, in order.
pub struct Execution {
    pub transitions: Vec<Transition>,
}

/// A transaction: a deployment or an execution, with its ID.
pub enum Transaction {
    Deploy(u64, Deployment),
    Execute(u64, Execution),
}

impl Transaction {
    pub open spec fn spec_id(&self) -> u64 {
        match self {
            Transaction::Deploy(id, _) => *id,
            Transaction::Execute(id, _) => *id,
        }
    }

    /// Returns the transaction ID.
    pub fn id(&self) -> (r: u64)
        ensures
            r == self.spec_id(),
    {
        match self {
            Transaction::Deploy(id, _) => *id,
            Transaction::Execute(id, _) => *id,
        }
    }
}

} // verus!
