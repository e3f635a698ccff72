# snarkvm_state

Speculative execution of program state, compact batch headers and circuit IDs, with
contracts proved by Verus.

- `speculate`: the speculative executor. Transactions (deployments and executions) are
  speculated against a chain state; finalize stores update a speculative key-value state,
  and the Merkle-tree operations they imply are logged per transaction. `commit` groups the
  logged operations by program; `place_program_roots` decides which storage-tree leaves the
  rebuilt program trees update or append.
- `speculate_laws`: properties across calls (a transaction is processed at most once, a
  batch returns exactly the transactions it accepted, what a commit keeps).
- `compact_header`: compact headers of batches, built from a batch header and a block's
  transmissions, checked when assembled from parts, and converted back.
- `circuit`: circuit IDs (BLAKE2s-256 of a circuit's description, or read from a witness
  label).
- `ordered`, `bits`: the models of insertion-ordered maps and sets (`indexmap`) and of bit
  sets (`bit-set`), with the contracts trusted of those crates.

Values that come from elsewhere in a chain (field elements, program IDs, transaction IDs,
signatures) are held as integers; hashes that the chain computes are passed in.

Limits of the model:
- The batch bounds (`MAX_SOLUTIONS` = 256, `MAX_TRANSACTIONS` = 2^16, `MAX_CERTIFICATES` =
  200) are those of the Testnet3 network.
- `CompactHeader::from` takes the signature verdict from its caller.
- `CompactHeader::into_batch_header` assembles the batch header from the stored fields: it
  keeps the stored batch ID and does not recompute it, re-check the round and size rules,
  or verify the signature, as a batch header's own constructor would; that constructor is
  not part of this library.
- `Speculate::commit` returns the operations to apply by program; building the program and
  storage trees from them is left to the caller.
