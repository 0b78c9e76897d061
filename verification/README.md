# private_chain

The logic of a private chain: consensus over blocks of an execution layer, and the execution of those
blocks, in order or in parallel. The library is written and proved in Verus.

## Layout

- `src/primitives.rs`: addresses, hashes and 256-bit words.
- `src/parallel/`: Block-STM. A multi-version memory keeps what every version of a transaction has
  written, executions read from it and remember where each value came from, validation decides which of
  them stand, and the end of the block settles the balances that were only added to.
- `src/evm/`: the execution of a block around the virtual machine. The calls of the protocol, the
  transactions with their gas and receipts, requests, rewards and withdrawals, and the assembly of a new
  block.
- `src/consensus/`: the settings of the stack, keys and peers of the genesis, the static key ceremony,
  epochs, the framing of blocks, and the steps of proposing and verifying one.
- `tests/`: tests of the library.
- `app/`: the command line, the files, and the bridge to the `revm` virtual machine.

## What is proved

Every public function states what it returns. What holds across functions stands in proof functions whose
names begin with `law_`: in `src/parallel/laws.rs` for the memory, the reads and the results, in
`settlement_laws.rs` for the balances that are settled at the end of a block, and beside the functions
that they speak of elsewhere.

`serial_laws.rs` and `history_laws.rs` lead from validation to the sequential execution: in whichever order
versions are executed, recorded and aborted, a block whose reads are all valid in the end holds the values
of the sequential execution and gives its receipts. Two things are premises there: that a transaction comes
to the same wherever its reads find the same, which is up to the virtual machine, and that all reads do
validate, which the scheduler sees to.

The virtual machine, the database of the node and the storage of the chain are traits. Nothing is taken
for granted of what they reply: a function that asks one says what it does with every reply. What the
virtual machine is made to do for a block is stated step by step (`src/evm/steps.rs`), each step on the
machine that the one before left behind, and `src/evm/block_run.rs` says which steps a block takes and
what it comes to.

Calls into other crates stand in small functions marked `external_body`. Above each stands what it claims
of the function that it calls.
