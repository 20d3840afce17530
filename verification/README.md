# ink_sandbox

Balance conversions and debug-buffer decoding of the ink! contract sandbox,
verified with Verus.

- `src/u256.rs`: a 256-bit unsigned integer held as four little-endian words;
  its arithmetic is done by `sp_core::U256`.
- `src/balance.rs`: conversions between EVM and native balances, storage
  deposit limits, and the arguments that contract calls and code uploads hand to
  the runtime, with their laws.
- `src/debug_buffer.rs`: splitting a contract's debug buffer into its lines,
  with its laws.
- `app/lib.rs`: the `ContractAPI` that runs `pallet-revive` inside a sandbox
  runtime. It needs `pallet-revive`, `frame-support` and `frame-system`, which
  this crate does not depend on, so it does not build here.
