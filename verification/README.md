# quasar_svm

In-process Solana execution support, verified with Verus.

`src/` is the verified library:

- `account`, `pubkey`: accounts, instructions and addresses as plain values.
- `wire`: the binary format of the C interface (instructions and accounts in,
  results out), with round-trip laws.
- `message`: compiling instructions into a legacy message, the program ids a
  transaction names, and the instructions sysvar.
- `svm`: the account store, preparing an execution (merging explicit and
  stored accounts, resolving every message key), and finishing one (resulting
  accounts, commit, balances, token balances, execution trace).
- `sysvars`, `rent`, `program_cache`, `ids`, `loader_keys`: the sysvar
  accounts, rent, registered programs and well-known addresses.
- `token`, `user`: SPL Token layouts, account factories and test users.
- `error`: instruction and program errors, and the last-error slot of the C
  interface.

`app/` runs the Solana program runtime between the library's preparation and
finishing of an execution, and holds the C interface and the helpers that
panic or print. `tests/` exercises the library against the Solana crates.
