# chatcmd-runtime

The runtime behind a chat agent's tools: budgets and admission, resumable blob uploads
and managed artifacts, idempotent command execution and its journal, the source-state
snapshot of a working directory, file versions and their tokens, text edits, workspace
listing, search, reads and safe mutations, and the checks around browser and desktop
control.

## Layout

- `src/` is the library. Every function in it is verified with Verus against its
  `requires` / `ensures` contract; the laws that relate several calls are public proof
  functions (named `lemma_*`) beside the functions they speak of. Calls into the hashing,
  encoding, globbing, regex, PNG and URL crates stand behind small trusted wrappers whose
  doc comments say what their contracts claim.
- `app/` is the ordinary Rust around it: filesystem walks and reads, clocks, identifiers,
  serialized forms (serde) of the library's types, and the drivers that feed what they
  read to the library's decisions.
- `tests/` runs the library on concrete values.
