# potato_core

The decision logic of the Potato desktop runtime as a Verus library: approval
and permission policy, directory rules, the follow-up outbox, context budgeting
and compaction, conversation repair and replay, Office input validation and
template filling, file search and file changes, memory notes, MCP settings,
URL checks, the routing of the local API's parameterised endpoints, the
state machine of a conversation turn, and the accounting of streamed
completions.

- `src/`: the verified library. Each module states its contracts over spec
  functions and views. Public `law_*` proof functions state the properties
  that hold across calls. Calls into outside crates (regex, globset, url,
  percent-encoding, base64, fernet, sha2, unicode-normalization) go through
  small trusted wrappers whose contracts are stated next to them.
- `tests/`: ordinary Rust tests of the library.
- `app/`: the unverified edge: JSON conversion, file-system walks and reads,
  and serde copies of library types.
