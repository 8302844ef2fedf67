# carter

A command-line agent: it talks with a language model, runs the tools that the model calls, keeps sessions on
disk and takes them up again.

- `src/` is the library, verified with Verus: what a turn does with a stream of events, how calls are batched,
  how a conversation is compacted, recorded, folded, collected and branched off, how commands, skills, memory,
  hooks, models and settings are read, and what each tool answers. Every function states what it returns;
  properties that span several functions are the `law_…` proofs beside them.
- `app/` is the program around it: files, processes, the network, the terminal, and floating point.
- `tests/` runs the library on concrete values.

Calls into other crates stand behind a few trusted functions. Each is marked `external_body` or
`assume_specification`, and its comment says what is claimed of the call: `json.rs` (JSON values and text),
`text.rs` and `session/store.rs` (standard library, session ids), `tokens.rs` (token counts),
`media/store.rs` (digests), `media/clipboard.rs` (PNG files) and `mcp/transport.rs` (HTTP headers).
