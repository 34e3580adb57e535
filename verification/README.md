# ls-server

The server layer of a language server for Scala 3 projects that are built through the
Build Server Protocol: a library whose behaviour is stated in contracts and proved by
Verus, and a program around it.

## The library, `src/`

- `jsonrpc`, `json`, `params`, `output`: frames, messages and JSON values.
- `server`, `lifecycle`, `capabilities`, `cli`: which state the workspace is in, what
  each message does to it, and what it is answered.
- `documents`, `lines`, `text`: open documents, edits, and positions in UTF-16 columns.
- `diagnostics`, `pc_diagnostics`: merging and forwarding diagnostics of the build and of
  the presentation compiler.
- `pc`, `pc_abi`, `pc_convert`, `pc_lsp`, `pc_overlay`: the mirror of open buffers that
  the presentation compiler is told of, its replies, and the symbols of unsaved buffers.
- `bootstrap`, `build_scheduler`, `bsp`: from the model of a build to the services of a
  workspace, and background reindexing.
- `formatting`, `doctor`, `logging`, `config`, `convert`, `protocol`: scalafmt, the
  report, the log, settings, and the types of the protocol.
- `paths`, `numerals`, `calendar`, `order`, `strmap`: what the rest is built on.

The functions named `law_*` are proofs about several operations together.

Threads, files, processes and the network are not part of the library. Where the server
waits for something, a module holds the decision as a step from a state and an event to
the next state and an action.

What is taken on trust stands in functions marked `#[verifier::external_body]`: calls of
`serde_json`, `line-index`, `dissimilar`, `lsp-types` and a few functions of the standard
library. Each says in its doc comment what is claimed of the call.

## The program, `app/`

`main` and the arguments, the message loop over standard input and output, the log, the
facts of the machine, the events of the build server, the embedded compiler behind its
driver, the scalafmt child process, and the threads that reindex and pull diagnostics.
