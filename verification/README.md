# min

A small agent. It puts a prompt to a chat model, runs the tools that the model
calls over HTTP, and goes on until the model has an answer or the steps are used
up. It runs once from the command line, serves sessions over a stream of JSON
lines, or works inside a WebAssembly host.

The logic is a library verified with Verus. The program around it does the
reading, the sending and the printing.

## Layout

- `src/value.rs`: the border to `serde_json` and `serde_yaml`. Everything that is
  trusted and not proved stands here, but for `String::push` in `text.rs`.
- `src/json.rs`, `src/order.rs`: documents as plain data, their members in the
  order of their keys.
- `src/text.rs`, `src/query.rs`, `src/url.rs`: strings, percent encoding and
  queries, addresses.
- `src/message.rs`, `src/reply.rs`, `src/tools.rs`: the messages of a
  conversation, what a reply says, and how a tool is reached.
- `src/config.rs`: the command line and the configuration.
- `src/talk.rs`, `src/play.rs`: a conversation step by step, and what holds of
  every course that it can take.
- `src/session.rs`, `src/events.rs`: sessions, requests for them, and what a
  client is told.
- `src/job.rs`, `src/abi.rs`: a prompt carried through inside a WebAssembly host.
- `app/`: `main`, the server, and the functions that a WebAssembly host calls.

## Arithmetic

The share of the window, three quarters of the budget, and the lengths of
conversations are reckoned in machine words and wrap around. The contracts say so.
