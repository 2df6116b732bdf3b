# latte-rs-agent-tools

Tool management for agents: a registry of tools with namespaces, lifecycle hooks, handler
resolvers, validation of inputs and configurations, and a set of built-in tools (files, search,
edit, todo, shell, git, HTTP, syntax trees, browser and more).

The library under `src/` is written in [Verus](https://github.com/verus-lang/verus): its
functions have contracts over mathematical models, and Verus proves that the code meets them. The
crate under `app/` is ordinary Rust. It does what touches the outside world (files, processes,
requests, callbacks) and asks the library at every step what to do.

## Layout

| Path | What it holds |
| --- | --- |
| `src/manager/` | the registry, the hooks, the tool manager, the factory and the operations on configurations |
| `src/resolvers/` | from references to handlers to what is to be run |
| `src/tools/` | the built-in tools and the packages that they come in |
| `src/utils/` | names and namespaces, validation of inputs, repair of arguments, log lines |
| `src/json.rs`, `src/json_text.rs` | JSON values, their text and their order |
| `src/text.rs` | text as sequences of characters |
| `src/patterns.rs`, `src/ignores.rs`, `src/syntax.rs`, `src/web.rs` | what is taken from other crates: regular expressions and globs, ignore rules, syntax trees, URLs and headers |
| `app/` | the running part |
| `tests/` | tests of the library |

## How the parts work together

A tool call goes through `ToolManagerImpl::begin_execute`, which finds the tool, repairs and
validates the input and returns a plan; the caller runs the handler of the plan between the two
hooks of the tool's package, which the plan names, and hands the outcome to `ExecutionPlan::finish`, which says what is returned and which event is emitted. The
built-in tools follow the same pattern: a `parse_..` function reads the input, the caller does the
input and output that the request asks for, and a `finish_..` function makes the answer.

Handlers, hooks and guards are known to the library by number. The caller keeps the callbacks.

What other crates and the standard library compute is stated in the contracts of a few wrapper
functions, each marked `external_body`, and in two `assume_specification` items on strings in
`src/text.rs`; the types of other crates that pass through are declared beside the wrappers that
use them. These are believed; everything else is proved. Statements that concern several functions at once
stand beside them as proof functions named `law_..`.
