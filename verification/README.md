# jsg_macros

Code generation for the JSG attribute macros `#[jsg_resource]` and
`#[jsg_traceable]`, verified with Verus.

| Place              | Contents                                                            |
|--------------------|---------------------------------------------------------------------|
| `src/syntax.rs`    | What code generation looks at: types, fields, attributes, items     |
| `src/code.rs`      | Emitted code, as a sequence of symbols                              |
| `src/attrs.rs`     | Attributes and their arguments, which `syn` parses                  |
| `src/spelling.rs`  | How lists of attribute arguments are written                        |
| `src/names.rs`     | Made-up identifiers and JavaScript names                            |
| `src/trace.rs`     | Which fields are traced, and the statements for fields of structs   |
| `src/traceable.rs` | `#[jsg_traceable]`: match arms of enums, removal of `#[jsg_trace]`  |
| `src/resource.rs`  | `#[jsg_resource]` on structs and on impl blocks                     |
| `src/expand.rs`    | Parts that both macros share                                        |
| `src/laws.rs`      | What holds of the macros as a whole                                 |
| `src/visits.rs`    | What the emitted `trace` visits, read by shape and not from its text |
| `app/`             | The entry points, from token streams to token streams               |

The contracts say which symbols are emitted for a given piece of syntax. `syn`
reads the text of attribute arguments. Of that the library relies on one thing:
lists of `key`, `key = "value"` and `key = 3` are read as they are written,
whatever the blanks; `src/spelling.rs` says exactly which texts these are. For
every other text the contracts of the entry points say what follows from
whatever is read, and the functions that take the arguments as values are exact.

How Rust executes the emitted statements is not modelled: `src/visits.rs` says
by the shape of a field what its statement visits.
