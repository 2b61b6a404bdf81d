# conch

A POSIX shell whose logic is a Verus library: every function under `src/` states in
its contract what it computes, and Verus proves that it does.

The library reads no file and starts no process. It takes text and events and gives
back values and actions; the program under `app/` carries the actions out.

| Part | Modules |
| --- | --- |
| Text, numbers, maps | `text`, `numbers`, `text_map` |
| Lexing and parsing | `token`, `lexer`, `ast`, `parser` |
| Expansion | `parameter`, `arithmetic`, `brace`, `segment`, `fields`, `glob`, `expand` |
| Execution | `prepare`, `exec`, `builtins`, `invocation` |
| State of a session | `shell`, `jobs`, `traps` |

In most modules the executable code stands beside the mathematical rules that its
contracts speak of. Where the rules are long they have a file of their own
(`lexer/rules.rs`, `parser/grammar.rs`, `arithmetic/rules.rs`, `expand/rules.rs`,
`exec/rules.rs`). Public proof functions whose names begin with `law_` state what
holds of the rules as a whole.

The executor is a machine that is driven step by step: `Machine::step` takes what
happened since the last step and says what comes next. An expansion that needs the
output of a command or the names in a directory stops, asks for it, and is started
again from the same state with the answer.

What is believed without proof: that `String::push` appends a character, what
`{:?}` prints for texts and characters (named, not described), and the look-up of
signals by name and number in the `nix` crate.
