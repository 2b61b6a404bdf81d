//! A POSIX shell: lexing, parsing, expansion and execution of programs.
//!
//! Text goes through [`lexer`] and [`parser`] to the trees of [`ast`]. The words of a
//! tree are expanded by [`expand`] (with [`parameter`], [`arithmetic`], [`brace`],
//! [`fields`] and [`glob`]), and [`exec`] runs the tree on the state of a
//! [`shell::Shell`], with the commands of [`builtins`], the jobs of [`jobs`] and the
//! traps of [`traps`].
//!
//! Nothing here starts a process or touches a file. Where the outside is needed, the
//! machine of [`exec`] hands out an action and goes on with the event that the caller
//! reports back.

pub mod arithmetic;
pub mod ast;
pub mod brace;
pub mod builtins;
pub mod exec;
pub mod expand;
pub mod fields;
pub mod glob;
pub mod invocation;
pub mod jobs;
pub mod lexer;
pub mod numbers;
pub mod parameter;
pub mod parser;
pub mod prepare;
pub mod segment;
pub mod shell;
pub mod text;
pub mod text_map;
pub mod token;
pub mod traps;
