//! A small command interpreter core: a shell-word tokenizer and the
//! decisions of command dispatch (redirection, builtin lookup, effects).

mod builtin;
mod command;
mod text;
mod tokenizer;
mod tokenizer_laws;
mod relay;
mod search;
mod shell;

pub use builtin::{Builtin, Effect};
pub use command::CommandLine;
pub use shell::{Action, Shell};
pub use tokenizer::Mode;
