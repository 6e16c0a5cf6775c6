//! A Bitcoin Script interpreter: a decoder for the push/opcode framing of raw
//! script bytes, the script-number codec, and a stack evaluator that enforces
//! the consensus resource bounds.
pub mod hashes;
pub mod interpret;
pub mod opcodes;
pub mod ops;
pub mod parse;
pub mod script;
pub mod semantics;
pub mod stack;

pub use interpret::{evaluate, interpret, interpret_with};
pub use parse::{parse_one_op, parse_script};
pub use stack::Stack;
pub use script::{as_bool, as_script_nb, to_script_nb, Script, ScriptError, ScriptItem};
