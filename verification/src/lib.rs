//! A grammar-aware mutation engine for fuzzing command-oriented binary
//! protocols.
//!
//! A command table declares which opcodes exist and which typed, bounded
//! fields each command carries. The engine generates and mutates sequences of
//! commands that always stay inside that grammar, turns them into a durable
//! byte encoding and back, and renders them as text for the fuzzed program.

pub mod babynotes;
pub mod buffer;
pub mod codec;
pub mod engine;
pub mod generate;
pub mod grammar;
pub mod input;
pub mod profile;
pub mod scalar;
pub mod stream;
pub mod structural;
pub mod synthesis;

pub use buffer::{mutate_buf, mutate_bytes};
pub use engine::{Fuzzer, FuzzerBuilder};
pub use grammar::{CommandDataSpec, CommandSpec};
pub use input::{Command, CommandData, Input};
pub use scalar::{mutate_signed_int, mutate_unsigned_int};
pub use stream::Pcg32;
