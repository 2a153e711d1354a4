//! A small Scheme-like language: datums, environments, a tail-call check
//! and an evaluator with an explicit `loop`/`recur` trampoline.
pub mod completion;
pub mod error_printing;
pub mod interpreter;
pub mod laws;
pub mod lexer;
pub mod native;
pub mod parser;
pub mod printer;
pub mod round_trip;
pub mod scope;
pub mod semantics;
pub mod string_interner;
pub mod tail_calls;
pub mod text;
pub mod value;
