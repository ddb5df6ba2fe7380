//! A line-numbered BASIC: statements, the program store and the executor.
pub mod error;
pub mod statement;
pub mod machine;
pub mod variables;
pub mod interpreter;
pub mod laws;

pub use error::{ErrorView, InterpreterError};
pub use statement::{parse_code_line, parse_code_line_given, Statement, StatementView};
pub use machine::{Flow, Machine, Progress};
pub use interpreter::{evaluate_given, following, Interpreter};
