//! What the library promises, operation by operation: each law relates an operation's results to
//! its inputs, or the results of several calls to each other.

pub mod arguments;
pub mod contents;
pub mod findings;
pub mod imports;
pub mod lines;
pub mod machine;
pub mod oracles;
pub mod projects;
pub mod texts;
pub mod types;
pub mod verdicts;
