//! A composable algebra of external-process pipelines: single commands joined
//! with shell-like operators, evaluated without a shell.
//!
//! The library holds the command tree and every decision of its evaluation.
//! Spawning a process is the caller's part: [`Run`] says which process to
//! start next, the caller starts it and records its [`Output`], until the
//! run says which output is the tree's result.
pub mod output;
pub mod tree;
pub mod eval;
pub mod laws;

pub use eval::{Request, Run, Step};
pub use output::{Output, OutputView};
pub use tree::{
    And, ClearEnv, Command, Dir, Env, ExceptEnv, ExceptEnvs, Input, Node, Or, Pipe, Single, Then,
    Tree,
};
