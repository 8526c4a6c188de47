//! Core logic of an online-judge backend: checker-output parsing, message
//! limiting, workflow validation and scheduling, and subtask score
//! aggregation, all with machine-checked contracts.

pub mod builtin;
pub mod checker;
pub mod data;
pub mod encoding;
pub mod engine;
pub mod etc;
pub mod file;
pub mod generator;
pub mod judge;
pub mod lang;
pub mod problem;
pub mod program;
pub mod record;
pub mod sandbox;
pub mod score;
pub mod status;
pub mod testlib;
pub mod text;
pub mod validator;
pub mod workflow;
