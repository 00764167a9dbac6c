//! Verified building blocks of a small systems toolkit: a reverse-proxy load
//! balancer core, a debugger front end, and a handful of list and number
//! utilities.

pub mod admission;
pub mod config;
pub mod debugger;
pub mod debugger_command;
pub mod farm;
pub mod health;
pub mod inferior;
pub mod pattern;
pub mod random;
pub mod seqs;
pub mod session;
pub mod upstream;
pub mod warmup;
