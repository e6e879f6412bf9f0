//! Verified core of a PCB design toolchain: circuit graphs, KiCad symbol
//! parsing, bill-of-materials rules and load-path resolution.
pub mod graph;
pub mod seqs;
pub mod strmap;
pub mod text;
pub mod eda;
pub mod sch;
pub mod lang;
pub mod resolve;
pub mod config;
pub mod bundle;
pub mod provider;
pub mod sim;
