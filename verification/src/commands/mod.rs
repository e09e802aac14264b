//! The commands of the command-line tool: their options, results and the
//! computations behind them.

pub mod archive;
pub mod ci;
pub mod batch;
pub mod audit;
pub mod compress;
pub mod coverage;
pub mod dashboard;
pub mod deps;
pub mod deps_cycles;
pub mod diff;
pub mod export;
pub mod fix;
pub mod gen;
pub mod help;
pub mod migrate;
pub mod init;
pub mod links;
pub mod lint;
pub mod lint_rules;
pub mod lint_laws;
pub mod module;
pub mod readme;
pub mod report;
pub mod restore;
pub mod search;
pub mod snapshot;
pub mod stats;
pub mod sync;
pub mod template;
pub mod trace;
pub mod tree;
pub mod verify;
pub mod watch;
