//! Kernel of a scientific-workflow orchestrator: workflow expansion, slot
//! propagation, use-case task compilation and file-move coordination.

pub mod ids;
pub mod model;
pub mod error;
pub mod seqs;
pub mod graph;
pub mod expand;
pub mod slots;
pub mod package;
pub mod task;
pub mod format;
pub mod content;
pub mod compile;
pub mod validate;
pub mod mover;
pub mod dispatch;
