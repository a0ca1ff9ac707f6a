//! View-model of a debugger panel: pure projections from the state of debug
//! sessions to the rows that a presentation layer draws.
//!
//! The panel has four views, and this crate has one projection for each:
//!
//! - [`process`]: the run and debug processes, with the state and the
//!   buttons of each;
//! - [`variables`]: the tree of scopes and variables, flattened to the rows
//!   that are in sight, with children fetched on demand;
//! - [`stack`]: the threads, the main thread first, with the frames of each
//!   and the place in the source that a frame leads to;
//! - [`breakpoints`]: the breakpoints by file and line, in one fixed order.
//!
//! [`session`] holds the rule that hides the data of a session while its
//! debuggee runs, and [`panel`] owns the whole state and answers clicks.
//! Nothing here draws or sends anything: rows and commands are plain values.
//!
//! Every function is verified against a contract over a mathematical model
//! of its data, and the laws that relate several functions are proved in
//! [`variable_laws`] and beside the functions they are about.

pub mod ids;
pub mod text_order;
pub mod paths;
pub mod seq_facts;
pub mod navigation;
pub mod breakpoints;
pub mod process;
pub mod frames;
pub mod stack;
pub mod variables;
pub mod variable_laws;
pub mod session;
pub mod panel;
