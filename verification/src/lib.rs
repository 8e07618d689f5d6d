//! Verified core of a debugger front end and a GPU profile explorer.

pub mod advice;
pub mod arguments;
pub mod breakpoints;
pub mod chains;
pub mod check;
pub mod chrome_trace;
pub mod collect;
pub mod command_laws;
pub mod course;
pub mod dap_frame;
pub mod date;
pub mod date_laws;
pub mod db;
pub mod db_laws;
pub mod debug_command;
pub mod deps;
pub mod graph;
pub mod groups;
pub mod hotspot;
pub mod import;
pub mod intervals;
pub mod json;
pub mod kernel;
pub mod launch;
pub mod memory;
pub mod ncu;
pub mod nsys;
pub mod number;
pub mod order;
pub mod process;
pub mod regressions;
pub mod repl;
pub mod sequences;
pub mod session;
pub mod text;
pub mod timing;
pub mod transfers;
