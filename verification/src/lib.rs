//! Debugging and watching embedded firmware.
//!
//! The library holds what the tool decides and computes: the configuration, the
//! choice of probe and chip, variables and code in firmware images, memory
//! dumps, watch groups and plots, the lines that feed their windows, the
//! debugging prompt with its breakpoints and steps, and the progress of writing
//! firmware. The program around it talks to probes, files, terminals and
//! windows.
pub mod backtrace;
pub mod breakpoints;
pub mod calendar;
pub mod code_map;
pub mod command;
pub mod config;
pub mod csv;
pub mod curve;
pub mod double;
pub mod dump_watch;
pub mod dwarf;
pub mod feed;
pub mod flash;
pub mod hexdump;
pub mod layout;
pub mod likeness;
pub mod link;
pub mod listing;
pub mod member_path;
pub mod number;
pub mod plot;
pub mod plot_app;
pub mod plot_feed;
pub mod render;
pub mod sampling;
pub mod session;
pub mod source;
pub mod stepping;
pub mod symbol;
pub mod table;
pub mod target;
pub mod text;
pub mod type_info;
pub mod units;
pub mod variable;
pub mod watch;
pub mod watch_app;
pub mod watch_feed;
