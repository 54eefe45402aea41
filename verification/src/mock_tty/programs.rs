//! The built-in mock programs.

pub mod echo_shell;
pub mod raw_sink;
pub mod replay;
pub mod vim_lite;
