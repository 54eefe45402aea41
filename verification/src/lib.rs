//! Terminal core logic: shell-integration frame parsing, command blocks,
//! grid snapshots, colour resolution and the mock TTY programs.

pub mod block_grid;
pub mod blocks;
pub mod bytes;
pub mod dcs;
pub mod frames;
pub mod glyphs;
pub mod icons;
pub mod mock_tty;
pub mod osc133;
pub mod palette;
pub mod persistence_types;
pub mod presets;
pub mod record_cli;
pub mod routing;
pub mod render_cli;
pub mod session;
pub mod snapshot;
pub mod text;
pub mod text_input;
pub mod toaster;
