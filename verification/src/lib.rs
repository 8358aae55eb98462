//! Client-side logic of the ciritty terminal multiplexer.

pub mod text;
pub mod remote_validate;
pub mod hit_ids;
pub mod cli;
pub mod launch;
pub mod config_gen;
pub mod labels;
pub mod disconnect;
pub mod frame;
pub mod grid;
pub mod grid_query;
pub mod tokens;
pub mod truncate;
pub mod keymap;
pub mod control_reply;
pub mod tunnel;
pub mod web_setup;
pub mod usage;
pub mod workspace_nav;
pub mod local_connect;
