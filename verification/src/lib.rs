//! A version manager for CMake: the records it keeps, the rules by which a
//! version is installed, selected and removed, and the steps each command
//! asks of the machine.

pub mod text;
pub mod utils;
pub mod install;
pub mod releases;
pub mod state;
pub mod switch;
pub mod remove;
pub mod setup;
pub mod list;
pub mod command;
pub mod install_or_switch;
pub mod root;
