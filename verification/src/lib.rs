//! Verified core of the Heim-AI desktop shell: the decisions and data
//! structures behind the tray shell, its popups, hotkeys, screenshots and
//! wake-word pipeline.

pub mod commands;
pub mod handle;
pub mod hotkeys;
pub mod popups;
pub mod remote;
pub mod screenshot;
pub mod settings;
pub mod text;
pub mod urls;
pub mod windows;
pub mod wakeword;
