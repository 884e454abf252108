//! Verified core of the NovaWM compositor: layout geometry (scroll strip,
//! stacked rows, dwindle tree, output placement), the border ring, per-window
//! bookkeeping and focus and workspace decisions, keybinding resolution,
//! configuration documents, and the control socket's protocol.

pub mod geometry;
pub mod layout;
pub mod dwindle;
pub mod text;
pub mod border;
pub mod ring;
pub mod resize;
pub mod keybind;
pub mod input;
pub mod workspace;
pub mod book;
pub mod modes;
pub mod focus;
pub mod overview;
pub mod record;
pub mod ipc;
pub mod listing;
pub mod outputs;
pub mod screenshot;
pub mod rules;
pub mod session;
pub mod kdl_doc;
pub mod config;
pub mod reload;
