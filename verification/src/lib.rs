//! Rendering core of a multi-pane terminal: colours, the pane split tree and
//! its layout, workspaces, the viewport grid with damage-driven extraction,
//! run-length background spans, per-row rich text, the frame that brings
//! them together, and a bounded ring queue; beside it the plugin protocol
//! and the small helpers of the window.

pub mod color;
pub mod config;
pub mod emulator;
pub mod event;
pub mod frame;
pub mod git_info;
pub mod grid;
pub mod input;
pub mod ipc;
pub mod notification;
pub mod payload;
pub mod plugin_api;
pub mod plugin_host;
pub mod port_scanner;
pub mod registry;
pub mod render;
pub mod sdk;
pub mod selection;
pub mod shaper;
pub mod spans;
pub mod split;
pub mod spsc;
pub mod text;
pub mod workspace;
