//! The sections of the configuration and their default values.

use vstd::prelude::*;
use vstd::string::*;

verus! {

#[derive(Debug, Clone)]
pub struct GeneralConfig {
    pub shell: String,
    pub working_directory: String,
    pub confirm_close_process: bool,
    pub new_workspace_placement: String,
}

#[derive(Debug, Clone)]
pub struct ThemeRef {
    pub name: String,
}

#[derive(Debug, Clone)]
pub struct ScrollbackConfig {
    pub lines: usize,
    pub multiplier: u32,
}

#[derive(Debug, Clone)]
pub struct CursorConfig {
    pub style: String,
    pub blink: bool,
    pub blink_interval_ms: u64,
}

#[derive(Debug, Clone)]
pub struct SidebarConfig {
    pub width: u32,
    pub show_git_branch: bool,
    pub show_cwd: bool,
    pub show_ports: bool,
    pub show_notification_badge: bool,
}

#[derive(Debug, Clone)]
pub struct NotificationConfig {
    pub enabled: bool,
    pub detect_bell: bool,
    pub detect_osc: bool,
}

#[derive(Debug, Clone)]
pub struct TmuxConfig {
    pub detect: bool,
    pub passthrough_hint: bool,
    pub prefer_socket_notify: bool,
}

impl Default for GeneralConfig {
    fn default() -> (c: Self)
        ensures
            c.shell@.len() == 0,
            c.working_directory@.len() == 0,
            c.confirm_close_process,
            c.new_workspace_placement@ == "after-current"@,
    {
        GeneralConfig {
            shell: String::new(),
            working_directory: String::new(),
            confirm_close_process: true,
            new_workspace_placement: String::from_str("after-current"),
        }
    }
}

impl Default for ThemeRef {
    fn default() -> (c: Self)
        ensures
            c.name@ == "default-dark"@,
    {
        ThemeRef { name: String::from_str("default-dark") }
    }
}

impl Default for ScrollbackConfig {
    fn default() -> (c: Self)
        ensures
            c.lines == 10_000,
            c.multiplier == 3,
    {
        ScrollbackConfig { lines: 10_000, multiplier: 3 }
    }
}

impl Default for CursorConfig {
    fn default() -> (c: Self)
        ensures
            c.style@ == "block"@,
            c.blink,
            c.blink_interval_ms == 530,
    {
        CursorConfig { style: String::from_str("block"), blink: true, blink_interval_ms: 530 }
    }
}

impl Default for SidebarConfig {
    fn default() -> (c: Self)
        ensures
            c.width == 220,
            c.show_git_branch,
            c.show_cwd,
            c.show_ports,
            c.show_notification_badge,
    {
        SidebarConfig {
            width: 220,
            show_git_branch: true,
            show_cwd: true,
            show_ports: true,
            show_notification_badge: true,
        }
    }
}

impl Default for NotificationConfig {
    fn default() -> (c: Self)
        ensures
            c.enabled,
            c.detect_bell,
            c.detect_osc,
    {
        NotificationConfig { enabled: true, detect_bell: true, detect_osc: true }
    }
}

impl Default for TmuxConfig {
    fn default() -> (c: Self)
        ensures
            c.detect,
            c.passthrough_hint,
            c.prefer_socket_notify,
    {
        TmuxConfig { detect: true, passthrough_hint: true, prefer_socket_notify: true }
    }
}

} // verus!
