//! Static configuration records.

use vstd::prelude::*;

verus! {

/// Window settings.
#[derive(Debug, Clone, PartialEq, Eq, Structural)]
pub struct WindowConfig {
    pub width: u32,
    pub height: u32,
    pub fullscreen: bool,
    pub vsync: bool,
    pub fps_limit: u32,
}

impl Default for WindowConfig {
    /// A windowed 1280 by 720 surface with vertical sync.
    fn default() -> (c: WindowConfig)
        ensures
            c == (WindowConfig {
                width: 1280,
                height: 720,
                fullscreen: false,
                vsync: true,
                fps_limit: 0,
            }),
    {
        WindowConfig { width: 1280, height: 720, fullscreen: false, vsync: true, fps_limit: 0 }
    }
}

/// Where the application keeps its files.
#[derive(Debug, Clone)]
pub struct PathConfig {
    pub mods_dir: String,
    pub assets_dir: String,
    pub config_dir: String,
    pub logs_dir: String,
}

impl Default for PathConfig {
    /// The conventional directory names.
    fn default() -> (c: PathConfig)
        ensures
            c.mods_dir@ == "mods"@,
            c.assets_dir@ == "assets"@,
            c.config_dir@ == "config"@,
            c.logs_dir@ == "logs"@,
    {
        PathConfig {
            mods_dir: String::from_str("mods"),
            assets_dir: String::from_str("assets"),
            config_dir: String::from_str("config"),
            logs_dir: String::from_str("logs"),
        }
    }
}

/// Diagnostic switches.
#[derive(Debug, Clone)]
pub struct DebugConfig {
    pub show_fps: bool,
    pub show_debug_info: bool,
    pub log_level: String,
}

impl Default for DebugConfig {
    /// Quiet, at the `info` level.
    fn default() -> (c: DebugConfig)
        ensures
            !c.show_fps,
            !c.show_debug_info,
            c.log_level@ == "info"@,
    {
        DebugConfig { show_fps: false, show_debug_info: false, log_level: String::from_str("info") }
    }
}

} // verus!
