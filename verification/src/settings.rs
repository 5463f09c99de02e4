//! The game's settings, their starting values, and the names the settings
//! screen shows for them.
use vstd::prelude::*;
use crate::text::{decimal, owned, push_text, unsigned_text};

verus! {

/// How frames are synchronised with the display.
#[derive(Debug, Clone, Copy, PartialEq, Eq, Structural)]
pub enum VsyncMode {
    /// Frames are presented as fast as possible; tearing may show.
    Off,
    /// Frames follow the display's refresh rate.
    On,
    /// Frames follow the display while they keep up, and tear rather than
    /// stutter when they fall behind.
    Adaptive,
}

impl Default for VsyncMode {
    fn default() -> (r: Self)
        ensures
            r == VsyncMode::On,
    {
        VsyncMode::On
    }
}

/// Which graphics adapter to prefer.
#[derive(Debug, Clone, Copy, PartialEq, Eq, Structural)]
pub enum PowerPreference {
    /// Left to the driver.
    Default,
    /// The integrated, low-power adapter.
    LowPower,
    /// The discrete, high-performance adapter.
    HighPerformance,
}

impl Default for PowerPreference {
    fn default() -> (r: Self)
        ensures
            r == PowerPreference::Default,
    {
        PowerPreference::Default
    }
}

/// The least severe log level that is still recorded.
#[derive(Debug, Clone, Copy, PartialEq, Eq, Structural)]
pub enum LogVerbosity {
    Error,
    Warn,
    Info,
    Debug,
    Trace,
}

impl Default for LogVerbosity {
    fn default() -> (r: Self)
        ensures
            r == LogVerbosity::Info,
    {
        LogVerbosity::Info
    }
}

/// Every setting of the game.
#[derive(Debug, Clone, Copy, PartialEq, Eq, Structural)]
pub struct Settings {
    pub fog: i8,
    pub lighting: i8,
    pub sound: bool,
    pub developer_mode: bool,
    pub verbose_logging: bool,
    pub show_console: bool,
    pub show_fps_graph: bool,
    pub log_to_console: bool,
    pub log_verbosity: LogVerbosity,
    pub fullscreen: bool,
    pub console_max_lines: usize,
    /// Show each save's creation date in the saves menu.
    pub show_save_creation_date: bool,
    /// Frame rate cap; 0 means no cap.
    pub target_fps: u32,
    pub vsync_mode: VsyncMode,
    /// Show a frame-rate counter to every player.
    pub show_fps_counter: bool,
    /// Takes effect at the next start.
    pub power_preference: PowerPreference,
}

/// The settings a new installation starts with.
pub open spec fn default_settings() -> Settings {
    Settings {
        fog: 2,
        lighting: 3,
        sound: true,
        developer_mode: false,
        verbose_logging: false,
        show_console: false,
        show_fps_graph: false,
        log_to_console: false,
        log_verbosity: LogVerbosity::Info,
        fullscreen: false,
        console_max_lines: 300,
        show_save_creation_date: true,
        target_fps: 0,
        vsync_mode: VsyncMode::On,
        show_fps_counter: false,
        power_preference: PowerPreference::Default,
    }
}

impl Settings {
    /// The settings used when none are stored or the stored ones cannot be
    /// read.
    pub fn default_inner() -> (r: Self)
        ensures
            r == default_settings(),
    {
        Settings {
            fog: 2,
            lighting: 3,
            sound: true,
            developer_mode: false,
            verbose_logging: false,
            show_console: false,
            show_fps_graph: false,
            fullscreen: false,
            log_to_console: false,
            log_verbosity: LogVerbosity::Info,
            console_max_lines: 300,
            show_save_creation_date: true,
            target_fps: 0,
            vsync_mode: VsyncMode::On,
            show_fps_counter: false,
            power_preference: PowerPreference::Default,
        }
    }
}

/// What the settings screen asks of its caller after a frame.
pub struct SettingsResult {
    pub request_save: bool,
    pub request_back: bool,
}

impl Default for SettingsResult {
    /// Nothing requested.
    fn default() -> (r: Self)
        ensures
            !r.request_save,
            !r.request_back,
    {
        SettingsResult { request_save: false, request_back: false }
    }
}

/// The name shown for a fog level.
pub open spec fn fog_label_spec(fog: i8) -> Seq<char> {
    if fog == 0 {
        "No fog"@
    } else if fog == 1 {
        "Fast fog"@
    } else if fog == 2 {
        "Default fog"@
    } else if fog == 3 {
        "Fancy fog"@
    } else {
        "Unknown"@
    }
}

/// The name shown for a fog level.
pub fn fog_label(fog: i8) -> (r: String)
    ensures
        r@ == fog_label_spec(fog),
{
    match fog {
        0 => owned("No fog"),
        1 => owned("Fast fog"),
        2 => owned("Default fog"),
        3 => owned("Fancy fog"),
        _ => owned("Unknown"),
    }
}

/// The name shown for a lighting level.
pub open spec fn lighting_label_spec(lighting: i8) -> Seq<char> {
    if lighting == 0 {
        "No dynamic lighting"@
    } else if lighting == 1 {
        "Non-shader lighting"@
    } else if lighting == 2 {
        "Simple shader lighting"@
    } else if lighting == 3 {
        "Normal shader lighting"@
    } else if lighting == 4 {
        "Fancy shader lighting"@
    } else if lighting == 5 {
        "Highest quality"@
    } else {
        "Unknown"@
    }
}

/// The name shown for a lighting level.
pub fn lighting_label(lighting: i8) -> (r: String)
    ensures
        r@ == lighting_label_spec(lighting),
{
    match lighting {
        0 => owned("No dynamic lighting"),
        1 => owned("Non-shader lighting"),
        2 => owned("Simple shader lighting"),
        3 => owned("Normal shader lighting"),
        4 => owned("Fancy shader lighting"),
        5 => owned("Highest quality"),
        _ => owned("Unknown"),
    }
}

/// The name shown for a synchronisation mode.
pub open spec fn vsync_label_spec(mode: VsyncMode) -> Seq<char> {
    match mode {
        VsyncMode::Off => "Off"@,
        VsyncMode::On => "On"@,
        VsyncMode::Adaptive => "Adaptive"@,
    }
}

/// The name shown for a synchronisation mode.
pub fn vsync_label(mode: VsyncMode) -> (r: String)
    ensures
        r@ == vsync_label_spec(mode),
{
    match mode {
        VsyncMode::Off => owned("Off"),
        VsyncMode::On => owned("On"),
        VsyncMode::Adaptive => owned("Adaptive"),
    }
}

/// The name shown for an adapter preference.
pub open spec fn power_label_spec(preference: PowerPreference) -> Seq<char> {
    match preference {
        PowerPreference::Default => "Default"@,
        PowerPreference::LowPower => "Low power"@,
        PowerPreference::HighPerformance => "High performance"@,
    }
}

/// The name shown for an adapter preference.
pub fn power_label(preference: PowerPreference) -> (r: String)
    ensures
        r@ == power_label_spec(preference),
{
    match preference {
        PowerPreference::Default => owned("Default"),
        PowerPreference::LowPower => owned("Low power"),
        PowerPreference::HighPerformance => owned("High performance"),
    }
}

/// The text shown for a frame-rate cap: `Unlimited` for 0, else the number
/// followed by ` FPS`.
pub open spec fn fps_cap_label_spec(target_fps: u32) -> Seq<char> {
    if target_fps == 0 {
        "Unlimited"@
    } else {
        decimal(target_fps as nat) + " FPS"@
    }
}

/// The text shown for a frame-rate cap.
pub fn fps_cap_label(target_fps: u32) -> (r: String)
    ensures
        r@ == fps_cap_label_spec(target_fps),
{
    if target_fps == 0 {
        owned("Unlimited")
    } else {
        let mut s = unsigned_text(target_fps as u64);
        push_text(&mut s, " FPS");
        s
    }
}

} // verus!
