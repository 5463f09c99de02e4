use dungeon_crawler_world::settings::{
    fog_label, fps_cap_label, lighting_label, power_label, vsync_label, LogVerbosity,
    PowerPreference, Settings, SettingsResult, VsyncMode,
};

#[test]
fn default_settings_values() {
    let s = Settings::default_inner();
    assert_eq!(s.fog, 2);
    assert_eq!(s.lighting, 3);
    assert!(s.sound);
    assert!(!s.developer_mode);
    assert!(!s.verbose_logging);
    assert!(!s.show_console);
    assert!(!s.show_fps_graph);
    assert!(!s.log_to_console);
    assert_eq!(s.log_verbosity, LogVerbosity::Info);
    assert!(!s.fullscreen);
    assert_eq!(s.console_max_lines, 300);
    assert!(s.show_save_creation_date);
    assert_eq!(s.target_fps, 0);
    assert_eq!(s.vsync_mode, VsyncMode::On);
    assert!(!s.show_fps_counter);
    assert_eq!(s.power_preference, PowerPreference::Default);
}

#[test]
fn enum_defaults() {
    assert_eq!(VsyncMode::default(), VsyncMode::On);
    assert_eq!(PowerPreference::default(), PowerPreference::Default);
    assert_eq!(LogVerbosity::default(), LogVerbosity::Info);
    let r = SettingsResult::default();
    assert!(!r.request_save && !r.request_back);
}

#[test]
fn labels_shown_on_the_settings_screen() {
    assert_eq!(fog_label(0), "No fog");
    assert_eq!(fog_label(3), "Fancy fog");
    assert_eq!(fog_label(4), "Unknown");
    assert_eq!(fog_label(-1), "Unknown");
    assert_eq!(lighting_label(5), "Highest quality");
    assert_eq!(lighting_label(1), "Non-shader lighting");
    assert_eq!(lighting_label(6), "Unknown");
    assert_eq!(vsync_label(VsyncMode::Adaptive), "Adaptive");
    assert_eq!(power_label(PowerPreference::LowPower), "Low power");
    assert_eq!(power_label(PowerPreference::HighPerformance), "High performance");
    assert_eq!(fps_cap_label(0), "Unlimited");
    assert_eq!(fps_cap_label(144), "144 FPS");
    assert_eq!(fps_cap_label(u32::MAX), "4294967295 FPS");
}
