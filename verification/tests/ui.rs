use dungeon_crawler_world::input::GameCommand;
use dungeon_crawler_world::ui::{KeybindsUiState, StatUpgradeVisibility};

#[test]
fn keybind_capture_waits_then_clears() {
    let mut state = KeybindsUiState::default();
    assert_eq!(state.waiting_for_key(), None);
    state.begin_capture(GameCommand::Inventory);
    assert_eq!(state.waiting_for_key(), Some(GameCommand::Inventory));
    state.begin_capture(GameCommand::Stats);
    assert_eq!(state.waiting_for_key(), Some(GameCommand::Stats));
    state.clear_capture();
    assert_eq!(state.waiting_for_key(), None);
}

#[test]
fn no_upgrade_buttons_by_default() {
    let v = StatUpgradeVisibility::default();
    assert!(!(v.strength || v.intelligence || v.dexterity || v.charisma || v.constitution));
}

use dungeon_crawler_world::preview::{known_names, preview_kind, PreviewKind};
use dungeon_crawler_world::ui::{menu_step, MenuEvent, MenuState, MenuStep};

#[test]
fn preview_names_are_trimmed_and_lowercased() {
    assert_eq!(preview_kind("  Skills "), Ok(PreviewKind::Skills));
    assert_eq!(preview_kind("FPS_GRAPH"), Ok(PreviewKind::FpsGraph));
    assert_eq!(preview_kind("new_save"), Ok(PreviewKind::NewSave));
    assert_eq!(
        preview_kind(" Map "),
        Err("Unknown UI 'map'. Known: skills, new_save, saves, settings, console, fps_graph, quit"
            .to_string())
    );
    assert_eq!(
        known_names(),
        vec!["skills", "new_save", "saves", "settings", "console", "fps_graph", "quit"]
    );
}

fn step(state: MenuState, quit_confirm: bool, event: MenuEvent) -> MenuStep {
    menu_step(state, quit_confirm, event)
}

#[test]
fn menu_screens_follow_their_buttons() {
    assert_eq!(step(MenuState::Main, false, MenuEvent::OpenSaves).state, MenuState::Saves);
    assert_eq!(step(MenuState::Main, false, MenuEvent::OpenSettings).state, MenuState::Settings);
    assert_eq!(step(MenuState::Saves, false, MenuEvent::EnterGame).state, MenuState::Game);
    assert_eq!(step(MenuState::Game, false, MenuEvent::Escape).state, MenuState::Main);
    assert_eq!(step(MenuState::Game, false, MenuEvent::GameLost).state, MenuState::Main);
    assert_eq!(step(MenuState::Settings, false, MenuEvent::OpenSaves).state, MenuState::Settings);
    let saved = step(MenuState::Settings, false, MenuEvent::SaveSettings);
    assert_eq!(saved.state, MenuState::Main);
    assert!(saved.save_settings);
    assert!(!step(MenuState::Settings, false, MenuEvent::Back).save_settings);
}

#[test]
fn quitting_needs_confirmation() {
    let asked = step(MenuState::Main, false, MenuEvent::AskQuit);
    assert!(asked.quit_confirm && !asked.quit);
    let yes = step(MenuState::Main, true, MenuEvent::ConfirmQuit);
    assert!(yes.quit && !yes.quit_confirm);
    let no = step(MenuState::Main, true, MenuEvent::CancelQuit);
    assert!(!no.quit && !no.quit_confirm);
    assert!(!step(MenuState::Main, false, MenuEvent::ConfirmQuit).quit);
}

use dungeon_crawler_world::input::KeyBindings;
use dungeon_crawler_world::ui::apply_captured_key;

fn defaults() -> KeyBindings {
    KeyBindings::new(egui::Key::H, egui::Key::E, egui::Key::C)
}

#[test]
fn key_bindings_get_and_set() {
    let mut keys = defaults();
    assert_eq!(keys.key_for(GameCommand::Skills), egui::Key::H);
    assert_eq!(keys.key_for(GameCommand::Inventory), egui::Key::E);
    assert_eq!(keys.key_for(GameCommand::Stats), egui::Key::C);
    keys.set_key(GameCommand::Inventory, egui::Key::I);
    assert_eq!(keys.key_for(GameCommand::Inventory), egui::Key::I);
    assert_eq!(keys.key_for(GameCommand::Skills), egui::Key::H);
}

#[test]
fn captured_key_binds_the_waiting_command() {
    let mut keys = defaults();
    let mut state = KeybindsUiState::default();
    apply_captured_key(&mut keys, &mut state, Some(egui::Key::Q));
    assert_eq!(keys.key_for(GameCommand::Skills), egui::Key::H);
    state.begin_capture(GameCommand::Skills);
    apply_captured_key(&mut keys, &mut state, None);
    assert_eq!(state.waiting_for_key(), Some(GameCommand::Skills));
    apply_captured_key(&mut keys, &mut state, Some(egui::Key::K));
    assert_eq!(keys.key_for(GameCommand::Skills), egui::Key::K);
    assert_eq!(state.waiting_for_key(), None);
}

use dungeon_crawler_world::ui::{GamePanel, GamePanels, GameViewAction, PauseMenuAction};

#[test]
fn pause_menu_choices() {
    let mut panels = GamePanels::new();
    assert_eq!(panels.active_panel, GamePanel::Closed);
    let out = panels.apply_pause_action(PauseMenuAction::OpenSkills);
    assert!(!out.resume);
    assert_eq!(out.action, GameViewAction::Continue);
    assert_eq!(panels.active_panel, GamePanel::Skills);
    panels.keybinds.begin_capture(GameCommand::Stats);
    let out = panels.apply_pause_action(PauseMenuAction::Resume);
    assert!(out.resume);
    assert_eq!(panels.active_panel, GamePanel::Skills);
    assert_eq!(panels.keybinds.waiting_for_key(), Some(GameCommand::Stats));
    let out = panels.apply_pause_action(PauseMenuAction::ExitToMenu);
    assert_eq!(out.action, GameViewAction::ExitToMenu);
    assert_eq!(panels.active_panel, GamePanel::Closed);
    assert_eq!(panels.keybinds.waiting_for_key(), None);
    let out = panels.apply_pause_action(PauseMenuAction::Idle);
    assert!(!out.resume);
    assert_eq!(out.action, GameViewAction::Continue);
}

use dungeon_crawler_world::grid::restroom_distance;

#[test]
fn restroom_distance_is_within_bounds() {
    for _ in 0..100 {
        let d = restroom_distance();
        assert!((300..=500).contains(&d));
    }
}
