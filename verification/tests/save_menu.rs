use dungeon_crawler_world::new_save::Difficulty;
use dungeon_crawler_world::save_menu::{save_menu_step, SaveMenuAction, SaveMenuEvent, SaveMenuState};

fn is_nothing(a: &SaveMenuAction) -> bool {
    matches!(a, SaveMenuAction::Nothing)
}

#[test]
fn edit_rename_and_delete() {
    let mut state = SaveMenuState::new();
    assert!(is_nothing(&save_menu_step(&mut state, SaveMenuEvent::ListingLoaded)));
    assert!(state.cache_loaded);
    let edit = SaveMenuEvent::Edit { folder_name: "Run_1".to_string(), save_name: "Run 1".to_string() };
    assert!(is_nothing(&save_menu_step(&mut state, edit)));
    assert_eq!(state.editing_save, Some("Run_1".to_string()));
    assert_eq!(state.edit_save_name, "Run 1");

    // The unchanged name renames nothing.
    assert!(is_nothing(&save_menu_step(&mut state, SaveMenuEvent::Rename)));
    state.edit_save_name = "  New Name ".to_string();
    match save_menu_step(&mut state, SaveMenuEvent::Rename) {
        SaveMenuAction::RenameFolder { from, to } => {
            assert_eq!(from, "Run_1");
            assert_eq!(to, "New_Name");
        }
        _ => panic!("expected a rename"),
    }
    save_menu_step(&mut state, SaveMenuEvent::Renamed { new_folder: "New_Name".to_string() });
    assert_eq!(state.editing_save, Some("New_Name".to_string()));
    assert!(!state.cache_loaded);

    save_menu_step(&mut state, SaveMenuEvent::RequestDelete);
    assert!(state.confirm_delete);
    assert_eq!(state.delete_target, Some("New_Name".to_string()));
    save_menu_step(&mut state, SaveMenuEvent::CancelDelete);
    assert!(!state.confirm_delete);
    assert_eq!(state.delete_target, None);
    assert_eq!(state.editing_save, Some("New_Name".to_string()));

    save_menu_step(&mut state, SaveMenuEvent::RequestDelete);
    match save_menu_step(&mut state, SaveMenuEvent::ConfirmDelete) {
        SaveMenuAction::DeleteFolder(folder) => assert_eq!(folder, "New_Name"),
        _ => panic!("expected a delete"),
    }
    assert_eq!(state.editing_save, None);
    assert!(!state.confirm_delete);
}

#[test]
fn new_save_dialog_and_back() {
    let mut state = SaveMenuState::new();
    state.new_save_state.save_name = "Draft".to_string();
    state.new_save_state.selected_difficulty = Difficulty::Hard;
    save_menu_step(&mut state, SaveMenuEvent::CreateNewSave);
    assert!(state.in_new_save_menu);
    assert_eq!(state.new_save_state.save_name, "");
    assert_eq!(state.new_save_state.selected_difficulty, Difficulty::Medium);
    save_menu_step(&mut state, SaveMenuEvent::NewSaveClosed);
    assert!(!state.in_new_save_menu);
    save_menu_step(&mut state, SaveMenuEvent::EditDone);
    save_menu_step(&mut state, SaveMenuEvent::Back);
    assert!(state.back_requested);
    assert_eq!(state.editing_save, None);
    assert!(is_nothing(&save_menu_step(&mut state, SaveMenuEvent::ConfirmDelete)));
}
