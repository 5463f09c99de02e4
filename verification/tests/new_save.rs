use dungeon_crawler_world::new_save::{
    gamerules, generate_stats, has_invalid_save_characters, is_safe_folder_name,
    validate_save_name, Difficulty, NewSaveState, NewSaveTab, SaveNameError,
};

#[test]
fn rejects_relative_paths_in_save_name() {
    assert!(!is_safe_folder_name("."));
    assert!(!is_safe_folder_name(".."));
    assert!(!is_safe_folder_name("../foo"));
    assert!(!is_safe_folder_name("foo/../bar"));
}

#[test]
fn accepts_simple_folder_names() {
    assert!(is_safe_folder_name("Test_Save"));
    assert!(is_safe_folder_name("save1"));
}

#[test]
fn rejects_invalid_characters() {
    assert!(has_invalid_save_characters("bad/name"));
    assert!(has_invalid_save_characters("bad:name"));
    assert!(has_invalid_save_characters("bad*name"));
    assert!(!has_invalid_save_characters("Good_Name"));
}

#[test]
fn safe_folder_name_edge_cases() {
    assert!(!is_safe_folder_name(""));
    assert!(!is_safe_folder_name("/abs"));
    assert!(!is_safe_folder_name("./x"));
    assert!(!is_safe_folder_name("a/.."));
    assert!(is_safe_folder_name("a/./b"));
    assert!(is_safe_folder_name("..a"));
    assert!(is_safe_folder_name("a.."));
    assert!(is_safe_folder_name("..."));
}

#[test]
fn every_forbidden_character_is_refused() {
    for c in ['/', '\\', ':', '*', '?', '"', '<', '>', '|'] {
        assert!(has_invalid_save_characters(&format!("a{}b", c)));
    }
    assert!(!has_invalid_save_characters(""));
    assert!(!has_invalid_save_characters("My Save-01.v2"));
}

#[test]
fn save_name_becomes_its_folder() {
    let folder = validate_save_name("  My First Save  ").unwrap();
    assert_eq!(folder, "My_First_Save");
}

#[test]
fn blank_save_name_is_refused() {
    assert_eq!(validate_save_name("   "), Err(SaveNameError::Empty));
    assert_eq!(validate_save_name(""), Err(SaveNameError::Empty));
    assert_eq!(
        SaveNameError::Empty.message(),
        "Save name cannot be empty"
    );
}

#[test]
fn save_name_with_forbidden_character_is_refused() {
    assert_eq!(
        validate_save_name("bad:name"),
        Err(SaveNameError::InvalidCharacters)
    );
    assert_eq!(
        SaveNameError::InvalidCharacters.message(),
        "Save name contains invalid characters"
    );
}

#[test]
fn save_name_that_climbs_out_is_refused() {
    assert_eq!(validate_save_name(".."), Err(SaveNameError::RelativePath));
    assert_eq!(validate_save_name(" . "), Err(SaveNameError::RelativePath));
    assert_eq!(
        SaveNameError::RelativePath.message(),
        "Save name must not reference relative paths"
    );
}

#[test]
fn gamerules_follow_the_switches() {
    assert!(gamerules(false, false).is_empty());
    assert_eq!(gamerules(true, false), vec!["Online".to_string()]);
    assert_eq!(gamerules(false, true), vec!["Real-time".to_string()]);
    assert_eq!(
        gamerules(true, true),
        vec!["Online".to_string(), "Real-time".to_string()]
    );
}

#[test]
fn difficulty_labels() {
    assert_eq!(Difficulty::Easy.label(), "Easy");
    assert_eq!(Difficulty::Medium.label(), "Medium");
    assert_eq!(Difficulty::Hard.label(), "Hard");
}

#[test]
fn reset_restores_the_starting_state() {
    let mut state = NewSaveState::default();
    state.show_new_save = true;
    state.save_name = "Draft".to_string();
    state.selected_difficulty = Difficulty::Hard;
    state.selected_tab = NewSaveTab::Gamerules;
    state.online_mode = true;
    state.real_time = true;
    state.error_message = "oops".to_string();
    state.success_message = "yay".to_string();
    state.reset();
    let fresh = NewSaveState::default();
    assert!(!state.show_new_save);
    assert_eq!(state.save_name, fresh.save_name);
    assert_eq!(state.selected_difficulty, Difficulty::Medium);
    assert_eq!(state.selected_tab, NewSaveTab::Basics);
    assert!(!state.online_mode);
    assert!(!state.real_time);
    assert!(state.error_message.is_empty());
    assert!(state.success_message.is_empty());
}

#[test]
fn generated_stats_stay_in_their_ranges() {
    let mut rng = rand::thread_rng();
    for _ in 0..200 {
        let (w, s, b, st, int, dex, cha, con) = generate_stats(&mut rng);
        assert!((3..=5).contains(&w));
        assert!((3..=5).contains(&s));
        assert!((3..=5).contains(&b));
        assert!((1..=8).contains(&st));
        assert!((3..=5).contains(&int));
        assert!((2..=6).contains(&dex));
        assert!((2..=4).contains(&cha));
        assert!((2..=6).contains(&con));
    }
}

#[test]
fn accepted_names_stay_inside_the_saves_folder() {
    for name in ["a b", " x ", "..a", "My.Save", "a/b", "..", "c:d", "a  b", "\tTab\n"] {
        if let Ok(folder) = validate_save_name(name) {
            assert!(!folder.is_empty());
            assert!(!folder.contains(' '));
            assert!(!has_invalid_save_characters(&folder));
            assert!(is_safe_folder_name(&folder));
        }
    }
    assert_eq!(validate_save_name("a  b").unwrap(), "a__b");
    assert_eq!(validate_save_name("\tTab\n").unwrap(), "Tab");
}

#[test]
fn difficulty_ranks_follow_their_order() {
    assert_eq!(Difficulty::Easy.rank(), 0);
    assert_eq!(Difficulty::Medium.rank(), 1);
    assert_eq!(Difficulty::Hard.rank(), 2);
}

#[test]
fn plain_names_are_accepted() {
    for name in ["a", "Save_01", " hello world ", "___", "9 lives"] {
        let folder = validate_save_name(name).unwrap();
        assert_eq!(folder.chars().count(), name.trim().chars().count());
    }
}

#[test]
fn names_with_forbidden_characters_are_refused() {
    for name in ["a/b", " x:y ", "what?", "<tag>", "pipe|d", "back\\slash", "q\"uote", "star*"] {
        assert_eq!(validate_save_name(name), Err(SaveNameError::InvalidCharacters));
    }
}
