use dungeon_crawler_world::console::SaveListEntry;
use dungeon_crawler_world::items::{is_json_file_name, ItemMeta};
use dungeon_crawler_world::logger::log_message;
use dungeon_crawler_world::console::SaveFiles;
use dungeon_crawler_world::saves::{
    folder_candidates, format_created_at, inspected_save_name, inspection_from_files,
    save_json_problem, save_list_entry, save_list_entry_from_json, save_list_from_folders,
};
use dungeon_crawler_world::sorting::sort_by_text_key;

#[test]
fn created_at_is_shown_to_the_minute() {
    assert_eq!(
        format_created_at("2024-05-01T12:34:56+02:00"),
        Some("Created: 2024-05-01 12:34".to_string())
    );
    assert_eq!(
        format_created_at("1999-12-31T23:59:59.999Z"),
        Some("Created: 1999-12-31 23:59".to_string())
    );
    assert_eq!(format_created_at("yesterday"), None);
    assert_eq!(format_created_at(""), None);
}

#[test]
fn save_list_entries_from_folders() {
    let e = save_list_entry(
        "My_Cool_Run".to_string(),
        Some("Hard".to_string()),
        Some("2023-01-02T03:04:05+00:00"),
    );
    assert_eq!(e.folder_name, "My_Cool_Run");
    assert_eq!(e.save_name, "My Cool Run");
    assert_eq!(e.difficulty, Some("Hard".to_string()));
    assert_eq!(e.created_at, Some("Created: 2023-01-02 03:04".to_string()));
    let bare = save_list_entry("x".to_string(), None, Some("not a date"));
    assert_eq!(bare.created_at, None);
    assert_eq!(save_list_entry("y".to_string(), None, None).created_at, None);
}

#[test]
fn inspected_name_prefers_the_stored_one() {
    assert_eq!(inspected_save_name(Some("Stored".to_string()), "A_B"), "Stored");
    assert_eq!(inspected_save_name(None, "A_B"), "A B");
}

#[test]
fn folder_candidates_try_spaces_as_underscores() {
    assert_eq!(
        folder_candidates("My Save"),
        ("My Save".to_string(), "My_Save".to_string())
    );
}

fn entry(folder: &str) -> SaveListEntry {
    SaveListEntry {
        folder_name: folder.to_string(),
        save_name: folder.to_string(),
        difficulty: None,
        created_at: None,
    }
}

#[test]
fn saves_are_listed_by_folder_name() {
    let sorted = sort_by_text_key(vec![entry("b"), entry("B"), entry("a"), entry("ab"), entry("")]);
    let names: Vec<&str> = sorted.iter().map(|e| e.folder_name.as_str()).collect();
    assert_eq!(names, vec!["", "B", "a", "ab", "b"]);
}

#[test]
fn skills_are_listed_by_name() {
    let sorted = sort_by_text_key(vec![
        ("Walking".to_string(), 3i8),
        ("Breathing".to_string(), 5),
        ("Swimming".to_string(), 4),
    ]);
    assert_eq!(
        sorted,
        vec![
            ("Breathing".to_string(), 5),
            ("Swimming".to_string(), 4),
            ("Walking".to_string(), 3)
        ]
    );
}

fn meta(name: &str, description: &str) -> ItemMeta {
    ItemMeta {
        name: name.to_string(),
        description: description.to_string(),
        icon_path: None,
    }
}

#[test]
fn catalog_sort_is_stable_for_equal_names() {
    let sorted = sort_by_text_key(vec![
        meta("Mana", "first"),
        meta("Health", "x"),
        meta("Mana", "second"),
        meta("Élixir", "y"),
    ]);
    let got: Vec<(&str, &str)> = sorted
        .iter()
        .map(|m| (m.name.as_str(), m.description.as_str()))
        .collect();
    assert_eq!(
        got,
        vec![("Health", "x"), ("Mana", "first"), ("Mana", "second"), ("Élixir", "y")]
    );
}

#[test]
fn sorting_matches_std_on_many_inputs() {
    let words = ["delta", "alpha", "", "Alpha", "beta", "alph", "zeta", "beta", "ä", "a"];
    for n in 0..words.len() {
        let input: Vec<(String, i8)> = words[..n]
            .iter()
            .enumerate()
            .map(|(i, w)| (w.to_string(), i as i8))
            .collect();
        let mut expected = input.clone();
        expected.sort_by(|a, b| a.0.cmp(&b.0));
        assert_eq!(sort_by_text_key(input), expected);
    }
}

#[test]
fn json_file_names() {
    assert!(is_json_file_name("potion.json"));
    assert!(is_json_file_name("a.b.json"));
    assert!(!is_json_file_name(".json"));
    assert!(!is_json_file_name("potion.JSON"));
    assert!(!is_json_file_name("potion.json.bak"));
    assert!(!is_json_file_name("json"));
}

#[test]
fn log_lines_carry_their_level() {
    assert_eq!(log_message("INFO", "started"), "[INFO] started");
    assert_eq!(log_message("", ""), "[] ");
}

use dungeon_crawler_world::saves::rename_target;

#[test]
fn rename_targets() {
    assert_eq!(rename_target("  New Name ", "Old"), Some("New_Name".to_string()));
    assert_eq!(rename_target("   ", "Old"), None);
    assert_eq!(rename_target(" Old ", "Old"), None);
    assert_eq!(rename_target("a b", "a_b"), None);
}

use dungeon_crawler_world::items::hot_slots;

#[test]
fn hot_slots_split_counts_into_stacks() {
    assert_eq!(
        hot_slots(&vec![0, 1500, 3, 2000, 5]),
        vec![
            Some((1, 999)),
            Some((1, 501)),
            Some((2, 3)),
            Some((3, 999)),
            Some((3, 999)),
            Some((3, 2)),
            Some((4, 5)),
            None,
            None,
        ]
    );
}

#[test]
fn hot_slots_stop_at_nine() {
    assert_eq!(hot_slots(&vec![9000, 7]), vec![Some((0, 999)); 9]);
    assert_eq!(hot_slots(&vec![-5, 0]), vec![None; 9]);
    assert_eq!(hot_slots(&Vec::new()), vec![None; 9]);
}

#[test]
fn save_list_entry_reads_save_json() {
    let e = save_list_entry_from_json(
        "Old_Run".to_string(),
        Some(r#"{"save_name": "x", "difficulty": "Hard", "created_at": "2023-01-02T03:04:05Z"}"#),
    );
    assert_eq!(e.folder_name, "Old_Run");
    assert_eq!(e.save_name, "Old Run");
    assert_eq!(e.difficulty, Some("Hard".to_string()));
    assert_eq!(e.created_at, Some("Created: 2023-01-02 03:04".to_string()));

    let e = save_list_entry_from_json("a".to_string(), Some(r#"{"difficulty": 2, "created_at": "soon"}"#));
    assert_eq!(e.difficulty, None);
    assert_eq!(e.created_at, None);

    let e = save_list_entry_from_json("b".to_string(), Some("{broken"));
    assert_eq!((e.difficulty, e.created_at), (None, None));

    let e = save_list_entry_from_json("c".to_string(), Some(r#"["difficulty"]"#));
    assert_eq!(e.difficulty, None);

    let e = save_list_entry_from_json("d".to_string(), None);
    assert_eq!((e.difficulty, e.created_at), (None, None));
}

#[test]
fn save_list_is_sorted_by_folder() {
    let folders = vec![
        ("zeta".to_string(), None),
        ("Alpha".to_string(), Some(r#"{"difficulty": "Easy"}"#.to_string())),
        ("beta".to_string(), None),
    ];
    let entries = save_list_from_folders(&folders);
    let names: Vec<&str> = entries.iter().map(|e| e.folder_name.as_str()).collect();
    assert_eq!(names, vec!["Alpha", "beta", "zeta"]);
    assert_eq!(entries[0].difficulty, Some("Easy".to_string()));
    assert!(save_list_from_folders(&Vec::new()).is_empty());
}

#[test]
fn save_json_problems_name_the_file() {
    assert_eq!(save_json_problem("saves/a/save.json", r#"{"a": 1}"#), None);
    let message = save_json_problem("saves/a/save.json", "{oops").unwrap();
    assert!(message.starts_with("Failed to parse 'saves/a/save.json': "));
    assert!(message.len() > "Failed to parse 'saves/a/save.json': ".len());
}

#[test]
fn inspection_reads_stored_name_and_difficulty() {
    let i = inspection_from_files(SaveFiles {
        folder_name: "My_Run".to_string(),
        save_json: r#"{"save_name": "Stored Name", "difficulty": "Easy"}"#.to_string(),
        current_floor: 3,
        level: 7,
        coins: -2,
    });
    assert_eq!(i.save_name, "Stored Name");
    assert_eq!(i.folder_name, "My_Run");
    assert_eq!(i.difficulty, Some("Easy".to_string()));
    assert_eq!((i.current_floor, i.level, i.coins), (3, 7, -2));

    let i = inspection_from_files(SaveFiles {
        folder_name: "My_Run".to_string(),
        save_json: "{}".to_string(),
        current_floor: 0,
        level: 0,
        coins: 0,
    });
    assert_eq!(i.save_name, "My Run");
    assert_eq!(i.difficulty, None);
}
