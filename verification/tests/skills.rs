use dungeon_crawler_world::skills::{
    gallery_order, gallery_page, points_to_markdown, skill_description, skill_text,
    sort_mode_label, wants_default_markdown, GalleryFilter, SkillEntry,
};

fn entries() -> Vec<SkillEntry> {
    vec![
        SkillEntry { name: "Swimming".to_string(), level: Some(4) },
        SkillEntry { name: "archery".to_string(), level: None },
        SkillEntry { name: "Walking".to_string(), level: Some(3) },
        SkillEntry { name: "breathing".to_string(), level: Some(5) },
        SkillEntry { name: "Cooking".to_string(), level: None },
    ]
}

fn filter(sort_mode: u8) -> GalleryFilter {
    GalleryFilter {
        only_owned: false,
        show_all_active: false,
        search: String::new(),
        sort_mode,
        page: 0,
    }
}

#[test]
fn gallery_sort_modes() {
    let es = entries();
    assert_eq!(gallery_order(&es, &filter(0)), vec![1, 3, 4, 0, 2]);
    assert_eq!(gallery_order(&es, &filter(1)), vec![2, 0, 4, 3, 1]);
    assert_eq!(gallery_order(&es, &filter(2)), vec![3, 0, 2, 1, 4]);
    assert_eq!(gallery_order(&es, &filter(3)), vec![1, 4, 2, 0, 3]);
    assert_eq!(gallery_order(&es, &filter(9)), vec![0, 1, 2, 3, 4]);
}

#[test]
fn gallery_only_owned() {
    let es = entries();
    let mut f = filter(0);
    f.only_owned = true;
    assert_eq!(gallery_order(&es, &f), vec![3, 0, 2]);
    f.show_all_active = true;
    assert_eq!(gallery_order(&es, &f), vec![1, 3, 4, 0, 2]);
}

#[test]
fn gallery_search_ignores_case() {
    let es = entries();
    let mut f = filter(0);
    f.search = "ING".to_string();
    assert_eq!(gallery_order(&es, &f), vec![3, 4, 0, 2]);
    f.search = "xyz".to_string();
    assert!(gallery_order(&es, &f).is_empty());
}

#[test]
fn gallery_ties_keep_catalogue_order() {
    let es = vec![
        SkillEntry { name: "fire".to_string(), level: Some(1) },
        SkillEntry { name: "Fire".to_string(), level: Some(1) },
        SkillEntry { name: "FIRE".to_string(), level: Some(1) },
    ];
    assert_eq!(gallery_order(&es, &filter(0)), vec![0, 1, 2]);
    assert_eq!(gallery_order(&es, &filter(1)), vec![0, 1, 2]);
    assert_eq!(gallery_order(&es, &filter(2)), vec![0, 1, 2]);
}

#[test]
fn gallery_pages() {
    let es: Vec<SkillEntry> = (0..13)
        .map(|i| SkillEntry { name: format!("s{:02}", i), level: None })
        .collect();
    let mut f = filter(0);
    let first = gallery_page(&es, &f);
    assert_eq!(first.items, (0..12).collect::<Vec<usize>>());
    assert_eq!(first.shown_count, 13);
    assert_eq!(first.total_pages, 2);
    f.page = 1;
    assert_eq!(gallery_page(&es, &f).items, vec![12]);
    f.page = 5;
    assert!(gallery_page(&es, &f).items.is_empty());
    let none = gallery_page(&Vec::new(), &filter(0));
    assert_eq!(none.total_pages, 0);
    assert_eq!(none.shown_count, 0);
}

#[test]
fn sort_mode_labels() {
    assert_eq!(sort_mode_label(0), "Name (A-Z)");
    assert_eq!(sort_mode_label(1), "Name (Z-A)");
    assert_eq!(sort_mode_label(2), "Level (High-Low)");
    assert_eq!(sort_mode_label(3), "Level (Low-High)");
    assert_eq!(sort_mode_label(7), "Name (A-Z)");
}

#[test]
fn skill_text_prefers_metadata() {
    assert_eq!(
        skill_text("swim", Some(r#"{"name": "Swimming", "description": "swim.md"}"#)),
        ("Swimming".to_string(), "swim.md".to_string())
    );
    assert_eq!(skill_text("swim", Some(r#"{"name": 3}"#)), ("swim".to_string(), String::new()));
    assert_eq!(skill_text("swim", Some("not json")), ("swim".to_string(), String::new()));
    assert_eq!(skill_text("swim", None), ("swim".to_string(), String::new()));
}

#[test]
fn markdown_declarations() {
    assert!(points_to_markdown(" Notes.MD "));
    assert!(points_to_markdown("docs/swim.md"));
    assert!(!points_to_markdown("Swims well."));
    assert!(wants_default_markdown("   "));
    assert!(!wants_default_markdown("x"));
}

#[test]
fn skill_description_fallbacks() {
    let md = Some("# Swim".to_string());
    assert_eq!(skill_description("swim.md", md.clone(), None), "# Swim");
    assert_eq!(skill_description("swim.md", None, md.clone()), "No description available.");
    assert_eq!(skill_description("Swim.MD", None, None), "Swim.MD");
    assert_eq!(skill_description("", None, Some("default".to_string())), "default");
    assert_eq!(skill_description("  ", None, None), "No description available.");
    assert_eq!(skill_description("Swims well.", md.clone(), md), "Swims well.");
}

#[test]
fn skill_catalogue_is_ordered_by_lowercase_name() {
    let names = vec![
        "walking".to_string(),
        "Archery".to_string(),
        "swimming".to_string(),
        "archery".to_string(),
    ];
    assert_eq!(dungeon_crawler_world::skills::skill_name_order(&names), vec![1, 3, 2, 0]);
    assert!(dungeon_crawler_world::skills::skill_name_order(&Vec::new()).is_empty());
}
