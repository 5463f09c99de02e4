use dungeon_crawler_world::preview::{PreviewKind, UiPreviewManager, PreviewWindowState};

#[test]
fn opening_creates_then_reopens_windows() {
    let mut registry = UiPreviewManager::new();
    assert!(registry.windows().is_empty());
    assert_eq!(registry.open_preview("  Console "), Ok(()));
    assert_eq!(
        registry.windows().clone(),
        vec![PreviewWindowState { kind: PreviewKind::Console, open: true, maximized: false }]
    );
    registry.toggle_maximized(PreviewKind::Console);
    registry.close(PreviewKind::Console);
    assert!(!registry.is_open(PreviewKind::Console));
    assert_eq!(registry.open_preview("console"), Ok(()));
    assert_eq!(
        registry.windows().clone(),
        vec![PreviewWindowState { kind: PreviewKind::Console, open: true, maximized: true }]
    );
    assert_eq!(registry.open_preview("quit"), Ok(()));
    assert_eq!(registry.windows().len(), 2);
}

#[test]
fn unknown_preview_changes_nothing() {
    let mut registry = UiPreviewManager::new();
    let error = registry.open_preview("grid").unwrap_err();
    assert_eq!(
        error,
        "Unknown UI 'grid'. Known: skills, new_save, saves, settings, console, fps_graph, quit"
    );
    assert!(registry.windows().is_empty());
}

#[test]
fn closed_windows_are_removed() {
    let mut registry = UiPreviewManager::new();
    registry.open_preview("skills").unwrap();
    registry.open_preview("saves").unwrap();
    registry.open_preview("settings").unwrap();
    registry.close(PreviewKind::Saves);
    registry.remove_closed();
    let kinds: Vec<PreviewKind> = registry.windows().iter().map(|w| w.kind).collect();
    assert_eq!(kinds, vec![PreviewKind::Skills, PreviewKind::Settings]);
    assert!(registry.is_open(PreviewKind::Skills));
    assert!(!registry.is_open(PreviewKind::Saves));
}
