use preman::app_types::mode::{AppMode, FilterMode};
use preman::app_types::sort::SortColumn;
use preman::state::AppState;
use preman::steam::{SteamGame, WinePrefix};

fn prefix(app_id: u64, path: &str, size: u64, name: Option<&str>, cloud: bool, installed: bool) -> WinePrefix {
    WinePrefix {
        app_id,
        path: path.to_string(),
        size_bytes: size,
        game: name.map(|n| SteamGame { app_id, name: n.to_string(), cloud_saves: cloud, installed }),
    }
}

#[test]
fn test_app_state_sort_and_filter() {
    let mut app = AppState::new(vec![], vec![]);
    // Clear everything to have a clean slate
    app.prefixes.clear();
    app.filtered_indices.clear();

    // Add some dummy prefixes
    app.prefixes.push(WinePrefix {
        app_id: 1,
        path: "/p1".to_string(),
        size_bytes: 100,
        game: Some(SteamGame {
            app_id: 1,
            name: "Game B".to_string(),
            cloud_saves: true,
            installed: false,
        }),
    });
    app.prefixes.push(WinePrefix {
        app_id: 2,
        path: "/p2".to_string(),
        size_bytes: 50,
        game: Some(SteamGame {
            app_id: 2,
            name: "Game A".to_string(),
            cloud_saves: false,
            installed: true,
        }),
    });

    app.filter_mode = FilterMode::All;
    app.sort_col = SortColumn::Name;
    *app.col_asc.get_mut(&SortColumn::Name).unwrap() = true;
    app.apply_sort_and_filter();

    assert_eq!(app.filtered_indices.len(), 2);
    // Sorted by name: Game A (idx 1) then Game B (idx 0)
    assert_eq!(app.filtered_indices[0], 1);
    assert_eq!(app.filtered_indices[1], 0);

    // Filter uninstalled only
    app.filter_mode = FilterMode::UninstalledOnly;
    app.apply_sort_and_filter();
    assert_eq!(app.filtered_indices.len(), 1);
    assert_eq!(app.filtered_indices[0], 0); // Game B is uninstalled
}

#[test]
fn test_selection_logic() {
    let mut app = AppState::new(vec![], vec![]);
    app.filtered_indices = vec![0, 1, 2, 3];
    app.selected = 1;

    // Effective selection should be just the cursor (filtered_indices[1] == 1)
    assert_eq!(app.effective_selection(), vec![1]);

    // Multi-selection
    app.selection.insert(2);
    app.selection.insert(3);
    let sel = app.effective_selection();
    assert_eq!(sel.len(), 2);
    assert!(sel.contains(&2));
    assert!(sel.contains(&3));
}

fn sample_app() -> AppState {
    let mut app = AppState::new(vec!["/steam".to_string()], vec![]);
    app.filter_mode = FilterMode::All;
    app.prefixes = vec![
        prefix(620, "/c/620", 300, Some("Portal 2"), true, true),
        prefix(70, "/c/70", 100, Some("half-life"), false, false),
        prefix(999, "/c/999", 200, None, false, false),
        prefix(400, "/c/400", 100, Some("Portal"), true, false),
    ];
    app.apply_sort_and_filter();
    app
}

#[test]
fn new_state_defaults() {
    let app = AppState::new(vec!["/a".to_string()], vec!["/b".to_string()]);
    assert_eq!(app.mode, AppMode::Startup);
    assert_eq!(app.filter_mode, FilterMode::UninstalledOnly);
    assert_eq!(app.sort_col, SortColumn::Name);
    assert!(app.sort_asc());
    assert!(app.col_asc.name && app.col_asc.app_id);
    assert!(!app.col_asc.size && !app.col_asc.installed && !app.col_asc.cloud);
    assert_eq!(app.all_roots(), vec!["/a".to_string(), "/b".to_string()]);
    assert!(app.selection.is_empty());
}

#[test]
fn name_sort_is_case_insensitive() {
    let app = sample_app();
    // half-life, Portal, Portal 2, Unknown
    assert_eq!(app.filtered_indices, vec![1, 3, 0, 2]);
}

#[test]
fn lowercase_order_differs_from_plain_order() {
    let mut app = AppState::new(vec![], vec![]);
    app.filter_mode = FilterMode::All;
    app.prefixes = vec![
        prefix(1, "/x", 1, Some("B"), false, false),
        prefix(2, "/y", 1, Some("a"), false, false),
    ];
    app.apply_sort_and_filter();
    assert_eq!(app.filtered_indices, vec![1, 0]);
}

#[test]
fn sort_by_columns_and_reverse() {
    let mut app = sample_app();
    app.sort_by_col(SortColumn::Size);
    // size descends by default; ties (100, 100) keep index order
    assert_eq!(app.filtered_indices, vec![0, 2, 1, 3]);
    app.sort_by_col(SortColumn::Size);
    assert!(app.col_asc.size);
    assert_eq!(app.filtered_indices, vec![1, 3, 2, 0]);
    app.sort_by_col(SortColumn::AppId);
    assert_eq!(app.filtered_indices, vec![1, 3, 0, 2]);
    app.reverse_sort();
    assert_eq!(app.filtered_indices, vec![2, 0, 3, 1]);
    app.sort_by_col(SortColumn::Installed);
    // installed first (descending), the rest in index order
    assert_eq!(app.filtered_indices, vec![0, 1, 2, 3]);
    app.sort_by_col(SortColumn::Cloud);
    assert_eq!(app.filtered_indices, vec![0, 3, 1, 2]);
}

#[test]
fn text_filter_matches_name_and_app_id() {
    let mut app = sample_app();
    app.filter_text = "PORTAL".to_string();
    app.apply_sort_and_filter();
    assert_eq!(app.filtered_indices, vec![3, 0]);
    app.filter_text = "99".to_string();
    app.apply_sort_and_filter();
    assert_eq!(app.filtered_indices, vec![2]);
    app.filter_text = "unknown".to_string();
    app.apply_sort_and_filter();
    assert_eq!(app.filtered_indices, vec![2]);
    app.filter_text = "zzz".to_string();
    app.selected = 3;
    app.apply_sort_and_filter();
    assert!(app.filtered_indices.is_empty());
    assert_eq!(app.selected, 0);
}

#[test]
fn toggle_filter_mode_resets_cursor() {
    let mut app = sample_app();
    app.selected = 2;
    app.scroll_offset = 1;
    app.toggle_filter_mode();
    assert_eq!(app.filter_mode, FilterMode::UninstalledOnly);
    assert_eq!(app.filtered_indices, vec![1, 3, 2]);
    assert_eq!(app.selected, 0);
    assert_eq!(app.scroll_offset, 0);
    app.toggle_filter_mode();
    assert_eq!(app.filter_mode, FilterMode::All);
}

#[test]
fn cursor_moves_and_scrolls() {
    let mut app = sample_app();
    app.move_down(2);
    assert_eq!((app.selected, app.scroll_offset), (1, 0));
    app.move_down(2);
    assert_eq!((app.selected, app.scroll_offset), (2, 1));
    app.move_down(2);
    app.move_down(2);
    assert_eq!((app.selected, app.scroll_offset), (3, 2));
    app.move_up();
    app.move_up();
    assert_eq!((app.selected, app.scroll_offset), (1, 1));
    app.move_up();
    app.move_up();
    assert_eq!((app.selected, app.scroll_offset), (0, 0));
    assert_eq!(app.shift_anchor, 0);
}

#[test]
fn shift_extension_selects_a_range() {
    let mut app = sample_app();
    app.move_down(10);
    app.extend_down(10);
    app.extend_down(10);
    assert_eq!(app.selected, 3);
    assert_eq!(app.effective_selection(), vec![0, 2, 3]);
    app.extend_up();
    assert_eq!(app.effective_selection(), vec![0, 3]);
    app.move_up();
    assert!(app.selection.is_empty());
    assert_eq!(app.effective_selection(), vec![3]);
}

#[test]
fn ctrl_toggle_adds_and_removes() {
    let mut app = sample_app();
    // cursor on row 0 (prefix 1); toggling row 2 (prefix 0) selects both
    app.ctrl_toggle(2);
    assert_eq!(app.effective_selection(), vec![0, 1]);
    assert_eq!(app.selected, 2);
    app.ctrl_toggle(0);
    assert_eq!(app.effective_selection(), vec![0]);
    assert_eq!(app.selected, 2);
    app.ctrl_toggle(2);
    assert!(app.selection.is_empty());
    assert_eq!(app.selected, 2);
    app.ctrl_toggle(9);
    assert_eq!(app.selected, 2);
}

#[test]
fn drag_selects_rows_between() {
    let mut app = sample_app();
    app.drag_to(1);
    assert!(app.selection.is_empty());
    app.drag_start(3);
    assert_eq!(app.effective_selection(), vec![2]);
    app.drag_to(1);
    assert_eq!(app.selected, 1);
    assert_eq!(app.effective_selection(), vec![0, 2, 3]);
    app.drag_to(7);
    assert_eq!(app.selected, 1);
}

#[test]
fn unsafe_selection_detection() {
    let mut app = sample_app();
    app.selected = 2; // Portal 2, cloud saves
    assert!(!app.any_selected_unsafe());
    app.selection.insert(1);
    assert!(app.any_selected_unsafe());
}

#[test]
fn delete_flow() {
    let mut app = sample_app();
    app.selection.insert(0);
    app.selection.insert(3);
    app.begin_delete();
    match &app.mode {
        AppMode::Deleting { pending, current } => {
            assert_eq!(pending.len(), 2);
            assert_eq!(pending[0], ("/c/620".to_string(), "Portal 2".to_string(), 300));
            assert_eq!(pending[1], ("/c/400".to_string(), "Portal".to_string(), 100));
            assert_eq!(current, "Portal 2");
        }
        _ => panic!("not deleting"),
    }
    assert_eq!(app.pending_delete(), Some("/c/620".to_string()));
    app.deletion_succeeded();
    assert_eq!(app.total_deleted_bytes, 300);
    assert_eq!(app.pending_delete(), Some("/c/400".to_string()));
    match &app.mode {
        AppMode::Deleting { current, .. } => assert_eq!(current, "Portal"),
        _ => panic!("not deleting"),
    }
    app.deletion_succeeded();
    assert_eq!(app.total_deleted_bytes, 400);
    assert_eq!(app.pending_delete(), None);
    app.selected = 3;
    let existing = vec!["/c/70".to_string(), "/c/999".to_string()];
    app.deletion_finished(&existing);
    assert_eq!(app.mode, AppMode::Normal);
    assert_eq!(app.status_message, Some("Deleted.".to_string()));
    assert_eq!(app.prefixes.len(), 2);
    assert_eq!(app.prefixes[0].app_id, 70);
    assert_eq!(app.filtered_indices, vec![0, 1]);
    assert_eq!(app.selected, 1);
    assert_eq!(app.shift_anchor, 1);
    assert!(app.selection.is_empty());
}

#[test]
fn delete_failure_reports_path_and_error() {
    let mut app = sample_app();
    app.begin_delete();
    app.deletion_failed("/c/70", "permission denied");
    assert_eq!(app.mode, AppMode::Error("Failed to delete '/c/70': permission denied".to_string()));
}

#[test]
fn begin_delete_with_nothing_listed() {
    let mut app = AppState::new(vec![], vec![]);
    app.begin_delete();
    assert_eq!(app.mode, AppMode::Deleting { pending: vec![], current: String::new() });
}

#[test]
fn custom_roots_management() {
    let mut app = AppState::new(vec!["/steam".to_string()], vec!["/games".to_string()]);
    assert_eq!(
        app.add_custom_root("  /missing  ", false),
        Err("Path does not exist: /missing".to_string())
    );
    assert_eq!(app.add_custom_root(" /more\t", true), Ok(true));
    assert_eq!(app.add_custom_root("/more", true), Ok(false));
    assert_eq!(app.add_custom_root("/steam", true), Ok(false));
    assert_eq!(app.all_roots(), vec!["/steam".to_string(), "/games".to_string(), "/more".to_string()]);
    app.open_dir_modal();
    assert_eq!(app.mode, AppMode::ManageDirs);
    assert_eq!(app.dir_modal.as_ref().unwrap().custom_indices, vec![1, 2]);
    assert_eq!(app.remove_custom_root(5), Err("Invalid index".to_string()));
    assert_eq!(
        app.remove_custom_root(0),
        Err("Cannot remove an auto-detected Steam directory.".to_string())
    );
    assert_eq!(app.remove_custom_root(1), Ok(()));
    assert_eq!(app.custom_roots, vec!["/more".to_string()]);
    app.reset_to_default_roots(vec!["/s2".to_string()]);
    assert!(app.custom_roots.is_empty());
    assert_eq!(app.all_roots(), vec!["/s2".to_string()]);
}

#[test]
fn custom_root_equal_to_default_is_listed_once() {
    let app = AppState::new(vec!["/a".to_string(), "/b".to_string()], vec!["/b".to_string(), "/c".to_string(), "/c".to_string()]);
    assert_eq!(app.all_roots(), vec!["/a".to_string(), "/b".to_string(), "/c".to_string()]);
}

#[test]
fn reload_keeps_cursor_inside() {
    let mut app = sample_app();
    app.selected = 3;
    app.reload(vec![prefix(5, "/c/5", 1, Some("Only"), false, false)]);
    assert_eq!(app.filtered_indices, vec![0]);
    assert_eq!(app.selected, 0);
    assert_eq!(app.selected_prefix().unwrap().app_id, 5);
}

#[test]
fn listing_is_recomputed_identically() {
    let mut app = sample_app();
    let first = app.filtered_indices.clone();
    app.apply_sort_and_filter();
    assert_eq!(app.filtered_indices, first);
    app.sort_by_col(SortColumn::Size);
    let by_size = app.filtered_indices.clone();
    app.apply_sort_and_filter();
    assert_eq!(app.filtered_indices, by_size);
}

#[test]
fn reversing_twice_restores_listing() {
    let mut app = sample_app();
    app.sort_by_col(SortColumn::Size);
    let before = app.filtered_indices.clone();
    app.reverse_sort();
    app.reverse_sort();
    assert_eq!(app.filtered_indices, before);
    app.sort_by_col(SortColumn::Size);
    app.sort_by_col(SortColumn::Size);
    assert_eq!(app.filtered_indices, before);
}

#[test]
fn reversing_with_distinct_keys_reverses_listing() {
    let mut app = sample_app();
    app.sort_by_col(SortColumn::AppId);
    let fwd = app.filtered_indices.clone();
    app.reverse_sort();
    let mut back = fwd.clone();
    back.reverse();
    assert_eq!(app.filtered_indices, back);
}

#[test]
fn reversing_with_equal_keys_keeps_their_order() {
    let mut app = sample_app();
    // prefixes 1 and 3 both hold 100 bytes
    app.sort_by_col(SortColumn::Size);
    assert_eq!(app.filtered_indices, vec![0, 2, 1, 3]);
    app.reverse_sort();
    assert_eq!(app.filtered_indices, vec![1, 3, 2, 0]);
}

#[test]
fn toggling_filter_twice_restores_listing() {
    let mut app = sample_app();
    let before = app.filtered_indices.clone();
    app.toggle_filter_mode();
    app.toggle_filter_mode();
    assert_eq!(app.filter_mode, FilterMode::All);
    assert_eq!(app.filtered_indices, before);
}

#[test]
fn selection_insert_then_remove_restores() {
    let mut app = AppState::new(vec![], vec![]);
    assert!(app.selection.insert(4));
    assert!(app.selection.insert(1));
    let before = app.selection.to_vec();
    assert!(app.selection.insert(2));
    assert!(app.selection.contains(&2));
    assert!(app.selection.remove(&2));
    assert_eq!(app.selection.to_vec(), before);
    assert!(!app.selection.insert(4));
    assert_eq!(app.selection.to_vec(), vec![1, 4]);
    assert!(!app.selection.remove(&9));
    assert_eq!(app.selection.len(), 2);
}

#[test]
fn effective_selection_is_increasing() {
    let mut app = sample_app();
    app.selection.insert(3);
    app.selection.insert(0);
    app.selection.insert(2);
    assert_eq!(app.effective_selection(), vec![0, 2, 3]);
}

#[test]
fn added_root_is_scanned_and_removed_root_is_not() {
    let mut app = AppState::new(vec!["/steam".to_string()], vec!["/a".to_string(), "/b".to_string()]);
    assert_eq!(app.add_custom_root("/new", true), Ok(true));
    assert!(app.all_roots().contains(&"/new".to_string()));
    let idx = app.all_roots().iter().position(|r| r == "/a").unwrap();
    assert_eq!(app.remove_custom_root(idx), Ok(()));
    let roots = app.all_roots();
    assert!(!roots.contains(&"/a".to_string()));
    assert_eq!(roots, vec!["/steam".to_string(), "/b".to_string(), "/new".to_string()]);
}

#[test]
fn freed_and_queued_bytes_add_up() {
    let mut app = sample_app();
    app.selection.insert(0);
    app.selection.insert(1);
    app.selection.insert(3);
    app.begin_delete();
    app.deletion_succeeded();
    let queued: u64 = match &app.mode {
        AppMode::Deleting { pending, .. } => pending.iter().map(|p| p.2).sum(),
        _ => panic!("not deleting"),
    };
    assert_eq!(app.total_deleted_bytes + queued, 500);
}

#[test]
fn roots_are_compared_as_paths() {
    let mut app = AppState::new(vec!["/steam".to_string()], vec!["/games/".to_string()]);
    assert_eq!(app.add_custom_root("/steam/", true), Ok(false));
    assert_eq!(app.add_custom_root("/games", true), Ok(false));
    assert_eq!(app.add_custom_root("//games/./", true), Ok(false));
    assert_eq!(app.all_roots(), vec!["/steam".to_string(), "/games/".to_string()]);
    let app2 = AppState::new(vec!["/a".to_string()], vec!["/a/".to_string(), "/b".to_string()]);
    assert_eq!(app2.all_roots(), vec!["/a".to_string(), "/b".to_string()]);
}

#[test]
fn confirming_unsafe_deletion_asks_twice() {
    let mut app = sample_app();
    // Portal 2 (index 0) has cloud saves, half-life (index 1) has none
    app.selection.insert(0);
    app.selection.insert(1);
    app.mode = AppMode::ConfirmDelete { step: 1 };
    app.confirm_delete(1);
    assert_eq!(app.mode, AppMode::ConfirmDelete { step: 2 });
    app.confirm_delete(2);
    assert!(matches!(app.mode, AppMode::Deleting { .. }));
    let mut safe = sample_app();
    safe.selection.insert(0);
    safe.confirm_delete(1);
    match &safe.mode {
        AppMode::Deleting { pending, current } => {
            assert_eq!(pending.len(), 1);
            assert_eq!(current, "Portal 2");
        }
        _ => panic!("not deleting"),
    }
}

#[test]
fn paging_moves_by_pages_and_stops_at_the_ends() {
    let mut app = AppState::new(vec![], vec![]);
    app.filter_mode = FilterMode::All;
    app.prefixes = (0..10u64).map(|i| prefix(i, &format!("/c/{}", i), 1, Some(&format!("g{}", i)), false, false)).collect();
    app.apply_sort_and_filter();
    app.selection.insert(4);
    app.page_down(3, 4);
    assert_eq!(app.selected, 3);
    assert_eq!(app.scroll_offset, 0);
    assert!(app.selection.is_empty());
    app.page_down(3, 4);
    assert_eq!(app.selected, 6);
    assert_eq!(app.scroll_offset, 3);
    app.page_down(100, 4);
    assert_eq!(app.selected, 9);
    assert_eq!(app.scroll_offset, 6);
    assert_eq!(app.shift_anchor, 9);
    app.page_up(4);
    assert_eq!(app.selected, 5);
    assert_eq!(app.scroll_offset, 5);
    app.page_up(100);
    assert_eq!(app.selected, 0);
    assert_eq!(app.scroll_offset, 0);
}

#[test]
fn one_row_pages_are_single_steps() {
    let mut a = sample_app();
    let mut b = sample_app();
    for _ in 0..5 {
        a.page_down(1, 2);
        b.move_down(2);
        assert_eq!((a.selected, a.scroll_offset), (b.selected, b.scroll_offset));
    }
    for _ in 0..5 {
        a.page_up(1);
        b.move_up();
        assert_eq!((a.selected, a.scroll_offset), (b.selected, b.scroll_offset));
    }
}

#[test]
fn empty_filter_lists_what_the_mode_admits() {
    let mut app = sample_app();
    app.filter_mode = FilterMode::UninstalledOnly;
    app.filter_text = String::new();
    app.apply_sort_and_filter();
    let mut listed = app.filtered_indices.clone();
    listed.sort();
    assert_eq!(listed, vec![1, 2, 3]);
}

#[test]
fn filter_text_editing() {
    let mut app = sample_app();
    app.mode = AppMode::FilterText;
    for c in "PORTx".chars() {
        app.filter_push(c);
    }
    assert!(app.filtered_indices.is_empty());
    app.filter_pop();
    assert_eq!(app.filter_text, "PORT");
    assert_eq!(app.filtered_indices, vec![3, 0]);
    app.filter_cancel();
    assert!(app.filter_text.is_empty());
    assert_eq!(app.mode, AppMode::Normal);
    assert_eq!(app.filtered_indices, vec![1, 3, 0, 2]);
    app.filter_pop();
    assert!(app.filter_text.is_empty());
}
