use preman::app_types::modal::{DirModalConfirm, DirModalFocus, DirModalState};
use preman::app_types::mode::{AppMode, FilterMode};
use preman::app_types::sort::SortColumn;
use preman::state::AppState;
use preman::steam::{SteamGame, WinePrefix};
use preman::ui::{
    centered_rect, cloud_note, cloud_summary, confirm_title, deletion_summary, dir_row_marker, dir_row_tag, hit_test_table_col,
    hit_test_table_row, listed_total_bytes, loading_text, roots_label, sort_indicator, Rect,
};

#[test]
fn sort_column_cycle() {
    let all = [SortColumn::Name, SortColumn::AppId, SortColumn::Size, SortColumn::Installed, SortColumn::Cloud];
    for (i, c) in all.iter().enumerate() {
        assert_eq!(c.index(), i);
        assert_eq!(c.next(), all[(i + 1) % 5]);
        assert_eq!(c.prev(), all[(i + 4) % 5]);
        assert_eq!(c.next().prev(), *c);
        assert_eq!(c.prev().next(), *c);
        assert_eq!(c.next().next().next().next().next(), *c);
    }
    assert!(SortColumn::Name.default_asc());
    assert!(SortColumn::AppId.default_asc());
    assert!(!SortColumn::Size.default_asc());
    assert!(!SortColumn::Installed.default_asc());
    assert!(!SortColumn::Cloud.default_asc());
}

#[test]
fn dir_modal_starts_on_list() {
    let m = DirModalState::new();
    assert_eq!(m.focus, DirModalFocus::List);
    assert_eq!(m.selected, 0);
    assert!(m.input.is_empty());
    assert_eq!(m.confirm, DirModalConfirm::Idle);
    assert!(m.custom_indices.is_empty());
}

#[test]
fn centering() {
    let area = Rect { x: 2, y: 1, width: 100, height: 30 };
    assert_eq!(centered_rect(64, 13, area), Rect { x: 20, y: 9, width: 64, height: 13 });
    assert_eq!(centered_rect(200, 40, area), Rect { x: 2, y: 1, width: 100, height: 30 });
}

#[test]
fn row_hits() {
    let body = Rect { x: 0, y: 3, width: 80, height: 20 };
    assert_eq!(hit_test_table_row(2, body, 0), None);
    assert_eq!(hit_test_table_row(3, body, 5), None);
    assert_eq!(hit_test_table_row(4, body, 0), Some(0));
    assert_eq!(hit_test_table_row(10, body, 5), Some(11));
    // the last line inside the body, then below it
    assert_eq!(hit_test_table_row(22, body, 0), Some(18));
    assert_eq!(hit_test_table_row(23, body, 0), None);
    assert_eq!(hit_test_table_row(30, body, 0), None);
    let empty = Rect { x: 0, y: 3, width: 80, height: 1 };
    assert_eq!(hit_test_table_row(4, empty, 0), None);
}

#[test]
fn column_hits() {
    let t = Rect { x: 1, y: 0, width: 100, height: 10 };
    assert_eq!(hit_test_table_col(0, t, true), None);
    assert_eq!(hit_test_table_col(1, t, true), Some(SortColumn::Name));
    assert_eq!(hit_test_table_col(62, t, true), Some(SortColumn::Name));
    assert_eq!(hit_test_table_col(63, t, true), Some(SortColumn::AppId));
    assert_eq!(hit_test_table_col(73, t, true), Some(SortColumn::Size));
    assert_eq!(hit_test_table_col(83, t, true), Some(SortColumn::Cloud));
    assert_eq!(hit_test_table_col(90, t, true), Some(SortColumn::Installed));
    assert_eq!(hit_test_table_col(73, t, false), Some(SortColumn::Name));
    assert_eq!(hit_test_table_col(74, t, false), Some(SortColumn::AppId));
    assert_eq!(hit_test_table_col(94, t, false), Some(SortColumn::Cloud));
    assert_eq!(hit_test_table_col(500, t, false), Some(SortColumn::Cloud));
    let narrow = Rect { x: 0, y: 0, width: 20, height: 10 };
    assert_eq!(hit_test_table_col(0, narrow, false), Some(SortColumn::AppId));
}

fn prefix(app_id: u64, size: u64, cloud: bool) -> WinePrefix {
    WinePrefix {
        app_id,
        path: format!("/c/{}", app_id),
        size_bytes: size,
        game: Some(SteamGame { app_id, name: format!("G{}", app_id), cloud_saves: cloud, installed: false }),
    }
}

#[test]
fn header_figures() {
    let mut app = AppState::new(vec![], vec![]);
    app.filter_mode = FilterMode::All;
    app.reload(vec![prefix(1, 100, true), prefix(2, 250, false)]);
    assert_eq!(listed_total_bytes(&app), Some(350));
    app.reload(vec![prefix(1, u64::MAX, true), prefix(2, 1, false)]);
    assert_eq!(listed_total_bytes(&app), None);
    assert_eq!(sort_indicator(&app, SortColumn::Name), " \u{25b2}");
    assert_eq!(sort_indicator(&app, SortColumn::Size), "");
    app.reverse_sort();
    assert_eq!(sort_indicator(&app, SortColumn::Name), " \u{25bc}");
}

#[test]
fn root_labels() {
    assert_eq!(roots_label(&vec![]), "No Steam install found");
    assert_eq!(roots_label(&vec!["/home/u/.steam/steam".to_string()]), "Native");
    assert_eq!(
        roots_label(&vec![
            "/home/u/.steam/steam".to_string(),
            "/home/u/.var/app/flatpak/x".to_string(),
            "/opt/s".to_string(),
        ]),
        "Native + Flatpak"
    );
    assert_eq!(roots_label(&vec!["/flatpak".to_string(), "/native".to_string()]), "Flatpak + Native");
}

#[test]
fn delete_dialog_figures() {
    let mut app = AppState::new(vec![], vec![]);
    app.filter_mode = FilterMode::All;
    app.reload(vec![prefix(1, 100, true), prefix(2, 250, false), prefix(3, 5, false)]);
    assert_eq!(deletion_summary(&app), (1, Some(100), 0));
    app.selection.insert(1);
    app.selection.insert(2);
    assert_eq!(deletion_summary(&app), (2, Some(255), 2));
}

#[test]
fn deletion_progress_text() {
    let mut app = AppState::new(vec![], vec![]);
    assert_eq!(loading_text(&app), ("  Removing: ".to_string(), "  Please wait\u{2026}".to_string()));
    app.mode = AppMode::Deleting {
        pending: vec![
            ("/a".to_string(), "A".to_string(), 1),
            ("/b".to_string(), "B".to_string(), 1),
            ("/c".to_string(), "C".to_string(), 1),
        ],
        current: "A".to_string(),
    };
    assert_eq!(loading_text(&app), ("  Removing: A".to_string(), "  2 more after this\u{2026}".to_string()));
}

#[test]
fn centered_rect_stays_inside() {
    for (w, h) in [(10u16, 4u16), (11, 5), (99, 29), (100, 30), (500, 500), (0, 0)] {
        let area = Rect { x: 3, y: 2, width: 100, height: 30 };
        let r = centered_rect(w, h, area);
        assert!(r.x >= area.x && r.x + r.width <= area.x + area.width);
        assert!(r.y >= area.y && r.y + r.height <= area.y + area.height);
        let left = r.x - area.x;
        let right = area.x + area.width - (r.x + r.width);
        assert!(right == left || right == left + 1);
    }
}

#[test]
fn confirm_dialog_texts() {
    assert_eq!(confirm_title(1, false), " \u{26a0}  Confirm Delete ");
    assert_eq!(confirm_title(2, false), " \u{26a0}  Confirm Delete ");
    assert_eq!(confirm_title(1, true), " \u{26a0}  Confirm Delete \u{2013} Saves at Risk ");
    assert_eq!(confirm_title(2, true), " \u{26d4}  FINAL WARNING \u{2013} Saves Will Be Lost ");
    assert_eq!(cloud_note(&prefix(1, 10, true)), "Detected \u{2601} \u{2014} your progress is safe");
    assert_eq!(cloud_note(&prefix(1, 10, false)), "Not detected \u{2717} \u{2014} local saves only!");
    let unknown = WinePrefix { app_id: 2, path: "/p".to_string(), size_bytes: 0, game: None };
    assert_eq!(cloud_note(&unknown), "Unknown game \u{2014} cloud saves unverified");
    assert_eq!(cloud_summary(0), "All have cloud saves \u{2601}");
    assert_eq!(cloud_summary(3), "3 without cloud saves");
}

#[test]
fn dir_dialog_editing_and_rows() {
    let mut m = DirModalState::new();
    m.select_up();
    assert_eq!(m.selected, 0);
    m.select_down(3);
    m.select_down(3);
    m.select_down(3);
    assert_eq!(m.selected, 2);
    assert_eq!(dir_row_marker(&m, 2), "\u{25b6}");
    assert_eq!(dir_row_marker(&m, 1), " ");
    m.toggle_focus();
    assert_eq!(m.focus, DirModalFocus::Input);
    assert_eq!(dir_row_marker(&m, 2), " ");
    m.input_push('/');
    m.input_push('x');
    m.input_push('y');
    m.input_pop();
    assert_eq!(m.input, "/x");
    assert_eq!(m.take_input(), "/x");
    assert!(m.input.is_empty());
    m.input_pop();
    assert!(m.input.is_empty());
    m.toggle_focus();
    assert_eq!(m.focus, DirModalFocus::List);
    let defaults = vec!["/steam".to_string()];
    assert_eq!(dir_row_tag(&defaults, &"/steam/".to_string()), " [default] ");
    assert_eq!(dir_row_tag(&defaults, &"/games".to_string()), " [custom]  ");
}
