//! What the screen shows, computed from the state: layout rectangles, mouse
//! hit tests, and the figures and labels of the header and the dialogs.
use vstd::prelude::*;
use vstd::string::StringExecFns;
use crate::app_types::modal::{DirModalFocus, DirModalState};
use crate::app_types::mode::AppMode;
use crate::paths::{contains_path, has_path};
use crate::app_types::sort::SortColumn;
use crate::state::{AppState, effective_of};
use crate::steam::{WinePrefix, cloud_of};
use crate::text::{contains_chars, decimal_string, decimal_text, has_substring, lemma_push_contains, to_chars};

verus! {

// ─── Rectangles and hit tests ────────────────────────────────────────────────

/// A rectangle of terminal cells.
#[derive(Debug, Clone, Copy, PartialEq, Eq, Structural)]
pub struct Rect {
    pub x: u16,
    pub y: u16,
    pub width: u16,
    pub height: u16,
}

pub open spec fn sat_sub(a: u16, b: u16) -> int {
    if a > b {
        a - b
    } else {
        0
    }
}

pub open spec fn min_u16(a: u16, b: u16) -> u16 {
    if a < b {
        a
    } else {
        b
    }
}

/// A `w` by `h` rectangle centred in `area`, shrunk to fit it.
pub fn centered_rect(w: u16, h: u16, area: Rect) -> (r: Rect)
    requires
        area.x + sat_sub(area.width, w) / 2 <= u16::MAX,
        area.y + sat_sub(area.height, h) / 2 <= u16::MAX,
    ensures
        r.x == area.x + sat_sub(area.width, w) / 2,
        r.y == area.y + sat_sub(area.height, h) / 2,
        r.width == min_u16(w, area.width),
        r.height == min_u16(h, area.height),
        area.x <= r.x && r.x + r.width <= area.x + area.width,
        area.y <= r.y && r.y + r.height <= area.y + area.height,
        0 <= (area.x + area.width - (r.x + r.width)) - (r.x - area.x) <= 1,
        0 <= (area.y + area.height - (r.y + r.height)) - (r.y - area.y) <= 1,
{
    Rect {
        x: area.x + area.width.saturating_sub(w) / 2,
        y: area.y + area.height.saturating_sub(h) / 2,
        width: if w < area.width {
            w
        } else {
            area.width
        },
        height: if h < area.height {
            h
        } else {
            area.height
        },
    }
}

/// Given the body rect of the table, the display row that a click at line
/// `click_y` hits (counting the rows scrolled away): none outside the list
/// (above the body, on its header line, or below the body).
pub fn hit_test_table_row(click_y: u16, body_area: Rect, scroll_offset: usize) -> (r: Option<usize>)
    requires
        body_area.y < click_y < body_area.y + body_area.height ==> click_y - body_area.y - 1
            + scroll_offset <= usize::MAX,
    ensures
        r is Some <==> body_area.y < click_y < body_area.y + body_area.height,
        r is Some ==> r == Some((click_y - body_area.y - 1 + scroll_offset) as usize),
{
    if click_y <= body_area.y {
        return None;
    }
    let rel_y = click_y - body_area.y;
    if rel_y >= body_area.height {
        return None;
    }
    Some(rel_y as usize - 1 + scroll_offset)
}

/// The column whose header spans offset `rel_x` of a table `available`
/// cells wide: the name column takes what the fixed columns leave (10 app
/// id, 10 size, 7 cloud, then 11 installed when it is shown).
pub open spec fn column_at_offset(rel_x: int, available: int, show_installed: bool) -> SortColumn {
    let fixed: int = if show_installed {
        38
    } else {
        27
    };
    let name_w: int = if available > fixed {
        available - fixed
    } else {
        0
    };
    if rel_x < name_w {
        SortColumn::Name
    } else if rel_x < name_w + 10 {
        SortColumn::AppId
    } else if rel_x < name_w + 20 {
        SortColumn::Size
    } else if !show_installed || rel_x < name_w + 27 {
        SortColumn::Cloud
    } else {
        SortColumn::Installed
    }
}

/// The column whose header a click at `click_x` hits; none left of the table.
pub fn hit_test_table_col(click_x: u16, table_area: Rect, show_installed: bool) -> (r: Option<SortColumn>)
    ensures
        click_x < table_area.x ==> r is None,
        click_x >= table_area.x ==> r == Some(
            column_at_offset(click_x - table_area.x, table_area.width as int, show_installed),
        ),
{
    if click_x < table_area.x {
        return None;
    }
    let rel_x = (click_x - table_area.x) as usize;
    let available = table_area.width as usize;
    if show_installed {
        let name_w = available.saturating_sub(38);
        if rel_x < name_w {
            Some(SortColumn::Name)
        } else if rel_x < name_w + 10 {
            Some(SortColumn::AppId)
        } else if rel_x < name_w + 20 {
            Some(SortColumn::Size)
        } else if rel_x < name_w + 27 {
            Some(SortColumn::Cloud)
        } else {
            Some(SortColumn::Installed)
        }
    } else {
        let name_w = available.saturating_sub(27);
        if rel_x < name_w {
            Some(SortColumn::Name)
        } else if rel_x < name_w + 10 {
            Some(SortColumn::AppId)
        } else if rel_x < name_w + 20 {
            Some(SortColumn::Size)
        } else {
            Some(SortColumn::Cloud)
        }
    }
}

// ─── Header ──────────────────────────────────────────────────────────────────

/// The sum of the sizes of the listed prefixes from position `k` of the
/// listing on (indices past the prefixes count nothing).
pub open spec fn listed_bytes_from(s: AppState, k: int) -> nat
    decreases s.filtered_indices.len() - k,
{
    if !(0 <= k < s.filtered_indices.len()) {
        0
    } else {
        let i = s.filtered_indices@[k] as int;
        (if i < s.prefixes.len() {
            s.prefixes@[i].size_bytes as nat
        } else {
            0
        }) + listed_bytes_from(s, k + 1)
    }
}

/// The total size of the listed prefixes, shown in the header; `None` when
/// it does not fit in a `u64`.
pub fn listed_total_bytes(s: &AppState) -> (r: Option<u64>)
    ensures
        listed_bytes_from(*s, 0) <= u64::MAX ==> r == Some(listed_bytes_from(*s, 0) as u64),
        listed_bytes_from(*s, 0) > u64::MAX ==> r is None,
{
    let n = s.filtered_indices.len();
    let mut k = n;
    let mut total: u64 = 0;
    while k > 0
        invariant
            k <= n,
            n == s.filtered_indices.len(),
            total == listed_bytes_from(*s, k as int),
        decreases k,
    {
        k = k - 1;
        let i = s.filtered_indices[k];
        let add: u64 = if i < s.prefixes.len() {
            s.prefixes[i].size_bytes
        } else {
            0
        };
        if total > u64::MAX - add {
            assert(listed_bytes_from(*s, k as int) > u64::MAX);
            proof {
                lemma_listed_bytes_grow(*s, 0, k as int);
            }
            return None;
        }
        total = total + add;
    }
    Some(total)
}

pub proof fn lemma_listed_bytes_grow(s: AppState, j: int, k: int)
    requires
        0 <= j <= k,
    ensures
        listed_bytes_from(s, j) >= listed_bytes_from(s, k),
    decreases k - j,
{
    if j < k {
        lemma_listed_bytes_grow(s, j + 1, k);
    }
}

/// How a Steam root is described: `Flatpak` when its path mentions
/// `flatpak`, else `Native`.
pub open spec fn root_kind(path: Seq<char>) -> Seq<char> {
    if has_substring(path, "flatpak"@) {
        "Flatpak"@
    } else {
        "Native"@
    }
}

/// The kinds of the roots, each once, in order of first appearance.
pub open spec fn root_kinds(roots: Seq<Seq<char>>) -> Seq<Seq<char>>
    decreases roots.len(),
{
    if roots.len() == 0 {
        Seq::empty()
    } else {
        let acc = root_kinds(roots.drop_last());
        let k = root_kind(roots.last());
        if acc.contains(k) {
            acc
        } else {
            acc.push(k)
        }
    }
}

/// Texts joined with a separator.
pub open spec fn joined_with(parts: Seq<Seq<char>>, sep: Seq<char>) -> Seq<char>
    decreases parts.len(),
{
    if parts.len() == 0 {
        Seq::empty()
    } else if parts.len() == 1 {
        parts[0]
    } else {
        joined_with(parts.drop_last(), sep) + sep + parts.last()
    }
}

/// The header's description of the Steam roots: the distinct kinds
/// (`Native`, `Flatpak`) joined with ` + `, or `No Steam install found`.
pub open spec fn roots_label_text(roots: Seq<Seq<char>>) -> Seq<char> {
    if roots.len() == 0 {
        "No Steam install found"@
    } else {
        joined_with(root_kinds(roots), " + "@)
    }
}

/// The header's description of the Steam roots.
pub fn roots_label(roots: &Vec<String>) -> (r: String)
    ensures
        r@ == roots_label_text(roots.deep_view()),
{
    if roots.len() == 0 {
        return String::from_str("No Steam install found");
    }
    let needle = to_chars("flatpak");
    let mut has_flatpak = false;
    let mut has_native = false;
    let mut label = String::new();
    let mut count: usize = 0;
    let mut i: usize = 0;
    while i < roots.len()
        invariant
            i <= roots.len(),
            needle@ == "flatpak"@,
            count == root_kinds(roots.deep_view().take(i as int)).len(),
            count <= 2,
            has_flatpak == root_kinds(roots.deep_view().take(i as int)).contains("Flatpak"@),
            has_native == root_kinds(roots.deep_view().take(i as int)).contains("Native"@),
            label@ == joined_with(root_kinds(roots.deep_view().take(i as int)), " + "@),
            forall|k: int|
                0 <= k < count ==> (#[trigger] root_kinds(roots.deep_view().take(i as int))[k]
                    == "Flatpak"@ || root_kinds(roots.deep_view().take(i as int))[k] == "Native"@),
            root_kinds(roots.deep_view().take(i as int)).no_duplicates(),
        decreases roots.len() - i,
    {
        let ghost prev = root_kinds(roots.deep_view().take(i as int));
        assert(roots.deep_view().take(i + 1).drop_last() =~= roots.deep_view().take(i as int));
        assert(roots.deep_view().take(i + 1).last() == roots@[i as int]@);
        let path = to_chars(roots[i].as_str());
        let flat = contains_chars(&path, &needle);
        let ghost kind = root_kind(roots@[i as int]@);
        proof {
            lemma_push_contains(prev, kind, "Flatpak"@);
            lemma_push_contains(prev, kind, "Native"@);
            assert(prev.push(kind).drop_last() =~= prev);
            assert(prev.push(kind).last() == kind);
        }
        proof {
            reveal_strlit("Flatpak");
            reveal_strlit("Native");
        }
        assert("Flatpak"@ != "Native"@) by {
            assert("Flatpak"@.len() != "Native"@.len());
        }
        if flat && !has_flatpak {
            if count > 0 {
                label.append(" + ");
            }
            label.append("Flatpak");
            has_flatpak = true;
            count = count + 1;
            proof {
                lemma_kinds_two(prev);
            }
        } else if !flat && !has_native {
            if count > 0 {
                label.append(" + ");
            }
            label.append("Native");
            has_native = true;
            count = count + 1;
            proof {
                lemma_kinds_two(prev);
            }
        }
        let ghost next = root_kinds(roots.deep_view().take(i + 1));
        assert(next.no_duplicates()) by {
            if next.len() > prev.len() {
                assert(next =~= prev.push(next.last()));
            }
        }
        i = i + 1;
    }
    assert(roots.deep_view().take(roots.len() as int) =~= roots.deep_view());
    label
}

/// A list of distinct kinds, each `Flatpak` or `Native`, has at most two
/// entries.
proof fn lemma_kinds_two(kinds: Seq<Seq<char>>)
    requires
        kinds.no_duplicates(),
        forall|k: int| 0 <= k < kinds.len() ==> (#[trigger] kinds[k] == "Flatpak"@ || kinds[k] == "Native"@),
    ensures
        kinds.len() <= 2,
        kinds.len() == 2 ==> kinds.contains("Flatpak"@) && kinds.contains("Native"@),
        kinds.len() == 1 ==> (kinds.contains("Flatpak"@) || kinds.contains("Native"@)),
{
    if kinds.len() > 2 {
        assert(kinds[0] == kinds[1] || kinds[0] == kinds[2] || kinds[1] == kinds[2]);
    }
    if kinds.len() == 2 {
        assert(kinds.contains(kinds[0]) && kinds.contains(kinds[1]));
    }
    if kinds.len() == 1 {
        assert(kinds.contains(kinds[0]));
    }
}

/// The arrow after a column header: up or down for the sort column (by its
/// direction), nothing for the others.
pub fn sort_indicator(s: &AppState, col: SortColumn) -> (r: &'static str)
    ensures
        s.sort_col != col ==> r@ == ""@,
        s.sort_col == col && crate::state::ascending(s.col_asc, col) ==> r@ == " \u{25b2}"@,
        s.sort_col == col && !crate::state::ascending(s.col_asc, col) ==> r@ == " \u{25bc}"@,
{
    if s.sort_col == col {
        if s.sort_asc() {
            " \u{25b2}"
        } else {
            " \u{25bc}"
        }
    } else {
        ""
    }
}

// ─── Dialogs ─────────────────────────────────────────────────────────────────

/// The sum of the sizes of the prefixes `sel[k..]`.
pub open spec fn selection_bytes_from(s: AppState, sel: Seq<usize>, k: int) -> nat
    decreases sel.len() - k,
{
    if !(0 <= k < sel.len()) {
        0
    } else {
        s.prefixes@[sel[k] as int].size_bytes as nat + selection_bytes_from(s, sel, k + 1)
    }
}

/// The number of prefixes among `sel[k..]` without cloud saves.
pub open spec fn without_cloud_from(s: AppState, sel: Seq<usize>, k: int) -> nat
    decreases sel.len() - k,
{
    if !(0 <= k < sel.len()) {
        0
    } else {
        (if cloud_of(s.prefixes@[sel[k] as int]) {
            0nat
        } else {
            1nat
        }) + without_cloud_from(s, sel, k + 1)
    }
}

/// What the delete confirmation shows for several prefixes: how many, their
/// total size (`None` when it does not fit in a `u64`), and how many have no
/// cloud saves.
pub fn deletion_summary(s: &AppState) -> (r: (usize, Option<u64>, usize))
    requires
        forall|k: int|
            0 <= k < effective_of(*s).len() ==> #[trigger] effective_of(*s)[k] < s.prefixes.len(),
    ensures
        r.0 == effective_of(*s).len(),
        selection_bytes_from(*s, effective_of(*s), 0) <= u64::MAX ==> r.1 == Some(
            selection_bytes_from(*s, effective_of(*s), 0) as u64,
        ),
        selection_bytes_from(*s, effective_of(*s), 0) > u64::MAX ==> r.1 is None,
        r.2 == without_cloud_from(*s, effective_of(*s), 0),
{
    let sel = s.effective_selection();
    let n = sel.len();
    let mut k = n;
    let mut total: u64 = 0;
    let mut over = false;
    let mut no_cloud: usize = 0;
    while k > 0
        invariant
            k <= n,
            n == sel.len(),
            sel@ == effective_of(*s),
            forall|j: int| 0 <= j < sel.len() ==> #[trigger] sel@[j] < s.prefixes.len(),
            !over ==> total == selection_bytes_from(*s, sel@, k as int),
            over ==> selection_bytes_from(*s, sel@, k as int) > u64::MAX,
            no_cloud == without_cloud_from(*s, sel@, k as int),
            no_cloud <= n - k,
        decreases k,
    {
        k = k - 1;
        let p = &s.prefixes[sel[k]];
        if !over {
            if total > u64::MAX - p.size_bytes {
                over = true;
            } else {
                total = total + p.size_bytes;
            }
        }
        if !p.has_cloud_saves() {
            no_cloud = no_cloud + 1;
        }
    }
    (n, if over {
        None
    } else {
        Some(total)
    }, no_cloud)
}

/// The title of the delete confirmation at `step`: a plain confirmation when
/// every prefix to delete has cloud saves; else a warning at the first step
/// and a final warning after.
pub fn confirm_title(step: u8, unsafe_delete: bool) -> (r: &'static str)
    ensures
        !unsafe_delete ==> r@ == " \u{26a0}  Confirm Delete "@,
        unsafe_delete && step == 1 ==> r@ == " \u{26a0}  Confirm Delete \u{2013} Saves at Risk "@,
        unsafe_delete && step != 1 ==> r@ == " \u{26d4}  FINAL WARNING \u{2013} Saves Will Be Lost "@,
{
    if !unsafe_delete {
        " \u{26a0}  Confirm Delete "
    } else if step == 1 {
        " \u{26a0}  Confirm Delete \u{2013} Saves at Risk "
    } else {
        " \u{26d4}  FINAL WARNING \u{2013} Saves Will Be Lost "
    }
}

/// What the delete confirmation says of one prefix's cloud saves: unverified
/// for an unknown game, else whether they were detected.
pub fn cloud_note(p: &WinePrefix) -> (r: &'static str)
    ensures
        p.game is None ==> r@ == "Unknown game \u{2014} cloud saves unverified"@,
        p.game is Some && cloud_of(*p) ==> r@ == "Detected \u{2601} \u{2014} your progress is safe"@,
        p.game is Some && !cloud_of(*p) ==> r@ == "Not detected \u{2717} \u{2014} local saves only!"@,
{
    if p.game.is_none() {
        "Unknown game \u{2014} cloud saves unverified"
    } else if p.has_cloud_saves() {
        "Detected \u{2601} \u{2014} your progress is safe"
    } else {
        "Not detected \u{2717} \u{2014} local saves only!"
    }
}

/// What the delete confirmation says of several prefixes' cloud saves, given
/// how many have none.
pub fn cloud_summary(no_cloud: usize) -> (r: String)
    ensures
        no_cloud > 0 ==> r@ == decimal_text(no_cloud as nat) + " without cloud saves"@,
        no_cloud == 0 ==> r@ == "All have cloud saves \u{2601}"@,
{
    if no_cloud > 0 {
        let mut t = decimal_string(no_cloud as u64);
        t.append(" without cloud saves");
        t
    } else {
        String::from_str("All have cloud saves \u{2601}")
    }
}

/// The tag of a root in the directory dialog: default when it is among the
/// auto-detected roots, else custom.
pub fn dir_row_tag(default_roots: &Vec<String>, path: &String) -> (r: &'static str)
    ensures
        has_path(default_roots.deep_view(), path@) ==> r@ == " [default] "@,
        !has_path(default_roots.deep_view(), path@) ==> r@ == " [custom]  "@,
{
    if contains_path(default_roots, path) {
        " [default] "
    } else {
        " [custom]  "
    }
}

/// The marker in front of row `i` of the directory dialog: an arrow on the
/// selected row while the list has the keyboard.
pub fn dir_row_marker(modal: &DirModalState, i: usize) -> (r: &'static str)
    ensures
        (i == modal.selected && modal.focus == DirModalFocus::List) ==> r@ == "\u{25b6}"@,
        !(i == modal.selected && modal.focus == DirModalFocus::List) ==> r@ == " "@,
{
    if i == modal.selected && modal.focus == DirModalFocus::List {
        "\u{25b6}"
    } else {
        " "
    }
}

/// The two lines of the deletion progress dialog: `  Removing: <name>`, and
/// how many more follow (or `  Please wait…`).
pub open spec fn loading_lines(mode: AppMode) -> (Seq<char>, Seq<char>) {
    let (current, remaining) = match mode {
        AppMode::Deleting { pending, current } => (current@, pending.len() as int),
        _ => (Seq::empty(), 0),
    };
    (
        "  Removing: "@ + current,
        if remaining > 1 {
            "  "@ + decimal_text((remaining - 1) as nat) + " more after this\u{2026}"@
        } else {
            "  Please wait\u{2026}"@
        },
    )
}

/// The lines of the deletion progress dialog.
pub fn loading_text(s: &AppState) -> (r: (String, String))
    ensures
        r.0@ == loading_lines(s.mode).0,
        r.1@ == loading_lines(s.mode).1,
{
    proof {
        reveal_strlit("");
    }
    let (current, remaining): (&str, usize) = match &s.mode {
        AppMode::Deleting { pending, current } => (current.as_str(), pending.len()),
        _ => ("", 0),
    };
    let mut label = String::from_str("  Removing: ");
    label.append(current);
    let sub = if remaining > 1 {
        let mut t = String::from_str("  ");
        let count = decimal_string((remaining - 1) as u64);
        t.append(count.as_str());
        t.append(" more after this\u{2026}");
        t
    } else {
        String::from_str("  Please wait\u{2026}")
    };
    (label, sub)
}

} // verus!
