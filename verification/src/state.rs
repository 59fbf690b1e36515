//! The application state: the prefix list with its filter, sort order,
//! cursor and selection, the Steam directories, and the screen mode.
pub mod index_set;

use vstd::prelude::*;
use vstd::string::StringExecFns;
use crate::app_types::modal::DirModalState;
use crate::app_types::mode::{AppMode, FilterMode, PendingDelete};
use crate::app_types::sort::{SortColumn, default_ascending};
use crate::ordering::{chars_lt, key_eq, lemma_chars_lt_irreflexive, lemma_chars_lt_total, row_before, lemma_sorted_rows_reverse, lemma_sorted_rows_unique, rows_sorted, sort_rows};
use crate::state::index_set::{IndexSet, increasing};
use crate::steam::{WinePrefix, cloud_of, game_name_of, installed_of};
use crate::steam::discovery::contains_string;
use crate::paths::{contains_path, has_path, paths_equal, same_path};
use crate::text::{
    char_rows, contains_chars, decimal_chars, decimal_text, has_substring, lowercase,
    push_char, string_of_range, to_chars, to_lowercase, trim_bounds, trimmed, without_last_char,
};

verus! {

// ─── Sort directions ─────────────────────────────────────────────────────────

/// The sort direction of each column (true = ascending).
pub struct ColumnOrder {
    pub name: bool,
    pub app_id: bool,
    pub size: bool,
    pub installed: bool,
    pub cloud: bool,
}

/// Whether column `c` sorts ascending.
pub open spec fn ascending(o: ColumnOrder, c: SortColumn) -> bool {
    match c {
        SortColumn::Name => o.name,
        SortColumn::AppId => o.app_id,
        SortColumn::Size => o.size,
        SortColumn::Installed => o.installed,
        SortColumn::Cloud => o.cloud,
    }
}

/// The directions with column `c`'s reversed.
pub open spec fn flipped(o: ColumnOrder, c: SortColumn) -> ColumnOrder {
    match c {
        SortColumn::Name => ColumnOrder { name: !o.name, ..o },
        SortColumn::AppId => ColumnOrder { app_id: !o.app_id, ..o },
        SortColumn::Size => ColumnOrder { size: !o.size, ..o },
        SortColumn::Installed => ColumnOrder { installed: !o.installed, ..o },
        SortColumn::Cloud => ColumnOrder { cloud: !o.cloud, ..o },
    }
}

impl ColumnOrder {
    /// Every column in its default direction.
    pub fn defaults() -> (r: Self)
        ensures
            forall|c: SortColumn| ascending(r, c) == default_ascending(c),
    {
        ColumnOrder {
            name: SortColumn::Name.default_asc(),
            app_id: SortColumn::AppId.default_asc(),
            size: SortColumn::Size.default_asc(),
            installed: SortColumn::Installed.default_asc(),
            cloud: SortColumn::Cloud.default_asc(),
        }
    }

    /// The direction of `col`.
    pub fn get(&self, col: &SortColumn) -> (r: Option<&bool>)
        ensures
            r matches Some(b) && *b == ascending(*self, *col),
    {
        match col {
            SortColumn::Name => Some(&self.name),
            SortColumn::AppId => Some(&self.app_id),
            SortColumn::Size => Some(&self.size),
            SortColumn::Installed => Some(&self.installed),
            SortColumn::Cloud => Some(&self.cloud),
        }
    }

    /// The direction of `col`, to change it in place.
    pub fn get_mut(&mut self, col: &SortColumn) -> (r: Option<&mut bool>)
        ensures
            r is Some,
            *r->0 == ascending(*old(self), *col),
            forall|c: SortColumn| c != *col ==> ascending(*final(self), c) == ascending(*old(self), c),
            ascending(*final(self), *col) == *final(r->0),
    {
        match col {
            SortColumn::Name => Some(&mut self.name),
            SortColumn::AppId => Some(&mut self.app_id),
            SortColumn::Size => Some(&mut self.size),
            SortColumn::Installed => Some(&mut self.installed),
            SortColumn::Cloud => Some(&mut self.cloud),
        }
    }

    /// Reverses the direction of `col`.
    pub fn toggle(&mut self, col: SortColumn)
        ensures
            *final(self) == flipped(*old(self), col),
    {
        match col {
            SortColumn::Name => self.name = !self.name,
            SortColumn::AppId => self.app_id = !self.app_id,
            SortColumn::Size => self.size = !self.size,
            SortColumn::Installed => self.installed = !self.installed,
            SortColumn::Cloud => self.cloud = !self.cloud,
        }
    }
}

// ─── The listing ─────────────────────────────────────────────────────────────

/// The filter mode lets `p` through: always, or only when not installed.
pub open spec fn mode_admits(mode: FilterMode, p: WinePrefix) -> bool {
    match mode {
        FilterMode::All => true,
        FilterMode::UninstalledOnly => !installed_of(p),
    }
}

/// The filter text lets `p` through: it is empty once lowercased, or it
/// occurs in the lowercase game name or in the decimal app id.
pub open spec fn text_admits(text: Seq<char>, p: WinePrefix) -> bool {
    let t = lowercase(text);
    ||| t.len() == 0
    ||| has_substring(lowercase(game_name_of(p)), t)
    ||| has_substring(decimal_text(p.app_id as nat), t)
}

/// The text key of a row: the lowercase game name when sorting by name.
pub open spec fn sort_text(p: WinePrefix, col: SortColumn) -> Seq<char> {
    match col {
        SortColumn::Name => lowercase(game_name_of(p)),
        _ => Seq::empty(),
    }
}

/// The numeric key of a row: app id, size, or installed / cloud saves as
/// 0 (false) and 1 (true).
pub open spec fn sort_num(p: WinePrefix, col: SortColumn) -> u64 {
    match col {
        SortColumn::Name => 0,
        SortColumn::AppId => p.app_id,
        SortColumn::Size => p.size_bytes,
        SortColumn::Installed => if installed_of(p) {
            1
        } else {
            0
        },
        SortColumn::Cloud => if cloud_of(p) {
            1
        } else {
            0
        },
    }
}

pub open spec fn column_texts(ps: Seq<WinePrefix>, col: SortColumn) -> Seq<Seq<char>> {
    Seq::new(ps.len(), |i: int| sort_text(ps[i], col))
}

pub open spec fn column_nums(ps: Seq<WinePrefix>, col: SortColumn) -> Seq<u64> {
    Seq::new(ps.len(), |i: int| sort_num(ps[i], col))
}

/// `r` lists exactly the prefixes the filter lets through, ordered by the
/// column (ascending or not), equal keys in prefix order.
pub open spec fn is_listing(
    r: Seq<usize>,
    ps: Seq<WinePrefix>,
    mode: FilterMode,
    text: Seq<char>,
    col: SortColumn,
    asc: bool,
) -> bool {
    &&& forall|x: usize|
        r.contains(x) <==> (x < ps.len() && mode_admits(mode, ps[x as int]) && text_admits(
            text,
            ps[x as int],
        ))
    &&& rows_sorted(column_texts(ps, col), column_nums(ps, col), asc, r)
}

/// The state shows the listing its prefixes, filter and sort order call for.
pub open spec fn shows_listing(s: AppState) -> bool {
    is_listing(
        s.filtered_indices@,
        s.prefixes@,
        s.filter_mode,
        s.filter_text@,
        s.sort_col,
        ascending(s.col_asc, s.sort_col),
    )
}

/// The filter mode that the filter toggle switches to.
pub open spec fn other_filter(m: FilterMode) -> FilterMode {
    match m {
        FilterMode::All => FilterMode::UninstalledOnly,
        FilterMode::UninstalledOnly => FilterMode::All,
    }
}

/// The listing is determined by the prefixes, the filter and the sort
/// order: two listings of the same prefixes under the same filter and order
/// are the same rows in the same order.
pub proof fn lemma_listing_unique(
    r1: Seq<usize>,
    r2: Seq<usize>,
    ps: Seq<WinePrefix>,
    mode: FilterMode,
    text: Seq<char>,
    col: SortColumn,
    asc: bool,
)
    requires
        is_listing(r1, ps, mode, text, col, asc),
        is_listing(r2, ps, mode, text, col, asc),
    ensures
        r1 == r2,
{
    lemma_sorted_rows_unique(column_texts(ps, col), column_nums(ps, col), asc, r1, r2);
}

/// A listed row is a prefix: every entry of a listing indexes the prefixes.
proof fn lemma_listing_in_range(
    r: Seq<usize>,
    ps: Seq<WinePrefix>,
    mode: FilterMode,
    text: Seq<char>,
    col: SortColumn,
    asc: bool,
    i: int,
)
    requires
        is_listing(r, ps, mode, text, col, asc),
        0 <= i < r.len(),
    ensures
        r[i] < ps.len(),
{
    assert(r.contains(r[i]));
}

/// Sorting by app id, size, installed state or cloud saves orders the listed
/// prefixes by that value (installed and cloud saves counting false before
/// true): ascending keeps each row's value at most the next one's, descending
/// at least; rows with equal values stay in index order.
pub proof fn lemma_listing_by_value(
    r: Seq<usize>,
    ps: Seq<WinePrefix>,
    mode: FilterMode,
    text: Seq<char>,
    col: SortColumn,
    asc: bool,
    i: int,
    j: int,
)
    requires
        is_listing(r, ps, mode, text, col, asc),
        col != SortColumn::Name,
        0 <= i < j < r.len(),
    ensures
        ({
            let pa = ps[r[i] as int];
            let pb = ps[r[j] as int];
            let (a, b) = match col {
                SortColumn::AppId => (pa.app_id as int, pb.app_id as int),
                SortColumn::Size => (pa.size_bytes as int, pb.size_bytes as int),
                SortColumn::Installed => (
                    if installed_of(pa) { 1int } else { 0int },
                    if installed_of(pb) { 1int } else { 0int },
                ),
                _ => (if cloud_of(pa) { 1int } else { 0int }, if cloud_of(pb) { 1int } else { 0int }),
            };
            &&& asc ==> a <= b
            &&& !asc ==> a >= b
            &&& a == b ==> r[i] < r[j]
        }),
{
    lemma_listing_in_range(r, ps, mode, text, col, asc, i);
    lemma_listing_in_range(r, ps, mode, text, col, asc, j);
    let t = column_texts(ps, col);
    let n = column_nums(ps, col);
    assert(row_before(t, n, asc, r[i] as int, r[j] as int));
    lemma_chars_lt_irreflexive(Seq::<char>::empty());
    assert(t[r[i] as int] == Seq::<char>::empty());
    assert(t[r[j] as int] == Seq::<char>::empty());
}

/// Sorting by name orders the listed prefixes by lowercase game name (as
/// strings compare): ascending, no row's name comes after the next one's;
/// descending, none comes before; equal names stay in index order.
pub proof fn lemma_listing_by_name(
    r: Seq<usize>,
    ps: Seq<WinePrefix>,
    mode: FilterMode,
    text: Seq<char>,
    asc: bool,
    i: int,
    j: int,
)
    requires
        is_listing(r, ps, mode, text, SortColumn::Name, asc),
        0 <= i < j < r.len(),
    ensures
        ({
            let a = lowercase(game_name_of(ps[r[i] as int]));
            let b = lowercase(game_name_of(ps[r[j] as int]));
            &&& asc ==> !chars_lt(b, a)
            &&& !asc ==> !chars_lt(a, b)
            &&& a == b ==> r[i] < r[j]
        }),
{
    lemma_listing_in_range(r, ps, mode, text, SortColumn::Name, asc, i);
    lemma_listing_in_range(r, ps, mode, text, SortColumn::Name, asc, j);
    let t = column_texts(ps, SortColumn::Name);
    let n = column_nums(ps, SortColumn::Name);
    let a = lowercase(game_name_of(ps[r[i] as int]));
    let b = lowercase(game_name_of(ps[r[j] as int]));
    assert(row_before(t, n, asc, r[i] as int, r[j] as int));
    assert(t[r[i] as int] == a && t[r[j] as int] == b);
    assert(n[r[i] as int] == 0 && n[r[j] as int] == 0);
    lemma_chars_lt_total(a, b);
    lemma_chars_lt_irreflexive(a);
}

/// What the filter lets through: a prefix is listed exactly when the filter
/// mode admits it (every prefix, or only those not installed) and the
/// lowercase filter text is empty or occurs anywhere in the lowercase game
/// name or in the decimal app id.
pub proof fn lemma_listing_filter(
    r: Seq<usize>,
    ps: Seq<WinePrefix>,
    mode: FilterMode,
    text: Seq<char>,
    col: SortColumn,
    asc: bool,
    x: usize,
)
    requires
        is_listing(r, ps, mode, text, col, asc),
    ensures
        r.contains(x) <==> (x < ps.len() && (mode == FilterMode::UninstalledOnly ==> !installed_of(
            ps[x as int],
        )) && ({
            let t = lowercase(text);
            let name = lowercase(game_name_of(ps[x as int]));
            let id = decimal_text(ps[x as int].app_id as nat);
            ||| t.len() == 0
            ||| exists|k: int| 0 <= k && k + t.len() <= name.len() && #[trigger] name.subrange(k, k + t.len()) == t
            ||| exists|k: int| 0 <= k && k + t.len() <= id.len() && #[trigger] id.subrange(k, k + t.len()) == t
        })),
{
}

/// Sorting the other way round lists the same prefixes in reverse order,
/// when no two listed prefixes have equal keys in the sort column (prefixes
/// with equal keys stay in index order either way).
pub proof fn lemma_listing_reversed(
    r_fwd: Seq<usize>,
    r_back: Seq<usize>,
    ps: Seq<WinePrefix>,
    mode: FilterMode,
    text: Seq<char>,
    col: SortColumn,
    asc: bool,
)
    requires
        is_listing(r_fwd, ps, mode, text, col, asc),
        is_listing(r_back, ps, mode, text, col, !asc),
        forall|i: int, j: int|
            0 <= i < r_fwd.len() && 0 <= j < r_fwd.len() && i != j ==> !key_eq(
                column_texts(ps, col),
                column_nums(ps, col),
                #[trigger] r_fwd[i] as int,
                #[trigger] r_fwd[j] as int,
            ),
    ensures
        r_back == r_fwd.reverse(),
{
    let t = column_texts(ps, col);
    let n = column_nums(ps, col);
    lemma_sorted_rows_reverse(t, n, asc, r_fwd);
    assert forall|x: usize| r_fwd.reverse().contains(x) <==> r_back.contains(x) by {
        if r_fwd.reverse().contains(x) {
            let k = choose|k: int| 0 <= k < r_fwd.len() && r_fwd.reverse()[k] == x;
            assert(r_fwd[r_fwd.len() - 1 - k] == x);
            assert(r_fwd.contains(x));
        }
        if r_fwd.contains(x) {
            let k = choose|k: int| 0 <= k < r_fwd.len() && r_fwd[k] == x;
            assert(r_fwd.reverse()[r_fwd.len() - 1 - k] == x);
        }
    }
    lemma_sorted_rows_unique(t, n, !asc, r_fwd.reverse(), r_back);
}

/// Reversing a column's direction twice gives the directions back, and the
/// other columns keep theirs.
pub proof fn lemma_flip_twice(o: ColumnOrder, c: SortColumn)
    ensures
        flipped(flipped(o, c), c) == o,
        ascending(flipped(o, c), c) == !ascending(o, c),
        forall|d: SortColumn| d != c ==> ascending(flipped(o, c), d) == ascending(o, d),
{
}

/// Switching the filter twice gives the filter mode back.
pub proof fn lemma_filter_toggle_twice(m: FilterMode)
    ensures
        other_filter(other_filter(m)) == m,
        other_filter(m) != m,
{
}

/// Inverting the sort order twice (or choosing the sort column twice) lists
/// the prefixes as before.
pub proof fn lemma_reverse_twice_restores_listing(before: AppState, after: AppState)
    requires
        shows_listing(before),
        shows_listing(after),
        after.prefixes@ == before.prefixes@,
        after.filter_mode == before.filter_mode,
        after.filter_text@ == before.filter_text@,
        after.sort_col == before.sort_col,
        after.col_asc == flipped(flipped(before.col_asc, before.sort_col), before.sort_col),
    ensures
        after.filtered_indices@ == before.filtered_indices@,
{
    lemma_flip_twice(before.col_asc, before.sort_col);
    lemma_listing_unique(
        after.filtered_indices@,
        before.filtered_indices@,
        before.prefixes@,
        before.filter_mode,
        before.filter_text@,
        before.sort_col,
        ascending(before.col_asc, before.sort_col),
    );
}

/// Switching the filter twice lists the prefixes as before.
pub proof fn lemma_filter_twice_restores_listing(before: AppState, after: AppState)
    requires
        shows_listing(before),
        shows_listing(after),
        after.prefixes@ == before.prefixes@,
        after.filter_mode == other_filter(other_filter(before.filter_mode)),
        after.filter_text@ == before.filter_text@,
        after.sort_col == before.sort_col,
        after.col_asc == before.col_asc,
    ensures
        after.filtered_indices@ == before.filtered_indices@,
{
    lemma_filter_toggle_twice(before.filter_mode);
    lemma_listing_unique(
        after.filtered_indices@,
        before.filtered_indices@,
        before.prefixes@,
        before.filter_mode,
        before.filter_text@,
        before.sort_col,
        ascending(before.col_asc, before.sort_col),
    );
}

/// The cursor kept inside a list of `len` rows: the last row when it was
/// past the end (0 for an empty list).
pub open spec fn clamp_cursor(sel: usize, len: nat) -> usize {
    if sel >= len {
        if len > 0 {
            (len - 1) as usize
        } else {
            0
        }
    } else {
        sel
    }
}

/// The prefixes listed at display rows `lo..=hi` (rows past the end ignored).
pub open spec fn rows_between(f: Seq<usize>, lo: int, hi: int) -> Set<usize> {
    Set::new(|x: usize| exists|d: int| lo <= d <= hi && 0 <= d < f.len() && f[d] == x)
}

pub open spec fn min_usize(a: usize, b: usize) -> usize {
    if a < b {
        a
    } else {
        b
    }
}

pub open spec fn max_usize(a: usize, b: usize) -> usize {
    if a < b {
        b
    } else {
        a
    }
}

/// The prefixes an action applies to: the selection, or else the prefix
/// under the cursor (none when the cursor is past the list).
pub open spec fn effective_of(s: AppState) -> Seq<usize> {
    if s.selection@.len() == 0 {
        if s.selected < s.filtered_indices.len() {
            seq![s.filtered_indices@[s.selected as int]]
        } else {
            Seq::empty()
        }
    } else {
        s.selection@
    }
}

// ─── Steam directories ───────────────────────────────────────────────────────

/// The default roots, then each custom root not listed yet.
pub open spec fn merged_roots(defaults: Seq<Seq<char>>, custom: Seq<Seq<char>>) -> Seq<Seq<char>>
    decreases custom.len(),
{
    if custom.len() == 0 {
        defaults
    } else {
        let acc = merged_roots(defaults, custom.drop_last());
        if has_path(acc, custom.last()) {
            acc
        } else {
            acc.push(custom.last())
        }
    }
}

/// A path is among the merged roots exactly when it is a default or a
/// custom root.
pub proof fn lemma_merged_roots_members(defaults: Seq<Seq<char>>, custom: Seq<Seq<char>>, x: Seq<char>)
    ensures
        has_path(merged_roots(defaults, custom), x) <==> (has_path(defaults, x) || has_path(custom, x)),
    decreases custom.len(),
{
    if custom.len() > 0 {
        let init = custom.drop_last();
        let c = custom.last();
        lemma_merged_roots_members(defaults, init, x);
        lemma_merged_roots_members(defaults, init, c);
        let acc = merged_roots(defaults, init);
        if has_path(init, x) {
            let k = choose|k: int| 0 <= k < init.len() && same_path(init[k], x);
            assert(custom[k] == init[k]);
        }
        if has_path(custom, x) {
            let k = choose|k: int| 0 <= k < custom.len() && same_path(custom[k], x);
            if k < init.len() {
                assert(init[k] == custom[k]);
            }
        }
        if !has_path(acc, c) {
            let m = acc.push(c);
            assert(m[acc.len() as int] == c);
            if has_path(m, x) {
                let k = choose|k: int| 0 <= k < m.len() && same_path(m[k], x);
                if k < acc.len() {
                    assert(acc[k] == m[k]);
                }
            }
            if has_path(acc, x) {
                let k = choose|k: int| 0 <= k < acc.len() && same_path(acc[k], x);
                assert(m[k] == acc[k]);
            }
        } else if same_path(c, x) {
            let k = choose|k: int| 0 <= k < acc.len() && same_path(acc[k], c);
            assert(same_path(acc[k], x));
        }
    }
}

/// A path is among `without(s, x)` exactly when it is among `s` and is not
/// the path `x`.
pub proof fn lemma_without_members(s: Seq<Seq<char>>, x: Seq<char>, y: Seq<char>)
    ensures
        has_path(without(s, x), y) <==> (has_path(s, y) && !same_path(y, x)),
    decreases s.len(),
{
    if s.len() > 0 {
        let init = s.drop_last();
        let l = s.last();
        lemma_without_members(init, x, y);
        let acc = without(init, x);
        if has_path(init, y) {
            let k = choose|k: int| 0 <= k < init.len() && same_path(init[k], y);
            assert(s[k] == init[k]);
        }
        if has_path(s, y) && !same_path(y, x) {
            let k = choose|k: int| 0 <= k < s.len() && same_path(s[k], y);
            if k < init.len() {
                assert(init[k] == s[k]);
            }
        }
        if !same_path(l, x) {
            let m = acc.push(l);
            assert(m[acc.len() as int] == l);
            if has_path(m, y) {
                let k = choose|k: int| 0 <= k < m.len() && same_path(m[k], y);
                if k < acc.len() {
                    assert(acc[k] == m[k]);
                }
            }
            if has_path(acc, y) {
                let k = choose|k: int| 0 <= k < acc.len() && same_path(acc[k], y);
                assert(m[k] == acc[k]);
            }
        }
    }
}

/// A directory added as a custom root is among all the roots scanned.
pub proof fn lemma_added_root_scanned(defaults: Seq<Seq<char>>, custom: Seq<Seq<char>>, t: Seq<char>)
    ensures
        has_path(merged_roots(defaults, custom.push(t)), t),
{
    lemma_merged_roots_members(defaults, custom.push(t), t);
    assert(custom.push(t)[custom.len() as int] == t);
}

/// A custom root that was removed (and is no default) is no longer among
/// the roots scanned; every other root still is.
pub proof fn lemma_removed_root_not_scanned(
    defaults: Seq<Seq<char>>,
    custom: Seq<Seq<char>>,
    x: Seq<char>,
    y: Seq<char>,
)
    requires
        !has_path(defaults, x),
    ensures
        !has_path(merged_roots(defaults, without(custom, x)), x),
        !same_path(y, x) ==> (has_path(merged_roots(defaults, without(custom, x)), y)
            <==> has_path(merged_roots(defaults, custom), y)),
{
    lemma_merged_roots_members(defaults, without(custom, x), x);
    lemma_without_members(custom, x, x);
    lemma_merged_roots_members(defaults, without(custom, x), y);
    lemma_without_members(custom, x, y);
    lemma_merged_roots_members(defaults, custom, y);
}

/// The positions in `all` of the roots that are not defaults, in order.
pub open spec fn custom_positions(all: Seq<Seq<char>>, defaults: Seq<Seq<char>>) -> Seq<usize>
    decreases all.len(),
{
    if all.len() == 0 {
        Seq::empty()
    } else {
        let acc = custom_positions(all.drop_last(), defaults);
        if has_path(defaults, all.last()) {
            acc
        } else {
            acc.push((all.len() - 1) as usize)
        }
    }
}

// ─── The state ───────────────────────────────────────────────────────────────

pub struct AppState {
    pub prefixes: Vec<WinePrefix>,
    /// The listed prefixes (indices into `prefixes`), in display order.
    pub filtered_indices: Vec<usize>,
    /// The cursor: a display row.
    pub selected: usize,
    pub scroll_offset: usize,
    pub mode: AppMode,
    pub filter_mode: FilterMode,
    pub filter_text: String,
    pub default_roots: Vec<String>,
    pub custom_roots: Vec<String>,
    pub status_message: Option<String>,
    pub total_deleted_bytes: u64,
    pub sort_col: SortColumn,
    pub col_asc: ColumnOrder,
    pub dir_modal: Option<DirModalState>,
    /// The selected prefixes (indices into `prefixes`).
    pub selection: IndexSet,
    pub shift_anchor: usize,
    pub drag_anchor: Option<usize>,
    /// The display row and time (milliseconds) of the last click.
    pub last_click: Option<(usize, u64)>,
}

impl AppState {
    /// A state with no prefixes yet (the first scan still to come), the
    /// uninstalled-only filter, sorting by name with each column in its
    /// default direction, and the given Steam directories.
    pub fn new(default_roots: Vec<String>, extra_dirs: Vec<String>) -> (r: Self)
        ensures
            r.prefixes@ == Seq::<WinePrefix>::empty(),
            r.filtered_indices@ == Seq::<usize>::empty(),
            r.selected == 0,
            r.scroll_offset == 0,
            r.mode == AppMode::Startup,
            r.filter_mode == FilterMode::UninstalledOnly,
            r.filter_text@ == Seq::<char>::empty(),
            r.default_roots == default_roots,
            r.custom_roots == extra_dirs,
            r.status_message is None,
            r.total_deleted_bytes == 0,
            r.sort_col == SortColumn::Name,
            forall|c: SortColumn| ascending(r.col_asc, c) == default_ascending(c),
            r.dir_modal is None,
            r.selection@ == Seq::<usize>::empty(),
            r.selection.wf(),
            r.shift_anchor == 0,
            r.drag_anchor is None,
            r.last_click is None,
    {
        AppState {
            prefixes: Vec::new(),
            filtered_indices: Vec::new(),
            selected: 0,
            scroll_offset: 0,
            mode: AppMode::Startup,
            filter_mode: FilterMode::UninstalledOnly,
            filter_text: String::new(),
            default_roots,
            custom_roots: extra_dirs,
            status_message: None,
            total_deleted_bytes: 0,
            sort_col: SortColumn::Name,
            col_asc: ColumnOrder::defaults(),
            dir_modal: None,
            selection: IndexSet::new(),
            shift_anchor: 0,
            drag_anchor: None,
            last_click: None,
        }
    }

    /// The default roots, then the custom roots not among them.
    fn merge_roots(defaults: &Vec<String>, custom: &Vec<String>) -> (r: Vec<String>)
        ensures
            r.deep_view() == merged_roots(defaults.deep_view(), custom.deep_view()),
    {
        let mut all = defaults.clone();
        assert(all.deep_view() =~= defaults.deep_view());
        let mut i: usize = 0;
        while i < custom.len()
            invariant
                i <= custom.len(),
                all.deep_view() == merged_roots(defaults.deep_view(), custom.deep_view().take(i as int)),
            decreases custom.len() - i,
        {
            assert(custom.deep_view().take(i + 1).drop_last() =~= custom.deep_view().take(i as int));
            assert(custom.deep_view().take(i + 1).last() == custom@[i as int]@);
            if !contains_path(&all, &custom[i]) {
                let ghost a0 = all.deep_view();
                all.push(custom[i].clone());
                assert(all.deep_view() =~= a0.push(custom@[i as int]@));
            }
            i = i + 1;
        }
        assert(custom.deep_view().take(custom.len() as int) =~= custom.deep_view());
        all
    }

    /// All Steam roots: the defaults, then the custom ones not among them.
    pub fn all_roots(&self) -> (r: Vec<String>)
        ensures
            r.deep_view() == merged_roots(self.default_roots.deep_view(), self.custom_roots.deep_view()),
    {
        Self::merge_roots(&self.default_roots, &self.custom_roots)
    }

    /// Whether the current sort column sorts ascending.
    pub fn sort_asc(&self) -> (r: bool)
        ensures
            r == ascending(self.col_asc, self.sort_col),
    {
        *self.col_asc.get(&self.sort_col).unwrap()
    }

    /// Recomputes the listing from the prefixes, the filter and the sort
    /// order, and keeps the cursor inside it.
    pub fn apply_sort_and_filter(&mut self)
        ensures
            shows_listing(*final(self)),
            old(self).filter_text@.len() == 0 ==> forall|x: usize|
                #[trigger] final(self).filtered_indices@.contains(x) <==> (x < old(self).prefixes.len()
                    && mode_admits(old(self).filter_mode, old(self).prefixes@[x as int])),
            final(self).selected == clamp_cursor(old(self).selected, final(self).filtered_indices.len() as nat),
            *final(self) == (AppState {
                filtered_indices: final(self).filtered_indices,
                selected: final(self).selected,
                ..*old(self)
            }),
    {
        let text = to_lowercase(self.filter_text.as_str());
        let text_chars = to_chars(text.as_str());
        let col = self.sort_col;
        let asc = self.sort_asc();
        let ghost ps = self.prefixes@;
        let n = self.prefixes.len();
        let mut items: Vec<usize> = Vec::new();
        let mut texts: Vec<Vec<char>> = Vec::new();
        let mut nums: Vec<u64> = Vec::new();
        let mut i: usize = 0;
        while i < n
            invariant
                i <= n,
                n == self.prefixes.len(),
                ps == self.prefixes@,
                col == self.sort_col,
                text_chars@ == lowercase(self.filter_text@),
                texts.len() == i,
                nums.len() == i,
                forall|k: int| 0 <= k < i ==> (#[trigger] texts@[k])@ == sort_text(ps[k], col),
                forall|k: int| 0 <= k < i ==> #[trigger] nums@[k] == sort_num(ps[k], col),
                increasing(items@),
                forall|k: int| 0 <= k < items.len() ==> items@[k] < i,
                forall|x: usize|
                    items@.contains(x) <==> (x < i && mode_admits(self.filter_mode, ps[x as int])
                        && text_admits(self.filter_text@, ps[x as int])),
            decreases n - i,
        {
            let p = &self.prefixes[i];
            let name = p.game_name();
            let lower = to_lowercase(name.as_str());
            let name_chars = to_chars(lower.as_str());
            let mode_ok = match self.filter_mode {
                FilterMode::All => true,
                FilterMode::UninstalledOnly => !p.is_installed(),
            };
            let text_ok = text_chars.len() == 0 || contains_chars(&name_chars, &text_chars)
                || contains_chars(&decimal_chars(p.app_id), &text_chars);
            let ghost items0 = items@;
            if mode_ok && text_ok {
                items.push(i);
            }
            assert forall|x: usize|
                items@.contains(x) <==> (x < i + 1 && mode_admits(self.filter_mode, ps[x as int])
                    && text_admits(self.filter_text@, ps[x as int])) by {
                if items@.contains(x) && x != i {
                    let k = choose|k: int| 0 <= k < items@.len() && items@[k] == x;
                    assert(items0[k] == x);
                }
                if x < i && items0.contains(x) {
                    let k = choose|k: int| 0 <= k < items0.len() && items0[k] == x;
                    assert(items@[k] == x);
                }
                if x == i && mode_ok && text_ok {
                    assert(items@[items@.len() - 1] == x);
                }
                if items0.contains(x) {
                    let k = choose|k: int| 0 <= k < items0.len() && items0[k] == x;
                }
            }
            let key_text = match col {
                SortColumn::Name => name_chars,
                _ => Vec::new(),
            };
            texts.push(key_text);
            let key_num: u64 = match col {
                SortColumn::Name => 0,
                SortColumn::AppId => p.app_id,
                SortColumn::Size => p.size_bytes,
                SortColumn::Installed => if p.is_installed() {
                    1
                } else {
                    0
                },
                SortColumn::Cloud => if p.has_cloud_saves() {
                    1
                } else {
                    0
                },
            };
            nums.push(key_num);
            i = i + 1;
        }
        assert(char_rows(texts@) =~= column_texts(ps, col));
        assert(nums@ =~= column_nums(ps, col));
        assert(items@.no_duplicates()) by {
            assert forall|a: int, b: int| 0 <= a < items@.len() && 0 <= b < items@.len() && a != b implies items@[a] != items@[b] by {
                if a < b {
                    assert(items@[a] < items@[b]);
                } else {
                    assert(items@[b] < items@[a]);
                }
            }
        }
        let sorted = sort_rows(&items, &texts, &nums, asc);
        self.filtered_indices = sorted;
        let len = self.filtered_indices.len();
        if self.selected >= len {
            self.selected = if len > 0 {
                len - 1
            } else {
                0
            };
        }
    }
}

impl AppState {
    /// Types `c` at the end of the filter text and recomputes the listing.
    pub fn filter_push(&mut self, c: char)
        ensures
            final(self).filter_text@ == old(self).filter_text@.push(c),
            shows_listing(*final(self)),
            final(self).selected == clamp_cursor(old(self).selected, final(self).filtered_indices.len() as nat),
            *final(self) == (AppState {
                filter_text: final(self).filter_text,
                filtered_indices: final(self).filtered_indices,
                selected: final(self).selected,
                ..*old(self)
            }),
    {
        push_char(&mut self.filter_text, c);
        self.apply_sort_and_filter();
    }

    /// Backspace in the filter: drops the last character, if any, and
    /// recomputes the listing.
    pub fn filter_pop(&mut self)
        ensures
            old(self).filter_text@.len() > 0 ==> final(self).filter_text@ == old(self).filter_text@.drop_last(),
            old(self).filter_text@.len() == 0 ==> final(self).filter_text@ == old(self).filter_text@,
            shows_listing(*final(self)),
            final(self).selected == clamp_cursor(old(self).selected, final(self).filtered_indices.len() as nat),
            *final(self) == (AppState {
                filter_text: final(self).filter_text,
                filtered_indices: final(self).filtered_indices,
                selected: final(self).selected,
                ..*old(self)
            }),
    {
        self.filter_text = without_last_char(self.filter_text.as_str());
        self.apply_sort_and_filter();
    }

    /// Leaves the filter: the text is cleared, the listing recomputed (every
    /// prefix the filter mode admits), and the mode goes back to normal.
    pub fn filter_cancel(&mut self)
        ensures
            final(self).filter_text@ == Seq::<char>::empty(),
            final(self).mode == AppMode::Normal,
            shows_listing(*final(self)),
            forall|x: usize|
                #[trigger] final(self).filtered_indices@.contains(x) <==> (x < old(self).prefixes.len()
                    && mode_admits(old(self).filter_mode, old(self).prefixes@[x as int])),
            final(self).selected == clamp_cursor(old(self).selected, final(self).filtered_indices.len() as nat),
            *final(self) == (AppState {
                filter_text: final(self).filter_text,
                filtered_indices: final(self).filtered_indices,
                selected: final(self).selected,
                mode: AppMode::Normal,
                ..*old(self)
            }),
    {
        self.filter_text = String::new();
        self.apply_sort_and_filter();
        self.mode = AppMode::Normal;
    }
}

impl AppState {
    /// The prefix under the cursor.
    pub fn selected_prefix(&self) -> (r: Option<&WinePrefix>)
        ensures
            (self.selected < self.filtered_indices.len() && self.filtered_indices@[self.selected as int]
                < self.prefixes.len()) ==> r == Some(
                &self.prefixes@[self.filtered_indices@[self.selected as int] as int],
            ),
            !(self.selected < self.filtered_indices.len() && self.filtered_indices@[self.selected as int]
                < self.prefixes.len()) ==> r is None,
    {
        if self.selected < self.filtered_indices.len() {
            let i = self.filtered_indices[self.selected];
            if i < self.prefixes.len() {
                return Some(&self.prefixes[i]);
            }
        }
        None
    }

    /// Moves the cursor one row up (scrolling to keep it visible), and
    /// drops the selection, anchoring shift-selection at the cursor.
    pub fn move_up(&mut self)
        ensures
            final(self).selected == (if old(self).selected > 0 {
                (old(self).selected - 1) as usize
            } else {
                old(self).selected
            }),
            final(self).scroll_offset == (if old(self).selected > 0 && old(self).selected - 1
                < old(self).scroll_offset {
                (old(self).selected - 1) as usize
            } else {
                old(self).scroll_offset
            }),
            final(self).selection@ == Seq::<usize>::empty(),
            final(self).selection.wf(),
            final(self).shift_anchor == final(self).selected,
            *final(self) == (AppState {
                selected: final(self).selected,
                scroll_offset: final(self).scroll_offset,
                selection: final(self).selection,
                shift_anchor: final(self).shift_anchor,
                ..*old(self)
            }),
    {
        self.cursor_up();
        self.selection.clear();
        self.shift_anchor = self.selected;
    }

    /// Moves the cursor one row down, when there is a row below, scrolling
    /// so that it stays within the `visible_height` rows shown; drops the
    /// selection, anchoring shift-selection at the cursor.
    pub fn move_down(&mut self, visible_height: usize)
        ensures
            final(self).selected == cursor_down_of(old(self).selected, old(self).filtered_indices.len() as nat),
            final(self).scroll_offset == scroll_down_of(
                old(self).selected,
                old(self).scroll_offset,
                old(self).filtered_indices.len() as nat,
                visible_height,
            ),
            final(self).selection@ == Seq::<usize>::empty(),
            final(self).selection.wf(),
            final(self).shift_anchor == final(self).selected,
            *final(self) == (AppState {
                selected: final(self).selected,
                scroll_offset: final(self).scroll_offset,
                selection: final(self).selection,
                shift_anchor: final(self).shift_anchor,
                ..*old(self)
            }),
    {
        self.cursor_down(visible_height);
        self.selection.clear();
        self.shift_anchor = self.selected;
    }

    /// Moves the cursor `rows` rows up (stopping at the top row), scrolling to
    /// keep it visible, and drops the selection, anchoring shift-selection at
    /// the cursor. A page of one row is `move_up`.
    pub fn page_up(&mut self, rows: usize)
        ensures
            final(self).selected == page_up_cursor(old(self).selected, rows),
            final(self).scroll_offset == page_up_scroll(old(self).selected, old(self).scroll_offset, rows),
            final(self).selection@ == Seq::<usize>::empty(),
            final(self).shift_anchor == final(self).selected,
            *final(self) == (AppState {
                selected: final(self).selected,
                scroll_offset: final(self).scroll_offset,
                selection: final(self).selection,
                shift_anchor: final(self).shift_anchor,
                ..*old(self)
            }),
    {
        let c = if self.selected >= rows {
            self.selected - rows
        } else {
            0
        };
        if c < self.selected && c < self.scroll_offset {
            self.scroll_offset = c;
        }
        self.selected = c;
        self.selection.clear();
        self.shift_anchor = self.selected;
    }

    /// Moves the cursor `rows` rows down (stopping at the last row), so that
    /// it stays within the `visible_height` rows shown, and drops the
    /// selection, anchoring shift-selection at the cursor. A page of one row
    /// is `move_down`.
    pub fn page_down(&mut self, rows: usize, visible_height: usize)
        ensures
            final(self).selected == page_down_cursor(old(self).selected, old(self).filtered_indices.len() as nat, rows),
            final(self).scroll_offset == page_down_scroll(
                old(self).selected,
                old(self).scroll_offset,
                old(self).filtered_indices.len() as nat,
                rows,
                visible_height,
            ),
            final(self).selection@ == Seq::<usize>::empty(),
            final(self).shift_anchor == final(self).selected,
            *final(self) == (AppState {
                selected: final(self).selected,
                scroll_offset: final(self).scroll_offset,
                selection: final(self).selection,
                shift_anchor: final(self).shift_anchor,
                ..*old(self)
            }),
    {
        let len = self.filtered_indices.len();
        if len > 0 && self.selected < len - 1 {
            let room = len - 1 - self.selected;
            let step = if rows < room {
                rows
            } else {
                room
            };
            let c = self.selected + step;
            if step > 0 && c >= self.scroll_offset && c - self.scroll_offset >= visible_height {
                self.scroll_offset = c - visible_height + 1;
            }
            self.selected = c;
        }
        self.selection.clear();
        self.shift_anchor = self.selected;
    }

    /// Moves the cursor one row up and selects the rows from the shift
    /// anchor to the cursor.
    pub fn extend_up(&mut self)
        ensures
            final(self).selected == (if old(self).selected > 0 {
                (old(self).selected - 1) as usize
            } else {
                old(self).selected
            }),
            final(self).scroll_offset == (if old(self).selected > 0 && old(self).selected - 1
                < old(self).scroll_offset {
                (old(self).selected - 1) as usize
            } else {
                old(self).scroll_offset
            }),
            final(self).selection.wf(),
            final(self).selection@.to_set() == rows_between(
                old(self).filtered_indices@,
                min_usize(old(self).shift_anchor, final(self).selected) as int,
                max_usize(old(self).shift_anchor, final(self).selected) as int,
            ),
            *final(self) == (AppState {
                selected: final(self).selected,
                scroll_offset: final(self).scroll_offset,
                selection: final(self).selection,
                ..*old(self)
            }),
    {
        self.cursor_up();
        self.apply_shift_selection();
    }

    /// Moves the cursor one row down, when there is a row below, and selects
    /// the rows from the shift anchor to the cursor.
    pub fn extend_down(&mut self, visible_height: usize)
        ensures
            final(self).selected == cursor_down_of(old(self).selected, old(self).filtered_indices.len() as nat),
            final(self).scroll_offset == scroll_down_of(
                old(self).selected,
                old(self).scroll_offset,
                old(self).filtered_indices.len() as nat,
                visible_height,
            ),
            final(self).selection.wf(),
            final(self).selection@.to_set() == rows_between(
                old(self).filtered_indices@,
                min_usize(old(self).shift_anchor, final(self).selected) as int,
                max_usize(old(self).shift_anchor, final(self).selected) as int,
            ),
            *final(self) == (AppState {
                selected: final(self).selected,
                scroll_offset: final(self).scroll_offset,
                selection: final(self).selection,
                ..*old(self)
            }),
    {
        self.cursor_down(visible_height);
        self.apply_shift_selection();
    }

    fn cursor_up(&mut self)
        ensures
            final(self).selected == (if old(self).selected > 0 {
                (old(self).selected - 1) as usize
            } else {
                old(self).selected
            }),
            final(self).scroll_offset == (if old(self).selected > 0 && old(self).selected - 1
                < old(self).scroll_offset {
                (old(self).selected - 1) as usize
            } else {
                old(self).scroll_offset
            }),
            *final(self) == (AppState {
                selected: final(self).selected,
                scroll_offset: final(self).scroll_offset,
                ..*old(self)
            }),
    {
        if self.selected > 0 {
            self.selected = self.selected - 1;
            if self.selected < self.scroll_offset {
                self.scroll_offset = self.selected;
            }
        }
    }

    fn cursor_down(&mut self, visible_height: usize)
        ensures
            final(self).selected == cursor_down_of(old(self).selected, old(self).filtered_indices.len() as nat),
            final(self).scroll_offset == scroll_down_of(
                old(self).selected,
                old(self).scroll_offset,
                old(self).filtered_indices.len() as nat,
                visible_height,
            ),
            *final(self) == (AppState {
                selected: final(self).selected,
                scroll_offset: final(self).scroll_offset,
                ..*old(self)
            }),
    {
        let len = self.filtered_indices.len();
        if len > 0 && self.selected < len - 1 {
            self.selected = self.selected + 1;
            if self.selected >= self.scroll_offset && self.selected - self.scroll_offset
                >= visible_height {
                self.scroll_offset = self.selected - visible_height + 1;
            }
        }
    }

    /// Selects the prefixes at the display rows from the shift anchor to the
    /// cursor.
    fn apply_shift_selection(&mut self)
        ensures
            final(self).selection.wf(),
            final(self).selection@.to_set() == rows_between(
                old(self).filtered_indices@,
                min_usize(old(self).shift_anchor, old(self).selected) as int,
                max_usize(old(self).shift_anchor, old(self).selected) as int,
            ),
            *final(self) == (AppState { selection: final(self).selection, ..*old(self) }),
    {
        let lo = if self.shift_anchor < self.selected {
            self.shift_anchor
        } else {
            self.selected
        };
        let hi = if self.shift_anchor < self.selected {
            self.selected
        } else {
            self.shift_anchor
        };
        self.selection = range_selection(&self.filtered_indices, lo, hi);
    }

    /// Toggles the prefix at display row `display_idx` in the selection
    /// (ctrl-click). An empty selection first takes in the prefix under the
    /// cursor. The cursor and shift anchor move to the row, except when the
    /// toggle leaves other prefixes selected after a removal.
    pub fn ctrl_toggle(&mut self, display_idx: usize)
        ensures
            final(self).selection.wf(),
            display_idx >= old(self).filtered_indices.len() ==> *final(self) == *old(self),
            display_idx < old(self).filtered_indices.len() ==> {
                let f = old(self).filtered_indices@;
                let s0 = old(self).selection@.to_set();
                let s1 = if old(self).selection@.len() == 0 && old(self).selected < f.len() {
                    set![f[old(self).selected as int]]
                } else {
                    s0
                };
                let toggled = f[display_idx as int];
                let moved = !s1.contains(toggled) || s1.remove(toggled).is_empty();
                &&& final(self).selection@.to_set() == (if s1.contains(toggled) {
                    s1.remove(toggled)
                } else {
                    s1.insert(toggled)
                })
                &&& final(self).selected == (if moved {
                    display_idx
                } else {
                    old(self).selected
                })
                &&& final(self).shift_anchor == (if moved {
                    display_idx
                } else {
                    old(self).shift_anchor
                })
                &&& *final(self) == (AppState {
                    selection: final(self).selection,
                    selected: final(self).selected,
                    shift_anchor: final(self).shift_anchor,
                    ..*old(self)
                })
            },
    {
        proof {
            use_type_invariant(&self.selection);
        }
        if display_idx >= self.filtered_indices.len() {
            return;
        }
        let ghost f = self.filtered_indices@;
        let ghost s0 = self.selection@.to_set();
        let real_idx = self.filtered_indices[display_idx];
        if self.selection.is_empty() {
            if self.selected < self.filtered_indices.len() {
                let cursor_real = self.filtered_indices[self.selected];
                self.selection.insert(cursor_real);
            }
        }
        let ghost s1 = self.selection@.to_set();
        assert(s1 =~= (if old(self).selection@.len() == 0 && old(self).selected < f.len() {
            set![f[old(self).selected as int]]
        } else {
            s0
        }));
        if self.selection.contains(&real_idx) {
            self.selection.remove(&real_idx);
            assert(self.selection@.to_set() =~= s1.remove(real_idx));
            if self.selection.is_empty() {
                assert(s1.remove(real_idx) =~= Set::<usize>::empty());
                self.selected = display_idx;
                self.shift_anchor = display_idx;
            } else {
                assert(self.selection@.contains(self.selection@[0]));
                assert(s1.remove(real_idx).contains(self.selection@[0]));
                assert(!s1.remove(real_idx).is_empty());
            }
        } else {
            self.selection.insert(real_idx);
            assert(self.selection@.to_set() =~= s1.insert(real_idx));
            self.selected = display_idx;
            self.shift_anchor = display_idx;
        }
    }

    /// Starts a mouse drag at display row `display_idx`: the cursor, shift
    /// anchor and drag anchor go there and only that row's prefix is
    /// selected.
    pub fn drag_start(&mut self, display_idx: usize)
        ensures
            display_idx >= old(self).filtered_indices.len() ==> *final(self) == *old(self),
            display_idx < old(self).filtered_indices.len() ==> {
                &&& final(self).selection.wf()
                &&& final(self).selection@.to_set() == set![old(self).filtered_indices@[display_idx as int]]
                &&& *final(self) == (AppState {
                    selection: final(self).selection,
                    selected: display_idx,
                    shift_anchor: display_idx,
                    drag_anchor: Some(display_idx),
                    ..*old(self)
                })
            },
    {
        if display_idx >= self.filtered_indices.len() {
            return;
        }
        self.selection.clear();
        self.selected = display_idx;
        self.shift_anchor = display_idx;
        self.drag_anchor = Some(display_idx);
        self.apply_shift_selection();
        proof {
            let f = old(self).filtered_indices@;
            assert(rows_between(f, display_idx as int, display_idx as int) =~= set![f[display_idx as int]]);
        }
    }

    /// Drags to display row `display_idx`: the cursor goes there and the
    /// rows between the drag anchor and it are selected. Nothing happens
    /// past the list or without a drag anchor.
    pub fn drag_to(&mut self, display_idx: usize)
        ensures
            (display_idx >= old(self).filtered_indices.len() || old(self).drag_anchor is None) ==> *final(self) == *old(self),
            (display_idx < old(self).filtered_indices.len() && old(self).drag_anchor is Some) ==> {
                let anchor = old(self).drag_anchor->0;
                &&& final(self).selection.wf()
                &&& final(self).selection@.to_set() == rows_between(
                    old(self).filtered_indices@,
                    min_usize(anchor, display_idx) as int,
                    max_usize(anchor, display_idx) as int,
                )
                &&& *final(self) == (AppState {
                    selection: final(self).selection,
                    selected: display_idx,
                    ..*old(self)
                })
            },
    {
        if display_idx >= self.filtered_indices.len() {
            return;
        }
        let anchor = match self.drag_anchor {
            Some(a) => a,
            None => return ,
        };
        self.selected = display_idx;
        let lo = if anchor < display_idx {
            anchor
        } else {
            display_idx
        };
        let hi = if anchor < display_idx {
            display_idx
        } else {
            anchor
        };
        self.selection = range_selection(&self.filtered_indices, lo, hi);
    }

    /// The prefixes an action applies to, in increasing index order: the
    /// selection, or else the prefix under the cursor.
    pub fn effective_selection(&self) -> (r: Vec<usize>)
        ensures
            r@ == effective_of(*self),
            increasing(r@),
    {
        proof {
            use_type_invariant(&self.selection);
        }
        if self.selection.is_empty() {
            let mut v: Vec<usize> = Vec::new();
            if self.selected < self.filtered_indices.len() {
                v.push(self.filtered_indices[self.selected]);
            }
            assert(v@ =~= effective_of(*self));
            v
        } else {
            self.selection.to_vec()
        }
    }

    /// Whether any prefix the action applies to has no cloud saves.
    pub fn any_selected_unsafe(&self) -> (r: bool)
        requires
            forall|k: int| 0 <= k < effective_of(*self).len() ==> #[trigger] effective_of(*self)[k] < self.prefixes.len(),
        ensures
            r == selection_unsafe(*self),
    {
        let sel = self.effective_selection();
        let mut k: usize = 0;
        while k < sel.len()
            invariant
                k <= sel.len(),
                sel@ == effective_of(*self),
                forall|j: int| 0 <= j < sel.len() ==> #[trigger] sel@[j] < self.prefixes.len(),
                forall|j: int| 0 <= j < k ==> cloud_of(#[trigger] self.prefixes@[sel@[j] as int]),
            decreases sel.len() - k,
        {
            if !self.prefixes[sel[k]].has_cloud_saves() {
                return true;
            }
            k = k + 1;
        }
        false
    }
}

/// The next cursor row going down: one further when there is a row below.
pub open spec fn cursor_down_of(sel: usize, len: nat) -> usize {
    if sel + 1 < len {
        (sel + 1) as usize
    } else {
        sel
    }
}

/// The scroll offset after going down: the cursor's row is kept among the
/// `height` rows from the offset on.
pub open spec fn scroll_down_of(sel: usize, scroll: usize, len: nat, height: usize) -> usize {
    if sel + 1 < len && sel + 1 >= scroll + height {
        (sel + 1 + 1 - height) as usize
    } else {
        scroll
    }
}

/// The cursor after going up `rows` rows, stopping at the top row.
pub open spec fn page_up_cursor(sel: usize, rows: usize) -> usize {
    if sel >= rows {
        (sel - rows) as usize
    } else {
        0
    }
}

/// The scroll offset after going up `rows` rows: the cursor's row when the
/// cursor moved above the offset.
pub open spec fn page_up_scroll(sel: usize, scroll: usize, rows: usize) -> usize {
    let c = page_up_cursor(sel, rows);
    if c < sel && c < scroll {
        c
    } else {
        scroll
    }
}

/// The cursor after going down `rows` rows in a list of `len`, stopping at
/// the last row (it does not move when it is on or past the last row).
pub open spec fn page_down_cursor(sel: usize, len: nat, rows: usize) -> usize {
    if sel + 1 < len {
        if sel + rows < len {
            (sel + rows) as usize
        } else {
            (len - 1) as usize
        }
    } else {
        sel
    }
}

/// The scroll offset after going down `rows` rows: when the cursor moved
/// past the `height` rows shown, its row becomes the last one shown.
pub open spec fn page_down_scroll(sel: usize, scroll: usize, len: nat, rows: usize, height: usize) -> usize {
    let c = page_down_cursor(sel, len, rows);
    if c > sel && c >= scroll + height {
        (c + 1 - height) as usize
    } else {
        scroll
    }
}

/// Going a page of one row is one step of the cursor, up or down.
pub proof fn lemma_one_row_page_is_a_step(sel: usize, scroll: usize, len: nat, height: usize)
    requires
        len <= usize::MAX,
    ensures
        page_down_cursor(sel, len, 1) == cursor_down_of(sel, len),
        page_down_scroll(sel, scroll, len, 1, height) == scroll_down_of(sel, scroll, len, height),
        page_up_cursor(sel, 1) == (if sel > 0 {
            (sel - 1) as usize
        } else {
            sel
        }),
        page_up_scroll(sel, scroll, 1) == (if sel > 0 && sel - 1 < scroll {
            (sel - 1) as usize
        } else {
            scroll
        }),
{
}

/// Paging keeps the cursor on screen and on a listed row.
pub proof fn lemma_pages_keep_cursor_visible(sel: usize, scroll: usize, len: nat, rows: usize, height: usize)
    requires
        height > 0,
        len <= usize::MAX,
        cursor_visible(sel, scroll, height),
    ensures
        cursor_visible(page_down_cursor(sel, len, rows), page_down_scroll(sel, scroll, len, rows, height), height),
        cursor_visible(page_up_cursor(sel, rows), page_up_scroll(sel, scroll, rows), height),
        cursor_inside(sel, len) ==> cursor_inside(page_down_cursor(sel, len, rows), len),
{
}

/// The cursor is on a listed row, or at the top of an empty listing.
pub open spec fn cursor_inside(sel: usize, len: nat) -> bool {
    sel < len || (len == 0 && sel == 0)
}

/// The row at the cursor is among the `height` rows shown from `scroll` on.
pub open spec fn cursor_visible(sel: usize, scroll: usize, height: usize) -> bool {
    scroll <= sel < scroll + height
}

/// After the listing is recomputed, after a deletion and after moving down,
/// the cursor is on a listed row (or at the top of an empty listing).
pub proof fn lemma_cursor_stays_inside(sel: usize, len: nat)
    ensures
        cursor_inside(clamp_cursor(sel, len), len),
        cursor_inside(cursor_after_delete(sel, len), len),
        cursor_inside(sel, len) ==> cursor_inside(cursor_down_of(sel, len), len),
{
}

/// Moving the cursor up or down keeps its row on screen.
pub proof fn lemma_moves_keep_cursor_visible(sel: usize, scroll: usize, len: nat, height: usize)
    requires
        height > 0,
        len <= usize::MAX,
        cursor_visible(sel, scroll, height),
    ensures
        cursor_visible(
            cursor_down_of(sel, len),
            scroll_down_of(sel, scroll, len, height),
            height,
        ),
        sel > 0 ==> cursor_visible(
            (sel - 1) as usize,
            if sel - 1 < scroll {
                (sel - 1) as usize
            } else {
                scroll
            },
            height,
        ),
{
}

/// The set of the prefixes at display rows `lo..=hi`.
fn range_selection(f: &Vec<usize>, lo: usize, hi: usize) -> (r: IndexSet)
    requires
        lo <= hi,
    ensures
        r.wf(),
        r@.to_set() == rows_between(f@, lo as int, hi as int),
{
    let mut set = IndexSet::new();
    let end: usize = if hi < f.len() {
        hi + 1
    } else {
        f.len()
    };
    let mut d = lo;
    assert(set@.to_set() =~= rows_between(f@, lo as int, lo - 1));
    while d < end
        invariant
            lo <= d,
            d == lo || d <= end,
            end <= f.len(),
            end == (if hi < f.len() { hi + 1 } else { f.len() as int }),
            set.wf(),
            set@.to_set() == rows_between(f@, lo as int, d - 1),
        decreases end - d,
    {
        let ghost s0 = set@.to_set();
        set.insert(f[d]);
        assert(set@.to_set() =~= rows_between(f@, lo as int, d as int)) by {
            assert forall|x: usize| set@.to_set().contains(x) <==> rows_between(f@, lo as int, d as int).contains(x) by {
                if set@.contains(x) && x != f@[d as int] {
                    assert(s0.contains(x));
                }
                if rows_between(f@, lo as int, d as int).contains(x) {
                    let dd = choose|dd: int| lo <= dd <= d && 0 <= dd < f@.len() && f@[dd] == x;
                    if dd < d {
                        assert(rows_between(f@, lo as int, d - 1).contains(x));
                    }
                }
                if x == f@[d as int] {
                    assert(set@.contains(x));
                }
            }
        }
        d = d + 1;
    }
    assert(set@.to_set() =~= rows_between(f@, lo as int, hi as int)) by {
        assert forall|x: usize| rows_between(f@, lo as int, hi as int).contains(x) <==> rows_between(f@, lo as int, d - 1).contains(x) by {
            if rows_between(f@, lo as int, hi as int).contains(x) {
                let dd = choose|dd: int| lo <= dd <= hi && 0 <= dd < f@.len() && f@[dd] == x;
                assert(lo <= dd <= d - 1 && 0 <= dd < f@.len() && f@[dd] == x);
            }
            if rows_between(f@, lo as int, d - 1).contains(x) {
                let dd = choose|dd: int| lo <= dd <= d - 1 && 0 <= dd < f@.len() && f@[dd] == x;
                assert(lo <= dd <= hi && 0 <= dd < f@.len() && f@[dd] == x);
            }
        }
    }
    set
}

/// The prefixes whose path is among `existing`, in order.
pub open spec fn still_present(ps: Seq<WinePrefix>, existing: Seq<Seq<char>>) -> Seq<WinePrefix>
    decreases ps.len(),
{
    if ps.len() == 0 {
        Seq::empty()
    } else {
        let acc = still_present(ps.drop_last(), existing);
        if existing.contains(ps.last().path@) {
            acc.push(ps.last())
        } else {
            acc
        }
    }
}

/// `s` without the entries equal to `x`.
pub open spec fn without(s: Seq<Seq<char>>, x: Seq<char>) -> Seq<Seq<char>>
    decreases s.len(),
{
    if s.len() == 0 {
        Seq::empty()
    } else {
        let acc = without(s.drop_last(), x);
        if same_path(s.last(), x) {
            acc
        } else {
            acc.push(s.last())
        }
    }
}

/// The queue of deletions lists the prefixes of `sel`: path, game name and
/// size of each, in order.
pub open spec fn pending_matches(pending: Seq<PendingDelete>, sel: Seq<usize>, ps: Seq<WinePrefix>) -> bool {
    &&& pending.len() == sel.len()
    &&& forall|k: int|
        0 <= k < sel.len() ==> {
            &&& (#[trigger] pending[k]).0@ == ps[sel[k] as int].path@
            &&& pending[k].1@ == game_name_of(ps[sel[k] as int])
            &&& pending[k].2 == ps[sel[k] as int].size_bytes
        }
}

/// The bytes the queued deletions hold, in all.
pub open spec fn queue_bytes(pending: Seq<PendingDelete>) -> nat
    decreases pending.len(),
{
    if pending.len() == 0 {
        0
    } else {
        pending[0].2 as nat + queue_bytes(pending.drop_first())
    }
}

/// Some prefix the action applies to has no cloud saves.
pub open spec fn selection_unsafe(s: AppState) -> bool {
    exists|k: int|
        0 <= k < effective_of(s).len() && !cloud_of(#[trigger] s.prefixes@[effective_of(s)[k] as int])
}

/// `after` is `before` with the deletion of the prefixes the action applies
/// to started: the mode is `Deleting`, with their path, name and size queued
/// in order and the first one's name shown (empty when there is none).
pub open spec fn deletion_started(before: AppState, after: AppState) -> bool {
    let sel = effective_of(before);
    &&& after.mode matches AppMode::Deleting { pending, current } && pending_matches(
        pending@,
        sel,
        before.prefixes@,
    ) && current@ == (if sel.len() > 0 {
        game_name_of(before.prefixes@[sel[0] as int])
    } else {
        Seq::<char>::empty()
    })
    &&& after == (AppState { mode: after.mode, ..before })
}

/// The cursor after a deletion: kept inside the list, then one row up when
/// it is still past the end.
pub open spec fn cursor_after_delete(sel: usize, len: nat) -> usize {
    let c = clamp_cursor(sel, len);
    if c >= len && c > 0 {
        (c - 1) as usize
    } else {
        c
    }
}

impl AppState {
    /// Sorts by `col`; choosing the current column again reverses its
    /// direction.
    pub fn sort_by_col(&mut self, col: SortColumn)
        ensures
            final(self).sort_col == col,
            final(self).col_asc == (if old(self).sort_col == col {
                flipped(old(self).col_asc, col)
            } else {
                old(self).col_asc
            }),
            shows_listing(*final(self)),
            final(self).selected == clamp_cursor(old(self).selected, final(self).filtered_indices.len() as nat),
            *final(self) == (AppState {
                sort_col: col,
                col_asc: final(self).col_asc,
                filtered_indices: final(self).filtered_indices,
                selected: final(self).selected,
                ..*old(self)
            }),
    {
        if self.sort_col == col {
            self.col_asc.toggle(col);
        } else {
            self.sort_col = col;
        }
        self.apply_sort_and_filter();
    }

    /// Reverses the direction of the current sort column.
    pub fn reverse_sort(&mut self)
        ensures
            final(self).col_asc == flipped(old(self).col_asc, old(self).sort_col),
            shows_listing(*final(self)),
            final(self).selected == clamp_cursor(old(self).selected, final(self).filtered_indices.len() as nat),
            *final(self) == (AppState {
                col_asc: final(self).col_asc,
                filtered_indices: final(self).filtered_indices,
                selected: final(self).selected,
                ..*old(self)
            }),
    {
        let col = self.sort_col;
        self.col_asc.toggle(col);
        self.apply_sort_and_filter();
    }

    /// Switches between showing all prefixes and the uninstalled ones only,
    /// and goes back to the top of the list.
    pub fn toggle_filter_mode(&mut self)
        ensures
            final(self).filter_mode == other_filter(old(self).filter_mode),
            shows_listing(*final(self)),
            final(self).selected == 0,
            final(self).scroll_offset == 0,
            *final(self) == (AppState {
                filter_mode: final(self).filter_mode,
                filtered_indices: final(self).filtered_indices,
                selected: 0,
                scroll_offset: 0,
                ..*old(self)
            }),
    {
        self.filter_mode = match self.filter_mode {
            FilterMode::All => FilterMode::UninstalledOnly,
            FilterMode::UninstalledOnly => FilterMode::All,
        };
        self.apply_sort_and_filter();
        self.selected = 0;
        self.scroll_offset = 0;
    }

    /// Starts deleting the prefixes the action applies to: the mode becomes
    /// `Deleting`, with their path, name and size queued in order and the
    /// first one's name shown (empty when there is none).
    pub fn begin_delete(&mut self)
        requires
            forall|k: int|
                0 <= k < effective_of(*old(self)).len() ==> #[trigger] effective_of(*old(self))[k]
                    < old(self).prefixes.len(),
        ensures
            deletion_started(*old(self), *final(self)),
    {
        let sel = self.effective_selection();
        let mut pending: Vec<PendingDelete> = Vec::new();
        let mut k: usize = 0;
        while k < sel.len()
            invariant
                k <= sel.len(),
                sel@ == effective_of(*self),
                forall|j: int| 0 <= j < sel.len() ==> #[trigger] sel@[j] < self.prefixes.len(),
                pending_matches(pending@, sel@.take(k as int), self.prefixes@),
            decreases sel.len() - k,
        {
            let p = &self.prefixes[sel[k]];
            pending.push((p.path.clone(), p.game_name(), p.size_bytes));
            assert(sel@.take(k + 1)[k as int] == sel@[k as int]);
            assert forall|j: int| 0 <= j < k + 1 implies #[trigger] sel@.take(k + 1)[j] == sel@.take(k as int).push(sel@[k as int])[j] by {}
            k = k + 1;
        }
        assert(sel@.take(sel.len() as int) =~= sel@);
        let current = if pending.len() > 0 {
            pending[0].1.clone()
        } else {
            String::new()
        };
        self.mode = AppMode::Deleting { pending, current };
    }

    /// The user confirmed the delete dialog at `step`. A first confirmation
    /// while some prefix to delete has no cloud saves asks once more (step
    /// 2); otherwise the deletion starts (see `begin_delete`).
    pub fn confirm_delete(&mut self, step: u8)
        requires
            forall|k: int|
                0 <= k < effective_of(*old(self)).len() ==> #[trigger] effective_of(*old(self))[k]
                    < old(self).prefixes.len(),
        ensures
            (step == 1 && selection_unsafe(*old(self))) ==> *final(self) == (AppState {
                mode: AppMode::ConfirmDelete { step: 2 },
                ..*old(self)
            }),
            !(step == 1 && selection_unsafe(*old(self))) ==> deletion_started(*old(self), *final(self)),
    {
        if step == 1 && self.any_selected_unsafe() {
            self.mode = AppMode::ConfirmDelete { step: 2 };
        } else {
            self.begin_delete();
        }
    }

    /// After the queued deletions: drops the prefixes whose path is not
    /// among `existing_paths` (those still on disk), clears the selection,
    /// recomputes the listing and moves the cursor up when it is past the
    /// end; the shift anchor goes to the cursor.
    pub fn finish_delete(&mut self, existing_paths: &Vec<String>)
        ensures
            final(self).prefixes@ == still_present(old(self).prefixes@, existing_paths.deep_view()),
            final(self).selection@ == Seq::<usize>::empty(),
            final(self).selection.wf(),
            shows_listing(*final(self)),
            final(self).selected == cursor_after_delete(old(self).selected, final(self).filtered_indices.len() as nat),
            final(self).shift_anchor == final(self).selected,
            *final(self) == (AppState {
                prefixes: final(self).prefixes,
                selection: final(self).selection,
                filtered_indices: final(self).filtered_indices,
                selected: final(self).selected,
                shift_anchor: final(self).selected,
                ..*old(self)
            }),
    {
        let mut kept: Vec<WinePrefix> = Vec::new();
        let mut i: usize = 0;
        while i < self.prefixes.len()
            invariant
                i <= self.prefixes.len(),
                kept@ == still_present(self.prefixes@.take(i as int), existing_paths.deep_view()),
            decreases self.prefixes.len() - i,
        {
            assert(self.prefixes@.take(i + 1).drop_last() =~= self.prefixes@.take(i as int));
            if contains_string(existing_paths, &self.prefixes[i].path) {
                kept.push(crate::steam::copy_prefix(&self.prefixes[i]));
            }
            i = i + 1;
        }
        assert(self.prefixes@.take(self.prefixes.len() as int) =~= self.prefixes@);
        self.prefixes = kept;
        self.selection.clear();
        self.apply_sort_and_filter();
        if self.selected >= self.filtered_indices.len() && self.selected > 0 {
            self.selected = self.selected - 1;
        }
        self.shift_anchor = self.selected;
    }

    /// Opens the directory dialog, marking which of all roots are custom.
    pub fn open_dir_modal(&mut self)
        ensures
            final(self).dir_modal matches Some(m) && m.focus == crate::app_types::modal::DirModalFocus::List
                && m.selected == 0 && m.input@ == Seq::<char>::empty() && m.confirm
                == crate::app_types::modal::DirModalConfirm::Idle && m.custom_indices@ == custom_positions(
                merged_roots(old(self).default_roots.deep_view(), old(self).custom_roots.deep_view()),
                old(self).default_roots.deep_view(),
            ),
            *final(self) == (AppState {
                dir_modal: final(self).dir_modal,
                mode: AppMode::ManageDirs,
                ..*old(self)
            }),
    {
        let mut modal = DirModalState::new();
        let all = self.all_roots();
        let mut idx: Vec<usize> = Vec::new();
        let mut i: usize = 0;
        while i < all.len()
            invariant
                i <= all.len(),
                idx@ == custom_positions(all.deep_view().take(i as int), self.default_roots.deep_view()),
            decreases all.len() - i,
        {
            assert(all.deep_view().take(i + 1).drop_last() =~= all.deep_view().take(i as int));
            assert(all.deep_view().take(i + 1).last() == all@[i as int]@);
            if !contains_path(&self.default_roots, &all[i]) {
                idx.push(i);
            }
            i = i + 1;
        }
        assert(all.deep_view().take(all.len() as int) =~= all.deep_view());
        modal.custom_indices = idx;
        self.dir_modal = Some(modal);
        self.mode = AppMode::ManageDirs;
    }

    /// Adds the trimmed `path_str` as a custom Steam directory, when it is
    /// not listed yet; `path_exists` tells whether that path exists. An
    /// error names a path that does not exist. `Ok(true)` means the root was
    /// added, so the prefixes must be scanned again (`reload`).
    pub fn add_custom_root(&mut self, path_str: &str, path_exists: bool) -> (r: Result<bool, String>)
        ensures
            !path_exists ==> (r matches Err(e) && e@ == "Path does not exist: "@ + trimmed(path_str@)
                && *final(self) == *old(self)),
            path_exists ==> {
                let t = trimmed(path_str@);
                let known = has_path(old(self).custom_roots.deep_view(), t) || has_path(
                    old(self).default_roots.deep_view(),
                    t,
                );
                &&& r matches Ok(added) && added == !known
                &&& final(self).custom_roots.deep_view() == (if known {
                    old(self).custom_roots.deep_view()
                } else {
                    old(self).custom_roots.deep_view().push(t)
                })
                &&& *final(self) == (AppState { custom_roots: final(self).custom_roots, ..*old(self) })
            },
    {
        let chars = to_chars(path_str);
        let (lo, hi) = trim_bounds(&chars);
        let path = string_of_range(&chars, lo, hi);
        if !path_exists {
            let mut e = String::from_str("Path does not exist: ");
            e.append(path.as_str());
            return Err(e);
        }
        if !contains_path(&self.custom_roots, &path) && !contains_path(&self.default_roots, &path) {
            let ghost c0 = self.custom_roots.deep_view();
            self.custom_roots.push(path);
            assert(self.custom_roots.deep_view() =~= c0.push(trimmed(path_str@)));
            Ok(true)
        } else {
            Ok(false)
        }
    }

    /// Removes the custom directory at position `all_roots_index` of all
    /// roots (every custom entry equal to it). Errors for a position past the
    /// list and for a default directory. `Ok` means the prefixes must be
    /// scanned again (`reload`).
    pub fn remove_custom_root(&mut self, all_roots_index: usize) -> (r: Result<(), String>)
        ensures
            ({
                let all = merged_roots(old(self).default_roots.deep_view(), old(self).custom_roots.deep_view());
                &&& all_roots_index >= all.len() ==> (r matches Err(e) && e@ == "Invalid index"@
                    && *final(self) == *old(self))
                &&& (all_roots_index < all.len() && has_path(
                    old(self).default_roots.deep_view(),
                    all[all_roots_index as int],
                )) ==> (r matches Err(e) && e@ == "Cannot remove an auto-detected Steam directory."@
                    && *final(self) == *old(self))
                &&& (all_roots_index < all.len() && !has_path(
                    old(self).default_roots.deep_view(),
                    all[all_roots_index as int],
                )) ==> {
                    &&& r is Ok
                    &&& final(self).custom_roots.deep_view() == without(
                        old(self).custom_roots.deep_view(),
                        all[all_roots_index as int],
                    )
                    &&& *final(self) == (AppState { custom_roots: final(self).custom_roots, ..*old(self) })
                }
            }),
    {
        let all = self.all_roots();
        if all_roots_index >= all.len() {
            return Err(String::from_str("Invalid index"));
        }
        let path = all[all_roots_index].clone();
        if contains_path(&self.default_roots, &path) {
            return Err(String::from_str("Cannot remove an auto-detected Steam directory."));
        }
        let mut kept: Vec<String> = Vec::new();
        let mut i: usize = 0;
        while i < self.custom_roots.len()
            invariant
                i <= self.custom_roots.len(),
                kept.deep_view() == without(self.custom_roots.deep_view().take(i as int), path@),
            decreases self.custom_roots.len() - i,
        {
            assert(self.custom_roots.deep_view().take(i + 1).drop_last() =~= self.custom_roots.deep_view().take(i as int));
            assert(self.custom_roots.deep_view().take(i + 1).last() == self.custom_roots@[i as int]@);
            if !paths_equal(&self.custom_roots[i], &path) {
                let ghost k0 = kept.deep_view();
                kept.push(self.custom_roots[i].clone());
                assert(kept.deep_view() =~= k0.push(self.custom_roots@[i as int]@));
            }
            i = i + 1;
        }
        assert(self.custom_roots.deep_view().take(self.custom_roots.len() as int) =~= self.custom_roots.deep_view());
        self.custom_roots = kept;
        Ok(())
    }

    /// Drops every custom directory and takes `default_roots` (detected
    /// again) as the defaults; the prefixes must then be scanned again.
    pub fn reset_to_default_roots(&mut self, default_roots: Vec<String>)
        ensures
            final(self).custom_roots@ == Seq::<String>::empty(),
            *final(self) == (AppState {
                custom_roots: final(self).custom_roots,
                default_roots: default_roots,
                ..*old(self)
            }),
    {
        self.custom_roots = Vec::new();
        self.default_roots = default_roots;
    }

    /// Takes the prefixes of a new scan and recomputes the listing.
    pub fn reload(&mut self, prefixes: Vec<WinePrefix>)
        ensures
            final(self).prefixes == prefixes,
            shows_listing(*final(self)),
            final(self).selected == clamp_cursor(old(self).selected, final(self).filtered_indices.len() as nat),
            *final(self) == (AppState {
                prefixes: prefixes,
                filtered_indices: final(self).filtered_indices,
                selected: final(self).selected,
                ..*old(self)
            }),
    {
        self.prefixes = prefixes;
        self.apply_sort_and_filter();
        let len = self.filtered_indices.len();
        if self.selected >= len {
            self.selected = if len > 0 {
                len - 1
            } else {
                0
            };
        }
    }
}

impl AppState {
    /// The path of the next prefix to delete, while deleting.
    pub fn pending_delete(&self) -> (r: Option<String>)
        ensures
            match self.mode {
                AppMode::Deleting { pending, .. } => if pending.len() > 0 {
                    r matches Some(p) && p@ == pending@[0].0@
                } else {
                    r is None
                },
                _ => r is None,
            },
    {
        match &self.mode {
            AppMode::Deleting { pending, .. } => {
                if pending.len() > 0 {
                    Some(pending[0].0.clone())
                } else {
                    None
                }
            },
            _ => None,
        }
    }

    /// The next queued prefix was removed from disk: its size is added to
    /// the bytes freed, it leaves the queue, and the next one's name (if
    /// any) is shown.
    pub fn deletion_succeeded(&mut self)
        requires
            old(self).mode matches AppMode::Deleting { pending, .. } && pending.len() > 0
                && old(self).total_deleted_bytes + pending@[0].2 <= u64::MAX,
        ensures
            ({
                let (pending, current) = match old(self).mode {
                    AppMode::Deleting { pending, current } => (pending, current),
                    _ => arbitrary(),
                };
                let rest = pending@.drop_first();
                &&& final(self).total_deleted_bytes == old(self).total_deleted_bytes + pending@[0].2
                &&& final(self).total_deleted_bytes + queue_bytes(rest) == old(self).total_deleted_bytes
                    + queue_bytes(pending@)
                &&& final(self).mode matches AppMode::Deleting { pending: p2, current: c2 }
                    && p2@ == rest && c2 == (if rest.len() > 0 {
                    rest[0].1
                } else {
                    current
                })
                &&& *final(self) == (AppState {
                    total_deleted_bytes: final(self).total_deleted_bytes,
                    mode: final(self).mode,
                    ..*old(self)
                })
            }),
    {
        let mut mode = AppMode::Normal;
        std::mem::swap(&mut mode, &mut self.mode);
        match mode {
            AppMode::Deleting { mut pending, current } => {
                let size = pending[0].2;
                self.total_deleted_bytes = self.total_deleted_bytes + size;
                pending.remove(0);
                let next = if pending.len() > 0 {
                    pending[0].1.clone()
                } else {
                    current
                };
                self.mode = AppMode::Deleting { pending, current: next };
            },
            _ => {
                self.mode = mode;
            },
        }
    }

    /// Removing a prefix from disk failed: the mode becomes an error that
    /// names the path and the failure.
    pub fn deletion_failed(&mut self, path_text: &str, error_text: &str)
        ensures
            final(self).mode matches AppMode::Error(m) && m@ == "Failed to delete '"@ + path_text@
                + "': "@ + error_text@,
            *final(self) == (AppState { mode: final(self).mode, ..*old(self) }),
    {
        let mut m = String::from_str("Failed to delete '");
        m.append(path_text);
        m.append("': ");
        m.append(error_text);
        self.mode = AppMode::Error(m);
    }

    /// All queued prefixes were removed: the deletion is finished (see
    /// `finish_delete`), the mode goes back to normal and `Deleted.` is shown.
    pub fn deletion_finished(&mut self, existing_paths: &Vec<String>)
        ensures
            final(self).prefixes@ == still_present(old(self).prefixes@, existing_paths.deep_view()),
            final(self).selection@ == Seq::<usize>::empty(),
            final(self).selection.wf(),
            shows_listing(*final(self)),
            final(self).selected == cursor_after_delete(old(self).selected, final(self).filtered_indices.len() as nat),
            final(self).status_message matches Some(m) && m@ == "Deleted."@,
            *final(self) == (AppState {
                prefixes: final(self).prefixes,
                selection: final(self).selection,
                filtered_indices: final(self).filtered_indices,
                selected: final(self).selected,
                shift_anchor: final(self).selected,
                mode: AppMode::Normal,
                status_message: final(self).status_message,
                ..*old(self)
            }),
    {
        self.finish_delete(existing_paths);
        self.mode = AppMode::Normal;
        self.status_message = Some(String::from_str("Deleted."));
    }
}

} // verus!
