//! Discovery of Steam installs, libraries and prefixes. The file system is
//! read by the caller; the functions here take what it showed (whether a
//! path exists, its canonical form, the manifests found) and decide.
use std::collections::HashMap;
use vstd::prelude::*;
use vstd::string::StringExecFns;
use crate::ordering::{row_before, rows_sorted, sort_rows};
use crate::steam::{SteamGame, WinePrefix, copy_prefix, game_name_of};
use crate::paths::{contains_path, has_path, same_path};
use crate::text::{char_rows, lowercase, parse_unsigned, parse_unsigned_chars, to_chars, to_lowercase};

verus! {

broadcast use vstd::std_specs::hash::group_hash_axioms;

// ─── Paths ───────────────────────────────────────────────────────────────────

/// `Path::join` with a relative path: a `/` goes between the two unless the
/// base is empty or already ends with one.
pub open spec fn joined(base: Seq<char>, rel: Seq<char>) -> Seq<char> {
    if base.len() > 0 && base.last() != '/' {
        base + "/"@ + rel
    } else {
        base + rel
    }
}

/// `base` joined with the relative path `rel`.
pub fn join_path(base: &String, rel: &str) -> (r: String)
    ensures
        r@ == joined(base@, rel@),
{
    let chars = to_chars(base.as_str());
    let mut r = base.clone();
    if chars.len() > 0 && chars[chars.len() - 1] != '/' {
        r.append("/");
    }
    r.append(rel);
    r
}

/// Whether `v` holds the string `s`.
pub fn contains_string(v: &Vec<String>, s: &String) -> (r: bool)
    ensures
        r == v.deep_view().contains(s@),
{
    let mut i: usize = 0;
    while i < v.len()
        invariant
            i <= v.len(),
            forall|k: int| 0 <= k < i ==> v.deep_view()[k] != s@,
        decreases v.len() - i,
    {
        if v[i] == *s {
            assert(v.deep_view()[i as int] == s@);
            return true;
        }
        i = i + 1;
    }
    false
}

// ─── Steam roots ─────────────────────────────────────────────────────────────

/// The places a Steam install may be found under a home directory (native
/// and Flatpak), followed by the extra directories, in that order.
pub open spec fn root_candidates(home: Option<Seq<char>>, extra: Seq<Seq<char>>) -> Seq<Seq<char>> {
    match home {
        Some(h) => seq![
            joined(h, ".steam/steam"@),
            joined(h, ".local/share/Steam"@),
            joined(h, ".var/app/com.valvesoftware.Steam/.steam/steam"@),
            joined(h, ".var/app/com.valvesoftware.Steam/data/Steam"@),
        ] + extra,
        None => extra,
    }
}

pub open spec fn opt_text(o: Option<String>) -> Option<Seq<char>> {
    match o {
        Some(s) => Some(s@),
        None => None,
    }
}

/// The candidate Steam roots for a given home directory.
pub fn candidates_for_home(home: &Option<String>, extra_dirs: &Vec<String>) -> (r: Vec<String>)
    ensures
        r.deep_view() == root_candidates(opt_text(*home), extra_dirs.deep_view()),
{
    let mut r: Vec<String> = Vec::new();
    match home {
        Some(h) => {
            r.push(join_path(h, ".steam/steam"));
            r.push(join_path(h, ".local/share/Steam"));
            r.push(join_path(h, ".var/app/com.valvesoftware.Steam/.steam/steam"));
            r.push(join_path(h, ".var/app/com.valvesoftware.Steam/data/Steam"));
        },
        None => {},
    }
    let ghost head = r.deep_view();
    let mut i: usize = 0;
    while i < extra_dirs.len()
        invariant
            i <= extra_dirs.len(),
            r.deep_view() == head + extra_dirs.deep_view().take(i as int),
        decreases extra_dirs.len() - i,
    {
        let ghost r0 = r.deep_view();
        r.push(extra_dirs[i].clone());
        assert(r.deep_view() =~= r0.push(extra_dirs@[i as int]@));
        assert(extra_dirs.deep_view().take(i + 1) =~= extra_dirs.deep_view().take(i as int).push(
            extra_dirs@[i as int]@,
        ));
        assert(r.deep_view() =~= head + extra_dirs.deep_view().take(i + 1));
        i = i + 1;
    }
    assert(extra_dirs.deep_view().take(extra_dirs.len() as int) =~= extra_dirs.deep_view());
    assert(root_candidates(opt_text(*home), extra_dirs.deep_view()) =~= head
        + extra_dirs.deep_view());
    r
}

/// `dirs::home_dir`: the user's home directory, as the environment (`HOME`)
/// or the password database gives it. Nothing is stated of the result: it
/// depends on the environment of the process.
#[verifier::external_body]
fn home_dir() -> (r: Option<String>) {
    dirs::home_dir().map(|p| p.to_string_lossy().into_owned())
}

/// The candidate Steam roots: the four usual places under the home
/// directory, when there is one, then `extra_dirs`.
pub fn steam_root_candidates(extra_dirs: &Vec<String>) -> (r: Vec<String>)
    ensures
        r.deep_view() == root_candidates(None, extra_dirs.deep_view()) || exists|h: Seq<char>|
            r.deep_view() == root_candidates(Some(h), extra_dirs.deep_view()),
{
    let home = home_dir();
    candidates_for_home(&home, extra_dirs)
}

/// What the file system shows of a candidate Steam root.
pub struct RootProbe {
    pub path: String,
    /// Whether the path exists.
    pub exists: bool,
    /// The canonical form of the path, or the path itself when it has none.
    pub canonical: String,
}

/// The existing candidates, each kept only when no earlier kept candidate
/// has the same canonical path; with the canonical paths seen.
pub open spec fn select_roots(ps: Seq<RootProbe>) -> (Seq<Seq<char>>, Seq<Seq<char>>)
    decreases ps.len(),
{
    if ps.len() == 0 {
        (Seq::empty(), Seq::empty())
    } else {
        let (roots, seen) = select_roots(ps.drop_last());
        let p = ps.last();
        if p.exists && !has_path(seen, p.canonical@) {
            (roots.push(p.path@), seen.push(p.canonical@))
        } else {
            (roots, seen)
        }
    }
}

/// The Steam roots among the probed candidates, in order, without two that
/// resolve to the same directory.
pub fn select_steam_roots(probes: &Vec<RootProbe>) -> (r: Vec<String>)
    ensures
        r.deep_view() == select_roots(probes@).0,
{
    let mut roots: Vec<String> = Vec::new();
    let mut seen: Vec<String> = Vec::new();
    let mut i: usize = 0;
    while i < probes.len()
        invariant
            i <= probes.len(),
            (roots.deep_view(), seen.deep_view()) == select_roots(probes@.take(i as int)),
        decreases probes.len() - i,
    {
        assert(probes@.take(i + 1).drop_last() =~= probes@.take(i as int));
        let p = &probes[i];
        if p.exists && !contains_path(&seen, &p.canonical) {
            let ghost r0 = roots.deep_view();
            let ghost s0 = seen.deep_view();
            roots.push(p.path.clone());
            seen.push(p.canonical.clone());
            assert(roots.deep_view() =~= r0.push(p.path@));
            assert(seen.deep_view() =~= s0.push(p.canonical@));
        }
        i = i + 1;
    }
    assert(probes@.take(probes.len() as int) =~= probes@);
    roots
}

// ─── Libraries ───────────────────────────────────────────────────────────────

/// A library path named in `libraryfolders.vdf`, and whether it exists.
pub struct PathProbe {
    pub path: String,
    pub exists: bool,
}

/// The libraries of a Steam root: the root itself, then each named library
/// that exists and is not listed yet.
pub open spec fn library_list(root: Seq<char>, ps: Seq<PathProbe>) -> Seq<Seq<char>>
    decreases ps.len(),
{
    if ps.len() == 0 {
        seq![root]
    } else {
        let acc = library_list(root, ps.drop_last());
        let p = ps.last();
        if p.exists && !has_path(acc, p.path@) {
            acc.push(p.path@)
        } else {
            acc
        }
    }
}

/// The library paths of a Steam root, from the probed `"path"` values of its
/// `libraryfolders.vdf`.
pub fn collect_library_paths(root: &String, probes: &Vec<PathProbe>) -> (r: Vec<String>)
    ensures
        r.deep_view() == library_list(root@, probes@),
{
    let mut libs: Vec<String> = Vec::new();
    libs.push(root.clone());
    assert(libs.deep_view() =~= seq![root@]);
    let mut i: usize = 0;
    while i < probes.len()
        invariant
            i <= probes.len(),
            libs.deep_view() == library_list(root@, probes@.take(i as int)),
        decreases probes.len() - i,
    {
        assert(probes@.take(i + 1).drop_last() =~= probes@.take(i as int));
        let p = &probes[i];
        if p.exists && !contains_path(&libs, &p.path) {
            let ghost l0 = libs.deep_view();
            libs.push(p.path.clone());
            assert(libs.deep_view() =~= l0.push(p.path@));
        }
        i = i + 1;
    }
    assert(probes@.take(probes.len() as int) =~= probes@);
    libs
}

/// The paths of `s` without repeats, each where it first occurs.
pub open spec fn first_occurrences(s: Seq<Seq<char>>) -> Seq<Seq<char>>
    decreases s.len(),
{
    if s.len() == 0 {
        Seq::empty()
    } else {
        let acc = first_occurrences(s.drop_last());
        if has_path(acc, s.last()) {
            acc
        } else {
            acc.push(s.last())
        }
    }
}

/// The paths without repeats (the libraries of all roots, listed once).
pub fn unique_paths(paths: &Vec<String>) -> (r: Vec<String>)
    ensures
        r.deep_view() == first_occurrences(paths.deep_view()),
{
    let mut r: Vec<String> = Vec::new();
    let mut i: usize = 0;
    while i < paths.len()
        invariant
            i <= paths.len(),
            r.deep_view() == first_occurrences(paths.deep_view().take(i as int)),
        decreases paths.len() - i,
    {
        assert(paths.deep_view().take(i + 1).drop_last() =~= paths.deep_view().take(i as int));
        assert(paths.deep_view().take(i + 1).last() == paths@[i as int]@);
        if !contains_path(&r, &paths[i]) {
            let ghost r0 = r.deep_view();
            r.push(paths[i].clone());
            assert(r.deep_view() =~= r0.push(paths@[i as int]@));
        }
        i = i + 1;
    }
    assert(paths.deep_view().take(paths.len() as int) =~= paths.deep_view());
    r
}

// ─── Prefix directories ──────────────────────────────────────────────────────

/// The application id a `compatdata` entry is named after: its name read as
/// a `u64`, or `None` when the name is no number.
pub fn prefix_app_id(dir_name: &str) -> (r: Option<u64>)
    ensures
        r is None <==> parse_unsigned(dir_name@, u64::MAX as nat) is None,
        r matches Some(id) ==> parse_unsigned(dir_name@, u64::MAX as nat) == Some(id as nat),
{
    let chars = to_chars(dir_name);
    parse_unsigned_chars(&chars, 18446744073709551615u64)
}

/// What the file system shows of one prefix directory.
pub struct PrefixProbe {
    pub app_id: u64,
    pub path: String,
    /// The canonical form of the path, or the path itself when it has none.
    pub canonical: String,
    pub size_bytes: u64,
    /// For each library, in order, the name and installed state its
    /// manifest for this app gives, if it has one.
    pub manifests: Vec<Option<(String, bool)>>,
    /// For each Steam root, whether its user data holds this app.
    pub cloud: Vec<bool>,
}

/// The first manifest found, over the libraries in order.
pub open spec fn first_manifest(ms: Seq<Option<(String, bool)>>) -> Option<(Seq<char>, bool)>
    decreases ms.len(),
{
    if ms.len() == 0 {
        None
    } else {
        match ms[0] {
            Some((n, i)) => Some((n@, i)),
            None => first_manifest(ms.drop_first()),
        }
    }
}

pub open spec fn map_views(v: Seq<HashMap<u64, String>>) -> Seq<Map<u64, String>> {
    v.map_values(|m: HashMap<u64, String>| m@)
}

/// The name the first map that knows `id` gives it.
pub open spec fn appinfo_lookup(maps: Seq<Map<u64, String>>, id: u64) -> Option<Seq<char>>
    decreases maps.len(),
{
    if maps.len() == 0 {
        None
    } else if maps[0].contains_key(id) {
        Some(maps[0][id]@)
    } else {
        appinfo_lookup(maps.drop_first(), id)
    }
}

/// The name and installed state of a prefix's game: from the first manifest
/// found; else the name from the application caches, not installed; else
/// unknown.
pub open spec fn resolved_game(pr: PrefixProbe, maps: Seq<Map<u64, String>>) -> Option<
    (Seq<char>, bool),
> {
    match first_manifest(pr.manifests@) {
        Some(m) => Some(m),
        None => match appinfo_lookup(maps, pr.app_id) {
            Some(n) => Some((n, false)),
            None => None,
        },
    }
}

/// The first manifest found is the first library's that has one.
proof fn lemma_first_manifest_at(ms: Seq<Option<(String, bool)>>, k: int)
    requires
        0 <= k < ms.len(),
        ms[k] is Some,
        forall|j: int| 0 <= j < k ==> ms[j] is None,
    ensures
        first_manifest(ms) == Some((ms[k].unwrap().0@, ms[k].unwrap().1)),
    decreases k,
{
    if k > 0 {
        lemma_first_manifest_at(ms.drop_first(), k - 1);
    }
}

/// With no manifest in any library, none is found.
proof fn lemma_first_manifest_none(ms: Seq<Option<(String, bool)>>)
    requires
        forall|j: int| 0 <= j < ms.len() ==> ms[j] is None,
    ensures
        first_manifest(ms) is None,
    decreases ms.len(),
{
    if ms.len() > 0 {
        lemma_first_manifest_none(ms.drop_first());
    }
}

/// The name the caches give is the first cache's that knows the app.
proof fn lemma_appinfo_lookup_at(maps: Seq<Map<u64, String>>, id: u64, m: int)
    requires
        0 <= m < maps.len(),
        maps[m].contains_key(id),
        forall|l: int| 0 <= l < m ==> !maps[l].contains_key(id),
    ensures
        appinfo_lookup(maps, id) == Some(maps[m][id]@),
    decreases m,
{
    if m > 0 {
        lemma_appinfo_lookup_at(maps.drop_first(), id, m - 1);
    }
}

/// With no cache knowing the app, the caches give no name.
proof fn lemma_appinfo_lookup_none(maps: Seq<Map<u64, String>>, id: u64)
    requires
        forall|l: int| 0 <= l < maps.len() ==> !maps[l].contains_key(id),
    ensures
        appinfo_lookup(maps, id) is None,
    decreases maps.len(),
{
    if maps.len() > 0 {
        lemma_appinfo_lookup_none(maps.drop_first(), id);
    }
}

/// A prefix whose app has a manifest in some library takes its game's name
/// and installed state from the first such library's manifest, whatever the
/// application caches hold; cloud saves count when any root's user data
/// holds the app.
pub proof fn lemma_game_from_first_manifest(
    p: WinePrefix,
    pr: PrefixProbe,
    maps: Seq<Map<u64, String>>,
    k: int,
)
    requires
        describes(p, pr, maps),
        0 <= k < pr.manifests.len(),
        pr.manifests@[k] is Some,
        forall|j: int| 0 <= j < k ==> pr.manifests@[j] is None,
    ensures
        p.game matches Some(g) && g.app_id == pr.app_id && g.name@ == pr.manifests@[k].unwrap().0@
            && g.installed == pr.manifests@[k].unwrap().1 && g.cloud_saves == pr.cloud@.contains(true),
{
    lemma_first_manifest_at(pr.manifests@, k);
}

/// A prefix whose app has no manifest in any library takes its game's name
/// from the first application cache that knows the app, and counts as not
/// installed; with no cache knowing it either, its game is unknown.
pub proof fn lemma_game_without_manifest(p: WinePrefix, pr: PrefixProbe, maps: Seq<Map<u64, String>>, m: int)
    requires
        describes(p, pr, maps),
        forall|j: int| 0 <= j < pr.manifests.len() ==> pr.manifests@[j] is None,
        0 <= m <= maps.len(),
        forall|l: int| 0 <= l < m ==> !maps[l].contains_key(pr.app_id),
        m < maps.len() ==> maps[m].contains_key(pr.app_id),
    ensures
        m < maps.len() ==> (p.game matches Some(g) && g.app_id == pr.app_id && g.name@
            == maps[m][pr.app_id]@ && !g.installed && g.cloud_saves == pr.cloud@.contains(true)),
        m == maps.len() ==> p.game is None,
{
    lemma_first_manifest_none(pr.manifests@);
    if m < maps.len() {
        lemma_appinfo_lookup_at(maps, pr.app_id, m);
    } else {
        lemma_appinfo_lookup_none(maps, pr.app_id);
    }
}

/// `p` is the prefix record made of the probe `pr`: same id, path and size;
/// a game exactly when a name was found, with cloud saves when any root's
/// user data holds the app.
pub open spec fn describes(p: WinePrefix, pr: PrefixProbe, maps: Seq<Map<u64, String>>) -> bool {
    &&& p.app_id == pr.app_id
    &&& p.path@ == pr.path@
    &&& p.size_bytes == pr.size_bytes
    &&& match resolved_game(pr, maps) {
        None => p.game is None,
        Some((n, inst)) => p.game matches Some(g) && g.app_id == pr.app_id && g.name@ == n
            && g.installed == inst && g.cloud_saves == pr.cloud@.contains(true),
    }
}

/// The probes kept: each whose canonical path no earlier kept probe has;
/// with the canonical paths seen.
pub open spec fn kept_probes(ps: Seq<PrefixProbe>) -> (Seq<PrefixProbe>, Seq<Seq<char>>)
    decreases ps.len(),
{
    if ps.len() == 0 {
        (Seq::empty(), Seq::empty())
    } else {
        let (kept, seen) = kept_probes(ps.drop_last());
        let p = ps.last();
        if has_path(seen, p.canonical@) {
            (kept, seen)
        } else {
            (kept.push(p), seen.push(p.canonical@))
        }
    }
}

/// Each prefix directory is kept once: no two kept probes have the same
/// canonical path, those paths are the paths seen, and every probe's
/// canonical path is among them.
pub proof fn lemma_kept_probes_once(ps: Seq<PrefixProbe>)
    ensures
        ({
            let (kept, seen) = kept_probes(ps);
            &&& seen.len() == kept.len()
            &&& forall|i: int| 0 <= i < kept.len() ==> #[trigger] seen[i] == kept[i].canonical@
            &&& forall|i: int, j: int|
                0 <= i < j < seen.len() ==> !same_path(#[trigger] seen[i], #[trigger] seen[j])
            &&& forall|i: int| 0 <= i < ps.len() ==> has_path(seen, #[trigger] ps[i].canonical@)
        }),
    decreases ps.len(),
{
    if ps.len() > 0 {
        let init = ps.drop_last();
        lemma_kept_probes_once(init);
        let (kept0, seen0) = kept_probes(init);
        let p = ps.last();
        let seen = kept_probes(ps).1;
        if !has_path(seen0, p.canonical@) {
            assert(seen == seen0.push(p.canonical@));
            assert forall|i: int, j: int| 0 <= i < j < seen.len() implies !same_path(
                #[trigger] seen[i],
                #[trigger] seen[j],
            ) by {
                if j == seen0.len() {
                    assert(seen[i] == seen0[i]);
                    if same_path(seen[i], seen[j]) {
                        assert(same_path(seen0[i], p.canonical@));
                    }
                } else {
                    assert(seen[i] == seen0[i] && seen[j] == seen0[j]);
                }
            }
        }
        assert forall|i: int| 0 <= i < ps.len() implies has_path(seen, #[trigger] ps[i].canonical@) by {
            if i < ps.len() - 1 {
                assert(init[i] == ps[i]);
                assert(has_path(seen0, init[i].canonical@));
                let k = choose|k: int| 0 <= k < seen0.len() && same_path(seen0[k], init[i].canonical@);
                if !has_path(seen0, p.canonical@) {
                    assert(seen[k] == seen0[k]);
                }
            } else {
                if !has_path(seen0, p.canonical@) {
                    assert(seen[seen0.len() as int] == p.canonical@);
                }
            }
        }
    }
}

/// The key prefixes are listed by after discovery: the lowercase game name
/// (`unknown` for an unknown game).
pub open spec fn name_key(pr: PrefixProbe, maps: Seq<Map<u64, String>>) -> Seq<char> {
    lowercase(
        match resolved_game(pr, maps) {
            Some((n, _)) => n,
            None => "Unknown"@,
        },
    )
}

pub open spec fn name_keys(kept: Seq<PrefixProbe>, maps: Seq<Map<u64, String>>) -> Seq<Seq<char>> {
    Seq::new(kept.len(), |i: int| name_key(kept[i], maps))
}

pub open spec fn zeros(n: nat) -> Seq<u64> {
    Seq::new(n, |i: int| 0u64)
}

/// `perm` lists `0..n` once each.
pub open spec fn is_index_permutation(perm: Seq<usize>, n: nat) -> bool {
    &&& perm.len() == n
    &&& forall|x: usize| perm.contains(x) <==> x < n
}

/// `r` is the prefix list made of the probes: the kept probes' records,
/// ordered by lowercase game name, probes with equal names in probe order.
pub open spec fn discovered(r: Seq<WinePrefix>, ps: Seq<PrefixProbe>, maps: Seq<Map<u64, String>>) -> bool {
    let kept = kept_probes(ps).0;
    exists|perm: Seq<usize>|
        {
            &&& is_index_permutation(perm, kept.len())
            &&& rows_sorted(name_keys(kept, maps), zeros(kept.len()), true, perm)
            &&& r.len() == kept.len()
            &&& forall|k: int|
                0 <= k < r.len() ==> describes(#[trigger] r[k], kept[perm[k] as int], maps)
        }
}

/// The first manifest among a probe's manifests.
fn find_manifest(ms: &Vec<Option<(String, bool)>>) -> (r: Option<(String, bool)>)
    ensures
        match first_manifest(ms@) {
            None => r is None,
            Some((n, i)) => r matches Some((s, b)) && s@ == n && b == i,
        },
{
    let mut k: usize = 0;
    assert(ms@.skip(0) =~= ms@);
    while k < ms.len()
        invariant
            k <= ms.len(),
            first_manifest(ms@) == first_manifest(ms@.skip(k as int)),
        decreases ms.len() - k,
    {
        assert(ms@.skip(k as int)[0] == ms@[k as int]);
        assert(ms@.skip(k as int).drop_first() =~= ms@.skip(k + 1));
        match &ms[k] {
            Some((n, i)) => {
                return Some((n.clone(), *i));
            },
            None => {},
        }
        k = k + 1;
    }
    None
}

/// The name the first map that knows `id` gives it.
fn lookup_appinfo(maps: &Vec<HashMap<u64, String>>, id: u64) -> (r: Option<String>)
    ensures
        opt_text(r) == appinfo_lookup(map_views(maps@), id),
{
    let ghost mv = map_views(maps@);
    let mut k: usize = 0;
    assert(mv.skip(0) =~= mv);
    while k < maps.len()
        invariant
            k <= maps.len(),
            mv == map_views(maps@),
            appinfo_lookup(mv, id) == appinfo_lookup(mv.skip(k as int), id),
        decreases maps.len() - k,
    {
        assert(mv.skip(k as int)[0] == maps@[k as int]@);
        assert(mv.skip(k as int).drop_first() =~= mv.skip(k + 1));
        match maps[k].get(&id) {
            Some(n) => {
                return Some(n.clone());
            },
            None => {},
        }
        k = k + 1;
    }
    None
}

/// Whether any entry of `v` is true.
fn any_true(v: &Vec<bool>) -> (r: bool)
    ensures
        r == v@.contains(true),
{
    let mut k: usize = 0;
    while k < v.len()
        invariant
            k <= v.len(),
            forall|j: int| 0 <= j < k ==> !v@[j],
        decreases v.len() - k,
    {
        if v[k] {
            return true;
        }
        k = k + 1;
    }
    false
}

/// The prefix record that a probe describes.
fn prefix_of_probe(pr: &PrefixProbe, maps: &Vec<HashMap<u64, String>>) -> (r: WinePrefix)
    ensures
        describes(r, *pr, map_views(maps@)),
{
    let (name, installed) = match find_manifest(&pr.manifests) {
        Some((n, i)) => (Some(n), i),
        None => (lookup_appinfo(maps, pr.app_id), false),
    };
    let game = match name {
        Some(n) => {
            let cloud = any_true(&pr.cloud);
            Some(SteamGame { app_id: pr.app_id, name: n, cloud_saves: cloud, installed })
        },
        None => None,
    };
    WinePrefix { app_id: pr.app_id, path: pr.path.clone(), size_bytes: pr.size_bytes, game }
}

/// The prefix list made of what discovery found: the probes in discovery
/// order (roots, then their libraries, then each library's prefix
/// directories) and the application name caches of the roots, in root order.
/// A probe whose canonical path an earlier one has is dropped; the game name
/// comes from the first library's manifest that has one, else from the first
/// cache that knows the app; cloud saves count only for named games; the list
/// is ordered by lowercase name, equal names in discovery order.
pub fn assemble_prefixes(probes: &Vec<PrefixProbe>, appinfo: &Vec<HashMap<u64, String>>) -> (r: Vec<WinePrefix>)
    ensures
        discovered(r@, probes@, map_views(appinfo@)),
{
    let ghost maps = map_views(appinfo@);
    // 1. keep the first probe of each canonical path
    let mut built: Vec<WinePrefix> = Vec::new();
    let mut seen: Vec<String> = Vec::new();
    let ghost mut kept: Seq<PrefixProbe> = Seq::empty();
    let mut i: usize = 0;
    while i < probes.len()
        invariant
            i <= probes.len(),
            maps == map_views(appinfo@),
            (kept, seen.deep_view()) == kept_probes(probes@.take(i as int)),
            built.len() == kept.len(),
            forall|k: int| 0 <= k < built.len() ==> describes(#[trigger] built@[k], kept[k], maps),
        decreases probes.len() - i,
    {
        assert(probes@.take(i + 1).drop_last() =~= probes@.take(i as int));
        let p = &probes[i];
        if !contains_path(&seen, &p.canonical) {
            let ghost s0 = seen.deep_view();
            seen.push(p.canonical.clone());
            assert(seen.deep_view() =~= s0.push(p.canonical@));
            built.push(prefix_of_probe(p, appinfo));
            proof {
                kept = kept.push(*p);
            }
        }
        i = i + 1;
    }
    assert(probes@.take(probes.len() as int) =~= probes@);
    // 2. the sort keys: lowercase names
    let n = built.len();
    let mut texts: Vec<Vec<char>> = Vec::new();
    let mut nums: Vec<u64> = Vec::new();
    let mut items: Vec<usize> = Vec::new();
    let mut j: usize = 0;
    while j < n
        invariant
            j <= n,
            n == built.len(),
            n == kept.len(),
            maps == map_views(appinfo@),
            forall|k: int| 0 <= k < built.len() ==> describes(#[trigger] built@[k], kept[k], maps),
            texts.len() == j,
            nums.len() == j,
            items.len() == j,
            forall|k: int| 0 <= k < j ==> (#[trigger] texts@[k])@ == name_key(kept[k], maps),
            forall|k: int| 0 <= k < j ==> #[trigger] nums@[k] == 0u64,
            forall|k: int| 0 <= k < j ==> #[trigger] items@[k] == k,
        decreases n - j,
    {
        let name = built[j].game_name();
        assert(game_name_of(built@[j as int]) == match resolved_game(kept[j as int], maps) {
            Some((nm, _)) => nm,
            None => "Unknown"@,
        });
        let lower = to_lowercase(name.as_str());
        texts.push(to_chars(lower.as_str()));
        nums.push(0);
        items.push(j);
        j = j + 1;
    }
    assert(char_rows(texts@) =~= name_keys(kept, maps));
    assert(nums@ =~= zeros(n as nat));
    assert(items@.no_duplicates());
    // 3. order the rows
    let perm = sort_rows(&items, &texts, &nums, true);
    let mut r: Vec<WinePrefix> = Vec::new();
    let mut k: usize = 0;
    while k < perm.len()
        invariant
            k <= perm.len(),
            perm.len() == n,
            n == built.len(),
            forall|x: usize| perm@.contains(x) <==> items@.contains(x),
            forall|q: int| 0 <= q < n ==> #[trigger] items@[q] == q,
            items.len() == n,
            kept.len() == n,
            forall|q: int| 0 <= q < built.len() ==> describes(#[trigger] built@[q], kept[q], maps),
            r.len() == k,
            forall|q: int| 0 <= q < k ==> perm@[q] < n,
            forall|q: int| 0 <= q < k ==> describes(#[trigger] r@[q], kept[perm@[q] as int], maps),
        decreases perm.len() - k,
    {
        assert(perm@.contains(perm@[k as int]));
        let idx = perm[k];
        assert(items@.contains(idx));
        let ghost q0 = choose|q: int| 0 <= q < items.len() && items@[q] == idx;
        assert(items@[q0] == q0);
        r.push(copy_prefix(&built[idx]));
        assert(describes(built@[idx as int], kept[idx as int], maps));
        k = k + 1;
    }
    assert forall|x: usize| perm@.contains(x) <==> x < kept.len() by {
        if x < n {
            assert(items@[x as int] == x);
        }
    }
    assert(kept == kept_probes(probes@).0);
    assert(is_index_permutation(perm@, kept.len()));
    assert(rows_sorted(name_keys(kept, maps), zeros(kept.len()), true, perm@));
    assert(r@.len() == kept.len());
    r
}

} // verus!
