//! Steam's file formats: the text key/value files (`libraryfolders.vdf`,
//! `appmanifest_<id>.acf`) and the binary application cache `appinfo.vdf`.
use std::collections::HashMap;
use vstd::prelude::*;
use vstd::utf8::valid_utf8;
use vstd::utf8::decode_utf8;
use vstd::utf8::encode_utf8_decode_utf8;
use vstd::string::StrSliceExecFns;
use vstd::string::StringSliceAdditionalSpecFns;
use vstd::string::StringExecFns;
use crate::text::{
    char_rows, copy_range, decimal_string, decimal_text, kv_bounds, kv_parts, matches_at,
    parse_unsigned, parse_unsigned_chars, split_lines, string_of_chars, string_of_range,
    text_lines, to_chars, trim_bounds, trimmed, lines_from, strip_cr, find_char, is_digit,
    lemma_find_char_at, lemma_find_char_bounds, lemma_kv_line_round_trip,
    lemma_decimal_value_of_text, lemma_decimal_round_trip,
};

verus! {

broadcast use vstd::std_specs::hash::group_hash_axioms;

// ─── Text key/value lines ────────────────────────────────────────────────────

/// Splits a line of the form `\t"key"\t\t"value"` into its key and value.
/// `None` where the trimmed line does not start with `"`, holds fewer than
/// three quotes, or has an empty key (see `kv_parts`).
pub fn parse_kv_line(line: &str) -> (r: Option<(&str, &str)>)
    ensures
        r is None <==> kv_parts(line@) is None,
        r matches Some((k, v)) ==> kv_parts(line@) == Some((k@, v@)),
{
    let chars = to_chars(line);
    match kv_bounds(&chars) {
        None => None,
        Some((a, b, c, d)) => {
            let key = line.substring_char(a, b);
            let val = line.substring_char(c, d);
            Some((key, val))
        },
    }
}

/// The value of `line` when it is a key/value line with key `key`.
pub open spec fn line_value(line: Seq<char>, key: Seq<char>) -> Option<Seq<char>> {
    match kv_parts(line) {
        Some((k, v)) => if k == key {
            Some(v)
        } else {
            None
        },
        None => None,
    }
}

/// The value of the last line of `lines` that has key `key`.
pub open spec fn last_value(lines: Seq<Seq<char>>, key: Seq<char>) -> Option<Seq<char>>
    decreases lines.len(),
{
    if lines.len() == 0 {
        None
    } else {
        match line_value(lines.last(), key) {
            Some(v) => Some(v),
            None => last_value(lines.drop_last(), key),
        }
    }
}

/// The values of all lines of `lines` that have key `key`, in order.
pub open spec fn all_values(lines: Seq<Seq<char>>, key: Seq<char>) -> Seq<Seq<char>>
    decreases lines.len(),
{
    if lines.len() == 0 {
        Seq::empty()
    } else {
        let rest = all_values(lines.drop_last(), key);
        match line_value(lines.last(), key) {
            Some(v) => rest.push(v),
            None => rest,
        }
    }
}

/// The value of `line` when its key is `key`.
fn line_value_of(line: &Vec<char>, key: &Vec<char>) -> (r: Option<Vec<char>>)
    ensures
        r is None <==> line_value(line@, key@) is None,
        r matches Some(v) ==> line_value(line@, key@) == Some(v@),
{
    match kv_bounds(line) {
        None => None,
        Some((a, b, c, d)) => {
            if b - a == key.len() && matches_at(line, a, key) {
                Some(copy_range(line, c, d))
            } else {
                None
            }
        },
    }
}

pub open spec fn opt_chars(o: Option<Vec<char>>) -> Option<Seq<char>> {
    match o {
        Some(v) => Some(v@),
        None => None,
    }
}

/// The value of the last line in `lines` with key `key`.
fn last_value_of(lines: &Vec<Vec<char>>, key: &Vec<char>) -> (r: Option<Vec<char>>)
    ensures
        opt_chars(r) == last_value(char_rows(lines@), key@),
{
    let mut found: Option<Vec<char>> = None;
    let mut i: usize = 0;
    while i < lines.len()
        invariant
            i <= lines.len(),
            opt_chars(found) == last_value(char_rows(lines@).take(i as int), key@),
        decreases lines.len() - i,
    {
        let ghost rows = char_rows(lines@);
        assert(rows.take(i + 1).drop_last() =~= rows.take(i as int));
        assert(rows.take(i + 1).last() == lines@[i as int]@);
        match line_value_of(&lines[i], key) {
            Some(v) => {
                found = Some(v);
            },
            None => {},
        }
        i = i + 1;
    }
    assert(char_rows(lines@).take(lines.len() as int) =~= char_rows(lines@));
    found
}

/// What an `appmanifest_<id>.acf` file tells: the game's name, from the last
/// `"name"` line, and whether it is installed: bit 4 of the number on the last
/// `"StateFlags"` line (not installed when that line is missing or its value
/// is no `u32`). `None` when there is no `"name"` line.
pub open spec fn manifest_info(content: Seq<char>) -> Option<(Seq<char>, bool)> {
    let lines = text_lines(content);
    match last_value(lines, "name"@) {
        None => None,
        Some(name) => Some(
            (
                name,
                match last_value(lines, "StateFlags"@) {
                    Some(v) => match parse_unsigned(v, u32::MAX as nat) {
                        Some(f) => (f as u32) & 4 != 0,
                        None => false,
                    },
                    None => false,
                },
            ),
        ),
    }
}

/// The game name and installed state that an app manifest's text holds.
pub fn parse_app_manifest_text(content: &str) -> (r: Option<(String, bool)>)
    ensures
        r is None <==> manifest_info(content@) is None,
        r matches Some((n, inst)) ==> manifest_info(content@) == Some((n@, inst)),
{
    let chars = to_chars(content);
    let lines = split_lines(&chars);
    let name_key = to_chars("name");
    let flags_key = to_chars("StateFlags");
    let name = last_value_of(&lines, &name_key);
    let flags = last_value_of(&lines, &flags_key);
    match name {
        None => None,
        Some(n) => {
            let installed = match flags {
                Some(v) => match parse_unsigned_chars(&v, 4294967295u64) {
                    Some(f) => (f as u32) & 4u32 != 0u32,
                    None => false,
                },
                None => false,
            };
            Some((string_of_chars(&n), installed))
        },
    }
}

/// A key/value line as Steam writes it: `\t"key"\t\t"value"`.
pub open spec fn kv_line(key: Seq<char>, value: Seq<char>) -> Seq<char> {
    seq!['\t', '"'] + key + seq!['"', '\t', '\t', '"'] + value + seq!['"']
}

/// A manifest whose `"name"` line holds `name` and whose `"StateFlags"`
/// line holds the number `flags` reads back as that name, installed exactly
/// when bit 2 (the value 4) of `flags` is set.
pub proof fn lemma_manifest_read_back(name: Seq<char>, flags: u32)
    requires
        forall|i: int| 0 <= i < name.len() ==> name[i] != '"' && name[i] != '\n',
    ensures
        manifest_info(
            kv_line("name"@, name) + seq!['\n'] + kv_line("StateFlags"@, decimal_text(flags as nat)),
        ) == Some((name, (flags / 4) % 2 == 1)),
{
    reveal_strlit("name");
    reveal_strlit("StateFlags");
    let digits = decimal_text(flags as nat);
    lemma_decimal_value_of_text(flags as nat);
    lemma_decimal_round_trip(flags as nat, u32::MAX as nat);
    assert forall|i: int| 0 <= i < digits.len() implies digits[i] != '"' && digits[i] != '\n' by {
        assert(is_digit(digits[i]));
    }
    let l1 = kv_line("name"@, name);
    let l2 = kv_line("StateFlags"@, digits);
    let c = l1 + seq!['\n'] + l2;
    lemma_kv_line_round_trip("name"@, name);
    lemma_kv_line_round_trip("StateFlags"@, digits);
    // the two lines
    let e = l1.len() as int;
    assert forall|j: int| 0 <= j < e implies c[j] != '\n' by {
        assert(c[j] == l1[j]);
        if 2 <= j < 6 {
            assert(l1[j] == "name"@[j - 2]);
        } else if 10 <= j < 10 + name.len() {
            assert(l1[j] == name[j - 10]);
        }
    }
    assert(c[e] == '\n');
    lemma_find_char_at(c, '\n', 0, e);
    assert(c.subrange(0, e) =~= l1);
    assert(strip_cr(l1) == l1);
    let n = c.len() as int;
    assert forall|j: int| e + 1 <= j < n implies c[j] != '\n' by {
        let q = j - e - 1;
        assert(c[j] == l2[q]);
        if 2 <= q < 12 {
            assert(l2[q] == "StateFlags"@[q - 2]);
        } else if 16 <= q < 16 + digits.len() {
            assert(l2[q] == digits[q - 16]);
        }
    }
    lemma_find_char_bounds(c, '\n', e + 1);
    assert(find_char(c, '\n', e + 1) == n);
    assert(c.subrange(e + 1, n) =~= l2);
    assert(lines_from(c, e + 1) == seq![l2]);
    assert(lines_from(c, 0) == seq![l1] + seq![l2]);
    let lines = text_lines(c);
    assert(lines =~= seq![l1, l2]);
    // the values
    assert("StateFlags"@ != "name"@);
    assert(line_value(l2, "name"@) is None);
    assert(line_value(l1, "StateFlags"@) is None);
    assert(lines.drop_last() =~= seq![l1]);
    assert(seq![l1].drop_last() =~= Seq::<Seq<char>>::empty());
    assert(last_value(seq![l1], "name"@) == Some(name));
    assert(last_value(lines, "name"@) == Some(name));
    assert(last_value(lines, "StateFlags"@) == Some(digits));
    assert(((flags as nat) as u32) == flags);
    assert((flags & 4u32 != 0u32) == ((flags / 4u32) % 2u32 == 1u32)) by (bit_vector);
}

/// The relative path of the manifest of application `app_id` inside a
/// library: `steamapps/appmanifest_<app_id>.acf`.
pub fn manifest_file_name(app_id: u64) -> (r: String)
    ensures
        r@ == "steamapps/appmanifest_"@ + decimal_text(app_id as nat) + ".acf"@,
{
    let mut r = String::from_str("steamapps/appmanifest_");
    let digits = decimal_string(app_id);
    r.append(digits.as_str());
    r.append(".acf");
    r
}

/// The `"path"` values of a `libraryfolders.vdf` file, in file order.
pub fn library_path_values(content: &str) -> (r: Vec<String>)
    ensures
        r.deep_view() == all_values(text_lines(content@), "path"@),
{
    let chars = to_chars(content);
    let lines = split_lines(&chars);
    let key = to_chars("path");
    let mut r: Vec<String> = Vec::new();
    let mut i: usize = 0;
    while i < lines.len()
        invariant
            i <= lines.len(),
            char_rows(lines@) == text_lines(content@),
            key@ == "path"@,
            r.deep_view() == all_values(char_rows(lines@).take(i as int), "path"@),
        decreases lines.len() - i,
    {
        let ghost rows = char_rows(lines@);
        assert(rows.take(i + 1).drop_last() =~= rows.take(i as int));
        assert(rows.take(i + 1).last() == lines@[i as int]@);
        match line_value_of(&lines[i], &key) {
            Some(v) => {
                let ghost before = r.deep_view();
                r.push(string_of_chars(&v));
                assert(r.deep_view() =~= before.push(v@));
            },
            None => {},
        }
        i = i + 1;
    }
    assert(char_rows(lines@).take(lines.len() as int) =~= char_rows(lines@));
    r
}

// ─── Binary appinfo.vdf ──────────────────────────────────────────────────────

/// `str::from_utf8`: the text that `bytes` encode, when they are valid UTF-8.
#[verifier::external_body]
fn utf8_text(bytes: &[u8]) -> (r: Option<&str>)
    ensures
        r is Some <==> valid_utf8(bytes@),
        r matches Some(s) ==> s.spec_bytes() == bytes@,
{
    std::str::from_utf8(bytes).ok()
}

/// The string-type tag (1) followed by key 4 as a little-endian u32: the
/// marker in front of an application's name.
pub open spec fn name_marker_at(d: Seq<u8>, p: int) -> bool {
    &&& 0 <= p
    &&& p + 5 <= d.len()
    &&& d[p] == 1
    &&& d[p + 1] == 4
    &&& d[p + 2] == 0
    &&& d[p + 3] == 0
    &&& d[p + 4] == 0
}

/// The first position at or after `p` where the name marker stands, or -1.
pub open spec fn find_name_marker(d: Seq<u8>, p: int) -> int
    decreases d.len() - p,
{
    if !(0 <= p && p + 5 <= d.len()) {
        -1
    } else if name_marker_at(d, p) {
        p
    } else {
        find_name_marker(d, p + 1)
    }
}

/// The first position at or after `i` that holds a zero byte, or -1.
pub open spec fn find_zero(d: Seq<u8>, i: int) -> int
    decreases d.len() - i,
{
    if !(0 <= i < d.len()) {
        -1
    } else if d[i] == 0 {
        i
    } else {
        find_zero(d, i + 1)
    }
}

/// The name in an application's key/value blob: the NUL-terminated string
/// after the first name marker, decoded as UTF-8 and trimmed; `None` when
/// there is no marker, no terminating NUL, no valid UTF-8, or nothing is left
/// after trimming.
pub open spec fn blob_name(d: Seq<u8>) -> Option<Seq<char>> {
    let p = find_name_marker(d, 0);
    if p < 0 {
        None
    } else {
        let z = find_zero(d, p + 5);
        if z < 0 {
            None
        } else {
            let raw = d.subrange(p + 5, z);
            if !valid_utf8(raw) {
                None
            } else {
                let n = trimmed(decode_utf8(raw));
                if n.len() == 0 {
                    None
                } else {
                    Some(n)
                }
            }
        }
    }
}

pub proof fn lemma_find_name_marker(d: Seq<u8>, p: int)
    requires
        0 <= p,
    ensures
        find_name_marker(d, p) == -1 || (p <= find_name_marker(d, p) && name_marker_at(
            d,
            find_name_marker(d, p),
        )),
    decreases d.len() - p,
{
    if 0 <= p && p + 5 <= d.len() && !name_marker_at(d, p) {
        lemma_find_name_marker(d, p + 1);
    }
}

pub proof fn lemma_find_zero(d: Seq<u8>, i: int)
    requires
        0 <= i,
    ensures
        find_zero(d, i) == -1 || (i <= find_zero(d, i) < d.len()),
    decreases d.len() - i,
{
    if 0 <= i < d.len() && d[i] != 0 {
        lemma_find_zero(d, i + 1);
    }
}

/// Extracts an application's name from its binary key/value blob in
/// `appinfo.vdf`.
pub fn extract_name_from_kv(data: &[u8]) -> (r: Option<String>)
    ensures
        r is None <==> blob_name(data@) is None,
        r matches Some(n) ==> blob_name(data@) == Some(n@),
{
    let mut p: usize = 0;
    let mut found = false;
    loop
        invariant_except_break
            !found,
        invariant
            find_name_marker(data@, 0) == find_name_marker(data@, p as int),
            p <= data.len(),
        ensures
            found ==> p + 5 <= data.len() && find_name_marker(data@, 0) == p,
            !found ==> find_name_marker(data@, 0) == -1,
        decreases data.len() - p,
    {
        if data.len() < 5 || p > data.len() - 5 {
            found = false;
            break;
        }
        if data[p] == 1u8 && data[p + 1] == 4u8 && data[p + 2] == 0u8 && data[p + 3] == 0u8
            && data[p + 4] == 0u8 {
            found = true;
            break;
        }
        p = p + 1;
    }
    if !found {
        return None;
    }
    let vs = p + 5;
    let mut z = vs;
    proof {
        lemma_find_zero(data@, vs as int);
    }
    while z < data.len() && data[z] != 0u8
        invariant
            vs <= z <= data.len(),
            find_zero(data@, vs as int) == find_zero(data@, z as int),
        decreases data.len() - z,
    {
        z = z + 1;
    }
    if z >= data.len() {
        return None;
    }
    let raw = vstd::slice::slice_subrange(data, vs, z);
    match utf8_text(raw) {
        None => None,
        Some(s) => {
            proof {
                encode_utf8_decode_utf8(s@);
            }
            let chars = to_chars(s);
            let (lo, hi) = trim_bounds(&chars);
            if lo == hi {
                None
            } else {
                Some(string_of_range(&chars, lo, hi))
            }
        },
    }
}

/// The little-endian `u32` in `d[p..p + 4]`.
pub open spec fn le_u32(d: Seq<u8>, p: int) -> nat {
    (d[p] + d[p + 1] * 256 + d[p + 2] * 65536 + d[p + 3] * 16777216) as nat
}

/// The size of the fixed metadata in front of each application's blob.
pub const APP_META_SIZE: usize = 57;

/// The names found in the application blocks from byte `pos` on, added to
/// `acc`. A block is: app id (u32 LE, 0 ends the list), blob size (u32 LE),
/// 57 bytes of metadata, then the rest of the blob. A block that does not fit
/// ends the list; a blob that runs past the end is cut at the end.
pub open spec fn appinfo_from(d: Seq<u8>, pos: int, acc: Map<u64, Seq<char>>) -> Map<
    u64,
    Seq<char>,
>
    decreases d.len() - pos,
{
    if !(0 <= pos && pos + 4 <= d.len()) {
        acc
    } else {
        let id = le_u32(d, pos);
        if id == 0 || pos + 8 > d.len() {
            acc
        } else {
            let size = le_u32(d, pos + 4);
            if pos + 8 + 57 > d.len() {
                acc
            } else {
                let ks = pos + 65;
                let rest = if size > 57 {
                    size - 57
                } else {
                    0
                };
                let ke = if ks + rest < d.len() {
                    ks + rest
                } else {
                    d.len() as int
                };
                let acc2 = match blob_name(d.subrange(ks, ke)) {
                    Some(n) => acc.insert(id as u64, n),
                    None => acc,
                };
                appinfo_from(d, ke, acc2)
            }
        }
    }
}

/// The application names of an `appinfo.vdf` file: nothing unless it has at
/// least 8 bytes and bytes 1..4 are `44 56 07`; the blocks start at byte 16
/// when the first byte is 0x29 or more, else at byte 8.
pub open spec fn appinfo_names(d: Seq<u8>) -> Map<u64, Seq<char>> {
    if d.len() < 8 || d[1] != 0x44 || d[2] != 0x56 || d[3] != 0x07 {
        Map::empty()
    } else {
        appinfo_from(
            d,
            if d[0] >= 0x29 {
                16
            } else {
                8
            },
            Map::empty(),
        )
    }
}

/// The four bytes of `x`, lowest first (as `u32::to_le_bytes` writes them).
pub open spec fn le_bytes(x: u32) -> Seq<u8> {
    seq![
        (x & 0xff) as u8,
        ((x >> 8u32) & 0xff) as u8,
        ((x >> 16u32) & 0xff) as u8,
        ((x >> 24u32) & 0xff) as u8,
    ]
}

/// Reading four bytes written by `le_bytes` gives the number back.
proof fn lemma_le_bytes_value(x: u32)
    ensures
        le_bytes(x)[0] + le_bytes(x)[1] * 256 + le_bytes(x)[2] * 65536 + le_bytes(x)[3] * 16777216 == x,
{
    let b0 = (x & 0xff) as u8;
    let b1 = ((x >> 8u32) & 0xff) as u8;
    let b2 = ((x >> 16u32) & 0xff) as u8;
    let b3 = ((x >> 24u32) & 0xff) as u8;
    assert(b0 as u32 == x & 0xff) by (bit_vector)
        requires
            b0 == (x & 0xff) as u8,
    ;
    assert(b1 as u32 == (x >> 8u32) & 0xff) by (bit_vector)
        requires
            b1 == ((x >> 8u32) & 0xff) as u8,
    ;
    assert(b2 as u32 == (x >> 16u32) & 0xff) by (bit_vector)
        requires
            b2 == ((x >> 16u32) & 0xff) as u8,
    ;
    assert(b3 as u32 == (x >> 24u32) & 0xff) by (bit_vector)
        requires
            b3 == ((x >> 24u32) & 0xff) as u8,
    ;
    assert(x == (x & 0xff) + ((x >> 8u32) & 0xff) * 256 + ((x >> 16u32) & 0xff) * 65536 + ((x >> 24u32)
        & 0xff) * 16777216) by (bit_vector);
    assert(le_bytes(x)[0] == b0 && le_bytes(x)[1] == b1 && le_bytes(x)[2] == b2 && le_bytes(x)[3] == b3);
}

/// An `appinfo.vdf` holding one application block, written as Steam writes
/// it (the header, then the app id and the blob size as little-endian `u32`s,
/// 57 bytes of metadata, the rest of the blob, and a zero id ending the list),
/// reads as exactly that app id, all four bytes of it, mapped to the name in
/// the blob.
pub proof fn lemma_appinfo_one_block(
    version: u8,
    header_rest: Seq<u8>,
    id: u32,
    meta: Seq<u8>,
    blob: Seq<u8>,
    name: Seq<char>,
)
    requires
        header_rest.len() == (if version >= 0x29 {
            12int
        } else {
            4int
        }),
        id != 0,
        meta.len() == 57,
        blob.len() + 57 <= u32::MAX,
        blob_name(blob) == Some(name),
    ensures
        appinfo_names(
            seq![version, 0x44u8, 0x56u8, 0x07u8] + header_rest + le_bytes(id) + le_bytes(
                (blob.len() + 57) as u32,
            ) + meta + blob + le_bytes(0),
        ) == map![id as u64 => name],
{
    let size = (blob.len() + 57) as u32;
    let d = seq![version, 0x44u8, 0x56u8, 0x07u8] + header_rest + le_bytes(id) + le_bytes(size) + meta
        + blob + le_bytes(0);
    let pos: int = if version >= 0x29 {
        16
    } else {
        8
    };
    let b = blob.len() as int;
    assert(d.len() == pos + 8 + 57 + b + 4);
    assert(d[0] == version && d[1] == 0x44 && d[2] == 0x56 && d[3] == 0x07);
    lemma_le_bytes_value(id);
    lemma_le_bytes_value(size);
    lemma_le_bytes_value(0);
    assert(d[pos] == le_bytes(id)[0] && d[pos + 1] == le_bytes(id)[1] && d[pos + 2] == le_bytes(id)[2]
        && d[pos + 3] == le_bytes(id)[3]);
    assert(le_u32(d, pos) == id);
    assert(d[pos + 4] == le_bytes(size)[0] && d[pos + 5] == le_bytes(size)[1] && d[pos + 6]
        == le_bytes(size)[2] && d[pos + 7] == le_bytes(size)[3]);
    assert(le_u32(d, pos + 4) == size);
    let ks = pos + 65;
    let ke = ks + b;
    assert(d.subrange(ks, ke) =~= blob);
    assert(d[ke] == le_bytes(0)[0] && d[ke + 1] == le_bytes(0)[1] && d[ke + 2] == le_bytes(0)[2]
        && d[ke + 3] == le_bytes(0)[3]);
    assert(le_u32(d, ke) == 0);
    let acc2 = Map::<u64, Seq<char>>::empty().insert(id as u64, name);
    assert(appinfo_from(d, ke, acc2) == acc2);
    assert(appinfo_from(d, pos, Map::empty()) == appinfo_from(d, ke, acc2));
    assert(acc2 =~= map![id as u64 => name]);
}

/// The view of a map from application ids to strings.
pub open spec fn names_view(m: Map<u64, String>) -> Map<u64, Seq<char>> {
    m.map_values(|s: String| s@)
}

/// The map from application id to name that the bytes of `appinfo.vdf` hold.
pub fn parse_appinfo_data(data: &[u8]) -> (r: HashMap<u64, String>)
    ensures
        names_view(r@) == appinfo_names(data@),
{
    let mut names: HashMap<u64, String> = HashMap::new();
    if data.len() < 8 || data[1] != 0x44u8 || data[2] != 0x56u8 || data[3] != 0x07u8 {
        assert(names_view(names@) =~= Map::empty());
        return names;
    }
    let mut pos: usize = if data[0] >= 0x29u8 {
        16
    } else {
        8
    };
    assert(names_view(names@) =~= Map::empty());
    loop
        invariant
            appinfo_names(data@) == appinfo_from(data@, pos as int, names_view(names@)),
            pos <= data.len() || pos == 16,
        ensures
            appinfo_names(data@) == names_view(names@),
        decreases data.len() - pos,
    {
        if pos > data.len() || data.len() - pos < 4 {
            break;
        }
        let app_id: u64 = data[pos] as u64 + (data[pos + 1] as u64) * 256 + (data[pos + 2] as u64)
            * 65536 + (data[pos + 3] as u64) * 16777216;
        assert(app_id == le_u32(data@, pos as int));
        if app_id == 0 || data.len() - pos < 8 {
            break;
        }
        let blob_size: u64 = data[pos + 4] as u64 + (data[pos + 5] as u64) * 256 + (data[pos
            + 6] as u64) * 65536 + (data[pos + 7] as u64) * 16777216;
        assert(blob_size == le_u32(data@, pos + 4));
        if data.len() - pos < 8 + APP_META_SIZE {
            break;
        }
        let ks = pos + 8 + APP_META_SIZE;
        let rest: u64 = if blob_size > 57 {
            blob_size - 57
        } else {
            0
        };
        let ke: usize = if rest < (data.len() - ks) as u64 {
            ks + rest as usize
        } else {
            data.len()
        };
        let blob = vstd::slice::slice_subrange(data, ks, ke);
        let ghost before = names@;
        match extract_name_from_kv(blob) {
            Some(name) => {
                names.insert(app_id, name);
                assert(names_view(names@) =~= names_view(before).insert(app_id, blob_name(data@.subrange(ks as int, ke as int)).unwrap()));
            },
            None => {},
        }
        pos = ke;
    }
    names
}

} // verus!
