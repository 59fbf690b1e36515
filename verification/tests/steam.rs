use std::collections::HashMap;

use preman::steam::discovery::{
    assemble_prefixes, candidates_for_home, collect_library_paths, join_path, prefix_app_id,
    select_steam_roots, steam_root_candidates, unique_paths, PathProbe, PrefixProbe, RootProbe,
};
use preman::steam::vdf::{
    extract_name_from_kv, library_path_values, manifest_file_name, parse_app_manifest_text,
    parse_appinfo_data, parse_kv_line,
};
use preman::paths::{contains_path, path_components_of, paths_equal};
use preman::steam::{human_size, SteamGame, WinePrefix};

#[test]
fn kv_line_parsing() {
    assert_eq!(parse_kv_line("\t\"name\"\t\t\"Test Game\""), Some(("name", "Test Game")));
    assert_eq!(parse_kv_line("  \"path\"  \"/mnt/games\"  \r"), Some(("path", "/mnt/games")));
    // no closing quote for the value: the value runs to the end
    assert_eq!(parse_kv_line("\"key\" \"value"), Some(("key", "value")));
    assert_eq!(parse_kv_line("\"a\" \"b\" \"c\""), Some(("a", "b")));
    assert_eq!(parse_kv_line("\"\" \"v\""), None);
    assert_eq!(parse_kv_line("\"AppState\""), None);
    assert_eq!(parse_kv_line("{"), None);
    assert_eq!(parse_kv_line(""), None);
    assert_eq!(parse_kv_line("key \"value\""), None);
}

#[test]
fn manifest_text_parsing() {
    let manifest_content = "\"AppState\"\n{\n\t\"appid\"\t\t\"123\"\n\t\"name\"\t\t\"Test Game\"\n\t\"StateFlags\"\t\t\"4\"\n}\n";
    assert_eq!(parse_app_manifest_text(manifest_content), Some(("Test Game".to_string(), true)));
    let crlf = "\"AppState\"\r\n{\r\n\t\"name\"\t\t\"Other\"\r\n\t\"StateFlags\"\t\t\"2\"\r\n}\r\n";
    assert_eq!(parse_app_manifest_text(crlf), Some(("Other".to_string(), false)));
    assert_eq!(parse_app_manifest_text("\"name\" \"X\"\n\"StateFlags\" \"1030\""), Some(("X".to_string(), true)));
    assert_eq!(parse_app_manifest_text("\"name\" \"X\"\n\"StateFlags\" \"+6\""), Some(("X".to_string(), true)));
    assert_eq!(parse_app_manifest_text("\"name\" \"X\"\n\"StateFlags\" \"abc\""), Some(("X".to_string(), false)));
    assert_eq!(parse_app_manifest_text("\"name\" \"X\"\n\"StateFlags\" \"4294967300\""), Some(("X".to_string(), false)));
    assert_eq!(parse_app_manifest_text("\"name\" \"X\"\n\"StateFlags\" \"4\"\n\"StateFlags\" \"1\""), Some(("X".to_string(), false)));
    assert_eq!(parse_app_manifest_text("\"name\" \"First\"\n\"name\" \"Second\""), Some(("Second".to_string(), false)));
    assert_eq!(parse_app_manifest_text("\"appid\" \"5\"\n\"StateFlags\" \"4\""), None);
    assert_eq!(parse_app_manifest_text(""), None);
}

#[test]
fn manifest_file_names() {
    assert_eq!(manifest_file_name(123), "steamapps/appmanifest_123.acf");
    assert_eq!(manifest_file_name(0), "steamapps/appmanifest_0.acf");
    assert_eq!(manifest_file_name(u64::MAX), "steamapps/appmanifest_18446744073709551615.acf");
}

#[test]
fn library_folder_paths() {
    let vdf = "\"libraryfolders\"\n{\n\t\"0\"\n\t{\n\t\t\"path\"\t\t\"/home/u/.steam/steam\"\n\t}\n\t\"1\"\n\t{\n\t\t\"path\"\t\t\"/mnt/lib\"\n\t\t\"label\"\t\t\"\"\n\t}\n}\n";
    assert_eq!(library_path_values(vdf), vec!["/home/u/.steam/steam".to_string(), "/mnt/lib".to_string()]);
    assert!(library_path_values("").is_empty());
}

fn app_block(app_id: u32, blob: &[u8]) -> Vec<u8> {
    let mut v = Vec::new();
    v.extend_from_slice(&app_id.to_le_bytes());
    v.extend_from_slice(&((blob.len() + 57) as u32).to_le_bytes());
    v.extend_from_slice(&[0u8; 57]);
    v.extend_from_slice(blob);
    v
}

fn name_blob(name: &[u8]) -> Vec<u8> {
    let mut b = vec![0x00, 0x63, 0x6f, 0x6d, 0x6d, 0x6f, 0x6e, 0x00, 0x02, 0x01, 0, 0, 0, 7, 0, 0, 0];
    b.extend_from_slice(&[0x01, 0x04, 0x00, 0x00, 0x00]);
    b.extend_from_slice(name);
    b.push(0);
    b.push(0x08);
    b
}

#[test]
fn appinfo_binary_parsing() {
    let mut data = vec![0x28, 0x44, 0x56, 0x07, 1, 0, 0, 0];
    data.extend(app_block(10, &name_blob(b"Half-Life")));
    data.extend(app_block(20, b"\x01\x05\x00\x00\x00no name here\x00"));
    data.extend(app_block(30, &name_blob(b"  Portal 2 ")));
    data.extend_from_slice(&0u32.to_le_bytes());
    data.extend(app_block(40, &name_blob(b"after the end")));
    let names = parse_appinfo_data(&data);
    let mut expected = HashMap::new();
    expected.insert(10u64, "Half-Life".to_string());
    expected.insert(30u64, "Portal 2".to_string());
    assert_eq!(names, expected);

    // format 0x29 has 8 more header bytes
    let mut v29 = vec![0x29, 0x44, 0x56, 0x07, 1, 0, 0, 0, 9, 9, 9, 9, 9, 9, 9, 9];
    v29.extend(app_block(7, &name_blob(b"Seven")));
    let names = parse_appinfo_data(&v29);
    assert_eq!(names.len(), 1);
    assert_eq!(names.get(&7), Some(&"Seven".to_string()));

    // a later block for the same app replaces the earlier name
    let mut twice = vec![0x27, 0x44, 0x56, 0x07, 1, 0, 0, 0];
    twice.extend(app_block(5, &name_blob(b"Old")));
    twice.extend(app_block(5, &name_blob(b"New")));
    assert_eq!(parse_appinfo_data(&twice).get(&5), Some(&"New".to_string()));

    // a truncated blob is cut at the end of the data
    let mut cut = vec![0x28, 0x44, 0x56, 0x07, 1, 0, 0, 0];
    let mut block = app_block(8, &name_blob(b"Cut"));
    block[4] = 0xff;
    cut.extend(block);
    assert_eq!(parse_appinfo_data(&cut).get(&8), Some(&"Cut".to_string()));
}

#[test]
fn appinfo_rejects_bad_headers() {
    assert!(parse_appinfo_data(&[]).is_empty());
    assert!(parse_appinfo_data(&[0x28, 0x44, 0x56]).is_empty());
    let mut bad = vec![0x28, 0x45, 0x56, 0x07, 1, 0, 0, 0];
    bad.extend(app_block(10, &name_blob(b"X")));
    assert!(parse_appinfo_data(&bad).is_empty());
    // a block whose metadata does not fit is ignored
    let mut short = vec![0x28, 0x44, 0x56, 0x07, 1, 0, 0, 0];
    short.extend_from_slice(&10u32.to_le_bytes());
    short.extend_from_slice(&100u32.to_le_bytes());
    short.extend_from_slice(&[0u8; 20]);
    assert!(parse_appinfo_data(&short).is_empty());
}

#[test]
fn blob_name_extraction() {
    assert_eq!(extract_name_from_kv(&name_blob(b"  Caf\xc3\xa9 \t")), Some("Caf\u{e9}".to_string()));
    assert_eq!(extract_name_from_kv(&name_blob(b"   ")), None);
    assert_eq!(extract_name_from_kv(&name_blob(b"\xff\xfe")), None);
    assert_eq!(extract_name_from_kv(b"\x01\x04\x00\x00\x00no terminator"), None);
    assert_eq!(extract_name_from_kv(b"\x01\x04\x00\x00"), None);
    assert_eq!(extract_name_from_kv(b""), None);
    assert_eq!(extract_name_from_kv(b"\x01\x04\x00\x00\x00A\x00\x01\x04\x00\x00\x00B\x00"), Some("A".to_string()));
}

/// The size text computed with floating point, for comparison.
fn float_human_size(bytes: u64) -> String {
    let units = ["B", "KiB", "MiB", "GiB", "TiB"];
    let mut s = bytes as f64;
    let mut i = 0;
    while s >= 1024.0 && i < units.len() - 1 {
        s /= 1024.0;
        i += 1;
    }
    if i == 0 { format!("{} B", bytes) } else { format!("{:.1} {}", s, units[i]) }
}

#[test]
fn human_sizes() {
    assert_eq!(human_size(0), "0 B");
    assert_eq!(human_size(1023), "1023 B");
    assert_eq!(human_size(1024), "1.0 KiB");
    assert_eq!(human_size(1536), "1.5 KiB");
    assert_eq!(human_size(1048576), "1.0 MiB");
    assert_eq!(human_size(5 * 1073741824 + 536870912), "5.5 GiB");
    assert_eq!(human_size(1099511627776 * 2048), "2048.0 TiB");
    assert_eq!(human_size(u64::MAX), "16777216.0 TiB");
    let samples: [u64; 14] = [
        1, 999, 1025, 1280, 1331, 10240, 123456789, 1099511627775, 1099511627776,
        9007199254740993, 18014398509481985, 123456789012345678, 9223372036854775807,
        18446744073709550591,
    ];
    for b in samples {
        assert_eq!(human_size(b), float_human_size(b), "bytes = {}", b);
    }
    let mut b: u64 = 1;
    while b < u64::MAX / 3 {
        assert_eq!(human_size(b), float_human_size(b), "bytes = {}", b);
        assert_eq!(human_size(b + 511), float_human_size(b + 511), "bytes = {}", b + 511);
        b = b * 3 + 7;
    }
}

#[test]
fn prefix_accessors() {
    let p = WinePrefix { app_id: 1, path: "/p".to_string(), size_bytes: 2048, game: None };
    assert_eq!(p.game_name(), "Unknown");
    assert!(!p.is_installed());
    assert!(!p.has_cloud_saves());
    assert_eq!(p.size_human(), "2.0 KiB");
    let q = WinePrefix {
        app_id: 2,
        path: "/q".to_string(),
        size_bytes: 5,
        game: Some(SteamGame { app_id: 2, name: "G".to_string(), cloud_saves: true, installed: true }),
    };
    assert_eq!(q.game_name(), "G");
    assert!(q.is_installed());
    assert!(q.has_cloud_saves());
}

#[test]
fn steam_root_candidate_list() {
    let home = Some("/home/u".to_string());
    let extra = vec!["/opt/steam".to_string()];
    assert_eq!(
        candidates_for_home(&home, &extra),
        vec![
            "/home/u/.steam/steam".to_string(),
            "/home/u/.local/share/Steam".to_string(),
            "/home/u/.var/app/com.valvesoftware.Steam/.steam/steam".to_string(),
            "/home/u/.var/app/com.valvesoftware.Steam/data/Steam".to_string(),
            "/opt/steam".to_string(),
        ]
    );
    assert_eq!(candidates_for_home(&None, &extra), extra);
    assert_eq!(join_path(&"/root/".to_string(), "x"), "/root/x");
    assert_eq!(join_path(&"".to_string(), "x"), "x");
    let found = steam_root_candidates(&extra);
    assert!(found.len() == 1 || found.len() == 5);
    assert_eq!(found.last(), Some(&"/opt/steam".to_string()));
}

fn root(path: &str, exists: bool, canonical: &str) -> RootProbe {
    RootProbe { path: path.to_string(), exists, canonical: canonical.to_string() }
}

#[test]
fn steam_root_selection() {
    let probes = vec![
        root("/home/u/.steam/steam", true, "/home/u/.local/share/Steam"),
        root("/home/u/.local/share/Steam", true, "/home/u/.local/share/Steam"),
        root("/home/u/.var/app/x", false, "/home/u/.var/app/x"),
        root("/opt/steam", true, "/opt/steam"),
    ];
    assert_eq!(select_steam_roots(&probes), vec!["/home/u/.steam/steam".to_string(), "/opt/steam".to_string()]);
    assert!(select_steam_roots(&vec![]).is_empty());
}

#[test]
fn library_path_collection() {
    let probes = vec![
        PathProbe { path: "/steam".to_string(), exists: true },
        PathProbe { path: "/mnt/a".to_string(), exists: true },
        PathProbe { path: "/mnt/gone".to_string(), exists: false },
        PathProbe { path: "/mnt/a".to_string(), exists: true },
    ];
    assert_eq!(collect_library_paths(&"/steam".to_string(), &probes), vec!["/steam".to_string(), "/mnt/a".to_string()]);
    let all = vec!["/a".to_string(), "/b".to_string(), "/a".to_string(), "/c".to_string(), "/b".to_string()];
    assert_eq!(unique_paths(&all), vec!["/a".to_string(), "/b".to_string(), "/c".to_string()]);
}

#[test]
fn prefix_directory_names() {
    assert_eq!(prefix_app_id("123"), Some(123));
    assert_eq!(prefix_app_id("0"), Some(0));
    assert_eq!(prefix_app_id("+7"), Some(7));
    assert_eq!(prefix_app_id("18446744073709551615"), Some(u64::MAX));
    assert_eq!(prefix_app_id("18446744073709551616"), None);
    assert_eq!(prefix_app_id("12a"), None);
    assert_eq!(prefix_app_id("-1"), None);
    assert_eq!(prefix_app_id("+"), None);
    assert_eq!(prefix_app_id(""), None);
    assert_eq!(prefix_app_id("pfx"), None);
}

fn probe(app_id: u64, path: &str, canonical: &str, manifests: Vec<Option<(&str, bool)>>, cloud: Vec<bool>) -> PrefixProbe {
    PrefixProbe {
        app_id,
        path: path.to_string(),
        canonical: canonical.to_string(),
        size_bytes: app_id * 10,
        manifests: manifests.into_iter().map(|m| m.map(|(n, i)| (n.to_string(), i))).collect(),
        cloud,
    }
}

#[test]
fn prefix_assembly() {
    let probes = vec![
        probe(1, "/l1/1", "/l1/1", vec![None, Some(("beta", true))], vec![false, true]),
        probe(2, "/l1/2", "/l1/2", vec![None, None], vec![true, true]),
        probe(3, "/l1/3", "/l1/3", vec![None, None], vec![true, false]),
        probe(1, "/l2/1", "/l1/1", vec![Some(("dup", false)), None], vec![true, true]),
        probe(4, "/l2/4", "/l2/4", vec![Some(("Alpha", false)), Some(("Zeta", true))], vec![false, false]),
    ];
    let mut cache1 = HashMap::new();
    cache1.insert(3u64, "Gamma".to_string());
    let mut cache2 = HashMap::new();
    cache2.insert(3u64, "Other".to_string());
    cache2.insert(9u64, "Nine".to_string());
    let r = assemble_prefixes(&probes, &vec![cache1, cache2]);
    let ids: Vec<u64> = r.iter().map(|p| p.app_id).collect();
    // Alpha, beta, Gamma, Unknown
    assert_eq!(ids, vec![4, 1, 3, 2]);
    assert_eq!(r[0].game.as_ref().unwrap().name, "Alpha");
    assert!(!r[0].game.as_ref().unwrap().installed);
    assert!(!r[0].game.as_ref().unwrap().cloud_saves);
    assert_eq!(r[1].path, "/l1/1");
    assert_eq!(r[1].size_bytes, 10);
    assert!(r[1].game.as_ref().unwrap().installed);
    assert!(r[1].game.as_ref().unwrap().cloud_saves);
    assert_eq!(r[2].game.as_ref().unwrap().name, "Gamma");
    assert!(!r[2].game.as_ref().unwrap().installed);
    assert!(r[2].game.as_ref().unwrap().cloud_saves);
    assert!(r[3].game.is_none());
    assert!(assemble_prefixes(&vec![], &vec![]).is_empty());
}

#[test]
fn prefix_assembly_sorts_case_insensitively_and_stably() {
    let probes = vec![
        probe(1, "/1", "/1", vec![Some(("B", false))], vec![]),
        probe(2, "/2", "/2", vec![Some(("a", false))], vec![]),
        probe(3, "/3", "/3", vec![Some(("b", false))], vec![]),
    ];
    let ids: Vec<u64> = assemble_prefixes(&probes, &vec![]).iter().map(|p| p.app_id).collect();
    assert_eq!(ids, vec![2, 1, 3]);
}

#[test]
fn kv_lines_read_back_what_was_written() {
    for (k, v) in [("name", "Test Game"), ("path", "/mnt/games"), ("x", ""), ("StateFlags", "4")] {
        let line = format!("\t\"{}\"\t\t\"{}\"", k, v);
        assert_eq!(parse_kv_line(&line), Some((k, v)));
    }
}

#[test]
fn decimal_ids_read_back() {
    for n in [0u64, 7, 10, 440, 1234567, u64::MAX] {
        assert_eq!(prefix_app_id(&preman::text::decimal_string(n)), Some(n));
    }
}

#[test]
fn each_canonical_prefix_listed_once() {
    let probes = vec![
        probe(5, "/a/5", "/real/5", vec![], vec![]),
        probe(5, "/b/5", "/real/5", vec![], vec![]),
        probe(6, "/b/6", "/real/6", vec![], vec![]),
        probe(5, "/c/5", "/real/5", vec![], vec![]),
    ];
    let r = assemble_prefixes(&probes, &vec![]);
    let paths: Vec<&str> = r.iter().map(|p| p.path.as_str()).collect();
    assert_eq!(paths, vec!["/a/5", "/b/6"]);
}

#[test]
fn path_equality_by_components() {
    let s = |x: &str| x.to_string();
    assert!(paths_equal(&s("/a//b/"), &s("/a/b")));
    assert!(paths_equal(&s("a/./b"), &s("a/b")));
    assert!(paths_equal(&s("/./a"), &s("/a")));
    assert!(!paths_equal(&s("./a"), &s("a")));
    assert!(!paths_equal(&s("/a"), &s("a")));
    assert!(!paths_equal(&s(""), &s(".")));
    assert!(!paths_equal(&s("/a/../b"), &s("/b")));
    assert_eq!(path_components_of("/x//y/"), vec![vec!['/'], vec!['x'], vec!['y']]);
    assert_eq!(path_components_of("./x"), vec![vec!['.'], vec!['x']]);
    assert!(path_components_of("").is_empty());
    assert!(contains_path(&vec![s("/l1"), s("/l2/")], &s("/l2")));
    assert!(!contains_path(&vec![s("/l1")], &s("/l2")));
}

#[test]
fn library_paths_compared_as_paths() {
    let probes = vec![
        PathProbe { path: "/mnt/lib/".to_string(), exists: true },
        PathProbe { path: "/root/steam/".to_string(), exists: true },
        PathProbe { path: "/mnt//lib".to_string(), exists: true },
    ];
    assert_eq!(collect_library_paths(&"/root/steam".to_string(), &probes), vec!["/root/steam".to_string(), "/mnt/lib/".to_string()]);
    assert_eq!(unique_paths(&vec!["/a".to_string(), "/a/".to_string(), "/b".to_string()]), vec!["/a".to_string(), "/b".to_string()]);
}
