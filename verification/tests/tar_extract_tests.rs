use intershare_sdk::extract::{EntryAction, ExtractSession};
use intershare_sdk::paths::{get_unique_path, normalize_path, sanitize_rel_path};
use intershare_sdk::tarfmt::{
    encode_archive_bytes, parse_archive, TarEntry, FLAG_DIR, FLAG_FILE,
};

fn file_entry(name: &str, data: Vec<u8>) -> TarEntry {
    TarEntry {
        name: name.to_string(),
        typeflag: FLAG_FILE,
        data,
    }
}

fn dir_entry(name: &str) -> TarEntry {
    TarEntry {
        name: name.to_string(),
        typeflag: FLAG_DIR,
        data: Vec::new(),
    }
}

#[test]
fn archive_round_trips_with_sizes_and_structure() {
    let payload_a: Vec<u8> = (0..100_000u32).map(|i| (i % 251) as u8).collect();
    let payload_b = b"hello world".to_vec();
    let entries = vec![
        file_entry("a.txt", payload_a.clone()),
        dir_entry("photos"),
        file_entry("photos/b.bin", payload_b.clone()),
    ];
    let total: usize = entries.iter().map(|e| e.data.len()).sum();

    let bytes = encode_archive_bytes(&entries).expect("entries should encode");
    let parsed = parse_archive(&bytes).expect("archive should parse");

    assert_eq!(parsed.len(), 3);
    assert_eq!(parsed[0].name, "a.txt");
    assert_eq!(parsed[0].typeflag, FLAG_FILE);
    assert_eq!(parsed[0].data, payload_a);
    assert_eq!(parsed[1].name, "photos");
    assert_eq!(parsed[1].typeflag, FLAG_DIR);
    assert_eq!(parsed[2].name, "photos/b.bin");
    assert_eq!(parsed[2].data, payload_b);
    let parsed_total: usize = parsed.iter().map(|e| e.data.len()).sum();
    assert_eq!(parsed_total, total);
}

#[test]
fn one_megabyte_file_round_trips() {
    let payload: Vec<u8> = (0..1_048_576u32).map(|i| (i % 199) as u8).collect();
    let entries = vec![file_entry("a.bin", payload.clone())];
    let bytes = encode_archive_bytes(&entries).expect("should encode");
    let parsed = parse_archive(&bytes).expect("should parse");
    assert_eq!(parsed.len(), 1);
    assert_eq!(parsed[0].name, "a.bin");
    assert_eq!(parsed[0].data.len(), 1_048_576);
    assert_eq!(parsed[0].data, payload);
}

#[test]
fn oversized_names_are_refused() {
    let long_name = "x".repeat(101);
    let entries = vec![file_entry(&long_name, Vec::new())];
    assert!(encode_archive_bytes(&entries).is_none());
    let empty_name = vec![file_entry("", Vec::new())];
    assert!(encode_archive_bytes(&empty_name).is_none());
}

#[test]
fn truncated_archive_does_not_parse() {
    let entries = vec![file_entry("a.txt", b"abc".to_vec())];
    let bytes = encode_archive_bytes(&entries).expect("should encode");
    let truncated: Vec<u8> = bytes[..bytes.len() - 600].to_vec();
    assert!(parse_archive(&truncated).is_none());
}

#[test]
fn sanitize_strips_escapes() {
    // dot-dot, roots and drive prefixes disappear; the file lands
    // inside the destination
    let cleaned = sanitize_rel_path(&"../../etc/passwd".to_string());
    assert_eq!(cleaned, vec!["etc".to_string(), "passwd".to_string()]);
    let cleaned = sanitize_rel_path(&"/etc/passwd".to_string());
    assert_eq!(cleaned, vec!["etc".to_string(), "passwd".to_string()]);
    let cleaned = sanitize_rel_path(&"C:\\evil\\path".to_string());
    assert_eq!(cleaned, vec!["evil".to_string(), "path".to_string()]);
    let cleaned = sanitize_rel_path(&"./a/./b".to_string());
    assert_eq!(cleaned, vec!["a".to_string(), "b".to_string()]);
    assert!(sanitize_rel_path(&"../..".to_string()).is_empty());
}

#[test]
fn normalize_takes_the_last_safe_component() {
    assert_eq!(normalize_path(&"/tmp/a.bin".to_string()), "a.bin");
    assert_eq!(normalize_path(&"a/b/".to_string()), "b");
    assert_eq!(normalize_path(&"photos".to_string()), "photos");
    assert_eq!(normalize_path(&"///".to_string()), ".");
    assert_eq!(normalize_path(&"..".to_string()), ".");
}

#[test]
fn unique_path_counts_up_and_keeps_extensions() {
    let existing = vec![
        "report.pdf".to_string(),
        "report (1).pdf".to_string(),
        "pictures".to_string(),
    ];
    assert_eq!(get_unique_path(&"fresh.txt".to_string(), &existing), "fresh.txt");
    assert_eq!(get_unique_path(&"report.pdf".to_string(), &existing), "report (2).pdf");
    assert_eq!(get_unique_path(&"pictures".to_string(), &existing), "pictures (1)");
}

#[test]
fn unique_path_takes_the_smallest_free_counter() {
    // a later counter being taken does not skip the first free one
    let existing = vec!["a.txt".to_string(), "a (2).txt".to_string()];
    assert_eq!(get_unique_path(&"a.txt".to_string(), &existing), "a (1).txt");
}

#[test]
fn path_escape_lands_inside_destination() {
    let mut session = ExtractSession::new("dest".to_string(), Vec::new());
    let action = session.process_entry(&"../../etc/passwd".to_string(), FLAG_FILE);
    match action {
        EntryAction::WriteFile(path) => assert_eq!(path, "dest/etc/passwd"),
        _ => panic!("entry should be written"),
    }
}

#[test]
fn entry_with_no_safe_component_is_skipped() {
    let mut session = ExtractSession::new("dest".to_string(), Vec::new());
    let action = session.process_entry(&"../..".to_string(), FLAG_FILE);
    assert!(matches!(action, EntryAction::Skipped));
    assert!(session.restored.is_empty());
}

#[test]
fn collision_renames_root_and_file() {
    // destination already holds pictures/ and report.pdf
    let existing = vec!["pictures".to_string(), "report.pdf".to_string()];
    let mut session = ExtractSession::new("dest".to_string(), existing);

    // archive holds a directory `pictures` ...
    let action = session.process_entry(&"pictures".to_string(), FLAG_DIR);
    match action {
        EntryAction::MakeDir(path) => assert_eq!(path, "dest/pictures (1)"),
        _ => panic!("directory should be created"),
    }
    // ... its contents go below the renamed root ...
    let action = session.process_entry(&"pictures/img.png".to_string(), FLAG_FILE);
    match action {
        EntryAction::WriteFile(path) => assert_eq!(path, "dest/pictures (1)/img.png"),
        _ => panic!("file should be written"),
    }
    // ... and a single-file entry `report.pdf` is renamed too
    let action = session.process_entry(&"report.pdf".to_string(), FLAG_FILE);
    match action {
        EntryAction::WriteFile(path) => assert_eq!(path, "dest/report (1).pdf"),
        _ => panic!("file should be written"),
    }
}

#[test]
fn cancel_stops_within_one_entry() {
    let mut session = ExtractSession::new("dest".to_string(), Vec::new());
    let action = session.process_entry(&"a.txt".to_string(), FLAG_FILE);
    assert!(matches!(action, EntryAction::WriteFile(_)));
    let before = session.restored.len();
    session.cancel();
    let action = session.process_entry(&"b.txt".to_string(), FLAG_FILE);
    assert!(matches!(action, EntryAction::Stopped));
    assert_eq!(session.restored.len(), before);
    // the paths list never outruns the processed entries
    assert!(session.restored.len() <= 1);
}

#[test]
fn produced_archive_extracts_to_matching_structure() {
    // producer and consumer around the same archive: relative
    // structure and sizes survive
    let entries = vec![
        dir_entry("photos"),
        file_entry("photos/one.bin", vec![1, 2, 3]),
        file_entry("top.txt", vec![9; 42]),
    ];
    let bytes = encode_archive_bytes(&entries).expect("should encode");
    let parsed = parse_archive(&bytes).expect("should parse");

    let mut session = ExtractSession::new("out".to_string(), Vec::new());
    let mut written = 0usize;
    for entry in &parsed {
        match session.process_entry(&entry.name, entry.typeflag) {
            EntryAction::MakeDir(path) => assert_eq!(path, "out/photos"),
            EntryAction::WriteFile(path) => {
                written += entry.data.len();
                assert!(path == "out/photos/one.bin" || path == "out/top.txt");
            }
            _ => panic!("nothing should be skipped"),
        }
    }
    assert_eq!(written, 3 + 42);
    assert_eq!(session.restored.len(), 3);
}
