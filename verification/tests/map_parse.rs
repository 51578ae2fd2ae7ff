use git_tools::json::{JsonNumber, JsonValue};
use git_tools::map::{
    is_commit_hash, normalize_map_entries, parse_map, parse_map_file, resolve_map, MapEntry, MapError,
};
use git_tools::oid::ObjectId;

fn object(members: Vec<(&str, JsonValue)>) -> JsonValue {
    JsonValue::Object(members.into_iter().map(|(k, v)| (k.to_string(), v)).collect())
}

fn text(s: &str) -> JsonValue {
    JsonValue::Str(s.to_string())
}

fn entry(hash: &str, message: &str) -> MapEntry {
    MapEntry { hash: hash.to_string(), message: message.to_string() }
}

fn oid_from_hex(hex: &str) -> ObjectId {
    let bytes = (0..hex.len() / 2).map(|i| u8::from_str_radix(&hex[2 * i..2 * i + 2], 16).unwrap()).collect();
    ObjectId::from_bytes(bytes)
}

#[test]
fn parse_hash_blocks() {
    let entries = parse_map_file("abc12345\n✨ Subject line\n\nBody line.\n\n---\n\nabcdef01\n🐛 Fix `thing`\n").unwrap();
    assert_eq!(entries.len(), 2);
    assert_eq!(entries[0].0, "abc12345");
}

#[test]
fn parse_entries_document() {
    let doc = object(vec![
        ("version", JsonValue::Number(JsonNumber::PosInt(1))),
        (
            "entries",
            JsonValue::Array(vec![
                object(vec![("hash", text("abc12345")), ("message", text("✨ Subject line\n\nBody line."))]),
                object(vec![("hash", text("abcdef01")), ("message", text("🐛 Fix `thing`"))]),
            ]),
        ),
    ]);
    let entries = parse_map(&doc).unwrap();
    assert_eq!(entries.len(), 2);
    assert_eq!(entries[0].0, "abc12345");
}

#[test]
fn parse_flat_object() {
    let doc = object(vec![("abc12345", text("✨ Subject\n\nBody."))]);
    let entries = parse_map(&doc).unwrap();
    assert_eq!(entries.len(), 1);
    assert_eq!(entries[0].0, "abc12345");
}

#[test]
fn block_map_details() {
    let entries =
        parse_map_file("# template\r\n\r\nABCDEF12\r\n  Subject  \r\n---\r\n# only comments\r\n---\r\n1234567890\nMsg\n").unwrap();
    assert_eq!(entries, vec![("abcdef12".to_string(), "Subject".to_string()), ("1234567890".to_string(), "Msg".to_string())]);
    assert!(matches!(parse_map_file("nothexline\nmsg\n"), Err(MapError::BadHashLine(h)) if h == "nothexline"));
    assert!(matches!(parse_map_file("abc12345\n\n"), Err(MapError::MissingBlockMessage(h)) if h == "abc12345"));
    assert!(matches!(parse_map_file("\n---\n# nothing\n"), Err(MapError::NoBlocks)));
}

#[test]
fn entry_normalisation() {
    let out = normalize_map_entries(&vec![entry("  ABCDEF12 ", "  hi  ")]).unwrap();
    assert_eq!(out, vec![("abcdef12".to_string(), "hi".to_string())]);
    assert!(matches!(normalize_map_entries(&vec![]), Err(MapError::NoEntries)));
    assert!(matches!(normalize_map_entries(&vec![entry("abc", "m")]), Err(MapError::BadHash(h)) if h == "abc"));
    assert!(matches!(normalize_map_entries(&vec![entry("abcdef12", "  ")]), Err(MapError::MissingMessage(h)) if h == "abcdef12"));
    assert!(is_commit_hash(&"abcdef12".chars().collect::<Vec<_>>()));
    assert!(!is_commit_hash(&"abcdef1".chars().collect::<Vec<_>>()));
    assert!(!is_commit_hash(&"z".repeat(8).chars().collect::<Vec<_>>()));
}

#[test]
fn json_map_refused_shapes() {
    assert!(matches!(parse_map(&text("x")), Err(MapError::NotAMap)));
    let flat_bad = object(vec![("abc12345", JsonValue::Null)]);
    assert!(matches!(parse_map(&flat_bad), Err(MapError::NotAMap)));
}

#[test]
fn prefixes_resolve_to_one_commit() {
    let a = oid_from_hex("abc1234500000000000000000000000000000000");
    let b = oid_from_hex("abc1239900000000000000000000000000000000");
    let range = vec![a.copy(), b.copy()];
    let ok = resolve_map(&vec![("abc12345".to_string(), "m1".to_string())], &range).unwrap();
    assert_eq!(ok.len(), 1);
    assert!(ok[0].oid.same(&a));
    assert_eq!(ok[0].message, "m1");
    assert!(matches!(resolve_map(&vec![("abc123".to_string(), "m".to_string())], &range), Err(MapError::AmbiguousPrefix(p)) if p == "abc123"));
    assert!(matches!(resolve_map(&vec![("ffff".to_string(), "m".to_string())], &range), Err(MapError::PrefixNotFound(p)) if p == "ffff"));
    let dup = vec![("abc12345".to_string(), "m".to_string()), ("abc123450".to_string(), "n".to_string())];
    assert!(matches!(resolve_map(&dup, &range), Err(MapError::DuplicateEntry(p)) if p == "abc123450"));
}

#[test]
fn exported_document_reads_back() {
    let a = ObjectId::from_bytes(vec![0xab; 20]);
    let b = ObjectId::from_bytes(vec![0x01; 20]);
    let doc = git_tools::map::export_map_document(&vec![(a, "  ✨ First  ".to_string()), (b, "Second".to_string())]);
    match &doc {
        JsonValue::Object(m) => {
            assert_eq!(m[0].0, "version");
            assert!(matches!(m[0].1, JsonValue::Number(JsonNumber::PosInt(1))));
            assert_eq!(m[1].0, "entries");
        }
        _ => panic!("not an object"),
    }
    let back = parse_map(&doc).unwrap();
    assert_eq!(back, vec![("ab".repeat(20), "✨ First".to_string()), ("01".repeat(20), "Second".to_string())]);
}
