use git_tools::blob::{
    blob_ranking, find_git_root, rank_blobs, ranking_order, report_lines, BlobFormat, BlobItem, BlobScanSummary, Inventory,
    ObjectKind, RootSearch,
};
use git_tools::oid::ObjectId;

fn oid(n: u8) -> ObjectId {
    ObjectId::from_bytes(vec![n; 20])
}

fn item(n: u8, size: usize, format: BlobFormat) -> BlobItem {
    BlobItem { id: oid(n), size, format }
}

#[test]
fn nul_byte_means_binary() {
    assert_eq!(BlobFormat::from_bytes(b"hello\n"), BlobFormat::Text);
    assert_eq!(BlobFormat::from_bytes(b"he\0llo"), BlobFormat::Binary);
    assert_eq!(BlobFormat::from_bytes(b""), BlobFormat::Text);
}

#[test]
fn ranking_is_stable_and_descending() {
    assert_eq!(ranking_order(&vec![5, 9, 5, 1, 9]), vec![1, 4, 0, 2, 3]);
    assert!(ranking_order(&vec![]).is_empty());
    let items = vec![item(1, 10, BlobFormat::Text), item(2, 30, BlobFormat::Binary), item(3, 10, BlobFormat::Binary)];
    let ranked = rank_blobs(&items);
    let ids: Vec<u8> = ranked.iter().map(|b| b.id.bytes[0]).collect();
    assert_eq!(ids, vec![2, 1, 3]);
    assert_eq!(ranked[0].format, BlobFormat::Binary);
}

#[test]
fn blobs_compare_by_size() {
    assert!(item(1, 10, BlobFormat::Text) == item(2, 10, BlobFormat::Binary));
    assert!(item(1, 10, BlobFormat::Text) < item(2, 11, BlobFormat::Text));
    assert!(item(1, 12, BlobFormat::Text) > item(2, 11, BlobFormat::Text));
}

#[test]
fn inventory_counts_trees_and_blob_bytes() {
    let mut inv = Inventory::new();
    inv.record(oid(1), ObjectKind::Blob, 100);
    inv.record(oid(2), ObjectKind::Tree, 7);
    inv.record(oid(3), ObjectKind::Commit, 5);
    inv.record(oid(4), ObjectKind::Blob, 10_000);
    inv.record(oid(5), ObjectKind::Tag, 1);
    assert_eq!(inv.blobs.len(), 2);
    assert_eq!(inv.trees.len(), 1);
    assert_eq!(inv.blob_size, 10_100);
    let summary = inv.summary();
    assert_eq!(summary.blob_count, 2);
    assert_eq!(summary.tree_count, 1);
    assert_eq!(summary.total_size, "9.86328125 KiB");
    inv.clear();
    assert_eq!(inv.all_size(), "0 B");
}

#[test]
fn try_record_refuses_an_overflowing_blob() {
    let mut inv = Inventory::new();
    assert!(inv.try_record(oid(1), ObjectKind::Blob, u64::MAX - 1));
    assert!(inv.try_record(oid(2), ObjectKind::Tree, u64::MAX));
    assert!(!inv.try_record(oid(3), ObjectKind::Blob, 2));
    assert_eq!(inv.blobs.len(), 1);
    assert_eq!(inv.trees.len(), 1);
    assert_eq!(inv.blob_size, u64::MAX - 1);
    assert!(inv.try_record(oid(4), ObjectKind::Blob, 1));
    assert_eq!(inv.blob_size, u64::MAX);
}

#[test]
fn report_layout() {
    let summary = BlobScanSummary { blob_count: 3, tree_count: 2, total_size: "1 KiB".to_string() };
    let ranked = vec![item(0xab, 100, BlobFormat::Text), item(0xcd, 10_000, BlobFormat::Binary)];
    let lines = report_lines(&summary, &ranked, &vec![oid(0xef)], 10);
    assert_eq!(lines[0], "Found 3 blob(s) and 2 tree(s) (total blob size 1 KiB)");
    assert_eq!(lines[1], "Top 10 largest blob(s):");
    assert_eq!(lines[2], "efefefef is missing or corrupt");
    assert_eq!(lines[3], format!(" 1 |     100 B | {} | Text", "ab".repeat(20)));
    assert_eq!(lines[4], format!(" 2 | 9.765625 KiB | {} | Binary", "cd".repeat(20)));
    assert_eq!(lines.len(), 5);
    let top_one = report_lines(&summary, &ranked, &vec![], 1);
    assert_eq!(top_one.len(), 3);
    assert_eq!(top_one[2], format!("1 |     100 B | {} | Text", "ab".repeat(20)));
    let none = report_lines(&summary, &ranked, &vec![], 0);
    assert_eq!(none.len(), 2);
}

#[test]
fn root_search_steps() {
    assert!(matches!(find_git_root("/a/b", true, Some("/a".to_string())), RootSearch::Found(p) if p == "/a/b"));
    assert!(matches!(find_git_root("/a/b", false, Some("/a".to_string())), RootSearch::Next(p) if p == "/a"));
    assert!(matches!(find_git_root("/", false, None), RootSearch::Missing));
}

#[test]
fn ranking_from_a_scan() {
    let mut inv = Inventory::new();
    inv.record(oid(1), ObjectKind::Blob, 5);
    inv.record(oid(2), ObjectKind::Blob, 50);
    inv.record(oid(3), ObjectKind::Tree, 1);
    let items = vec![item(1, 5, BlobFormat::Text), item(2, 50, BlobFormat::Text)];
    let ranking = blob_ranking(&inv, &items, vec![oid(9)]);
    assert_eq!(ranking.summary.blob_count, 2);
    assert_eq!(ranking.summary.tree_count, 1);
    assert_eq!(ranking.summary.total_size, "55 B");
    assert_eq!(ranking.ranked[0].size, 50);
    assert_eq!(ranking.corrupt.len(), 1);
}
