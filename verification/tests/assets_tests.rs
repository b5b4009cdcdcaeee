use shiroa::assets::{prepare_from_bytes, AssetManager, DiskState};

fn dist() -> String {
    String::from("/dist")
}

#[test]
fn hash_is_a_real_digest() {
    // A digest of empty content still has the full 32-byte length, so the
    // hashing call cannot be handing its argument back.
    let a = prepare_from_bytes(String::from("x"), &Vec::new(), DiskState::Missing);
    assert_eq!(a.hash.len(), 32);
    let b = prepare_from_bytes(String::from("x"), &vec![1, 2, 3], DiskState::Missing);
    assert_eq!(b.hash.len(), 32);
    assert_ne!(a.hash, b.hash);
    let c = prepare_from_bytes(String::from("y"), &vec![1, 2, 3], DiskState::Missing);
    assert_eq!(b.hash, c.hash);
}

#[test]
fn asset_dedup_single_write_no_conflict() {
    // Identical content for the same destination from two pages: one
    // physical write, no conflict.
    let mut am = AssetManager::new();
    let content = vec![1u8, 2, 3];
    let a = prepare_from_bytes(String::from("logo.png"), &content, DiskState::Missing);
    let r1 = am.submit_assets(&String::from("pageA"), &vec![a], &dist());
    assert_eq!(r1.processed.len(), 1);
    assert!(r1.processed[0].written);
    assert_eq!(r1.conflicts.len(), 0);

    let b = prepare_from_bytes(String::from("logo.png"), &content, DiskState::Missing);
    let r2 = am.submit_assets(&String::from("pageB"), &vec![b], &dist());
    assert!(!r2.processed[0].written);
    assert_eq!(r2.conflicts.len(), 0);
}

#[test]
fn asset_conflict_first_committer_wins() {
    let mut am = AssetManager::new();
    let c1 = vec![1u8];
    let c2 = vec![2u8];
    let a = prepare_from_bytes(String::from("style.css"), &c1, DiskState::Missing);
    let r1 = am.submit_assets(&String::from("pageA"), &vec![a], &dist());
    assert!(r1.processed[0].written);
    assert_eq!(r1.conflicts.len(), 0);

    // Different content from another page: exactly one conflict, no write.
    let b = prepare_from_bytes(String::from("style.css"), &c2, DiskState::Missing);
    let r2 = am.submit_assets(&String::from("pageB"), &vec![b], &dist());
    assert!(!r2.processed[0].written);
    assert_eq!(r2.conflicts.len(), 1);
    assert_eq!(r2.conflicts[0], "/dist/style.css");

    // The second page resubmitting matching content: still no write and no
    // ownership change, so the owner may later overwrite and the second
    // page still may not.
    let b2 = prepare_from_bytes(String::from("style.css"), &c1, DiskState::Missing);
    let r3 = am.submit_assets(&String::from("pageB"), &vec![b2], &dist());
    assert!(!r3.processed[0].written);
    assert_eq!(r3.conflicts.len(), 0);

    let b3 = prepare_from_bytes(String::from("style.css"), &c2, DiskState::Missing);
    let r4 = am.submit_assets(&String::from("pageB"), &vec![b3], &dist());
    assert!(!r4.processed[0].written);
    assert_eq!(r4.conflicts.len(), 1);

    let a2 = prepare_from_bytes(String::from("style.css"), &c2, DiskState::Missing);
    let r5 = am.submit_assets(&String::from("pageA"), &vec![a2], &dist());
    assert!(r5.processed[0].written);
    assert_eq!(r5.conflicts.len(), 0);
}

#[test]
fn stale_asset_cleanup() {
    // Page A produces {x, y}, then only {x}: y is deleted, x untouched.
    let mut am = AssetManager::new();
    let content_x = vec![10u8];
    let content_y = vec![20u8];
    let x = prepare_from_bytes(String::from("x"), &content_x, DiskState::Missing);
    let y = prepare_from_bytes(String::from("y"), &content_y, DiskState::Missing);
    let r1 = am.submit_assets(&String::from("a.typ"), &vec![x, y], &dist());
    assert_eq!(r1.stale.len(), 0);
    assert!(r1.processed[0].written && r1.processed[1].written);

    let x2 = prepare_from_bytes(String::from("x"), &content_x, DiskState::Missing);
    let r2 = am.submit_assets(&String::from("a.typ"), &vec![x2], &dist());
    assert!(!r2.processed[0].written, "same hash, no rewrite");
    assert_eq!(r2.stale, vec![String::from("/dist/y")]);
    assert!(!am.has_record(&String::from("y"), &dist()));
    assert!(am.has_record(&String::from("x"), &dist()));
}

#[test]
fn destination_outside_output_dir_is_skipped() {
    let mut am = AssetManager::new();
    let a = prepare_from_bytes(String::from("/elsewhere/f"), &vec![1u8], DiskState::Missing);
    let r = am.submit_assets(&String::from("p"), &vec![a], &dist());
    assert!(!r.processed[0].written);
    assert_eq!(r.conflicts.len(), 0);
    assert!(!am.has_record(&String::from("/elsewhere/f"), &dist()));
}

#[test]
fn absolute_destination_under_output_dir_is_kept() {
    let mut am = AssetManager::new();
    let a = prepare_from_bytes(String::from("/dist/deep/f"), &vec![1u8], DiskState::Missing);
    let r = am.submit_assets(&String::from("p"), &vec![a], &dist());
    assert!(r.processed[0].written);
}

#[test]
fn adopt_matching_disk_file_without_write() {
    let mut am = AssetManager::new();
    let content = vec![5u8, 6];
    let probe = prepare_from_bytes(String::from("k"), &content, DiskState::Missing);
    let on_disk = DiskState::Exists(probe.hash.clone());
    let a = prepare_from_bytes(String::from("k"), &content, on_disk);
    let r = am.submit_assets(&String::from("p"), &vec![a], &dist());
    assert!(!r.processed[0].written);
    assert_eq!(r.conflicts.len(), 0);
    assert!(am.has_record(&String::from("k"), &dist()));
}

#[test]
fn adopt_conflicting_disk_file_keeps_disk_content() {
    let mut am = AssetManager::new();
    let ours = vec![1u8];
    let theirs = vec![2u8];
    let disk_hash = prepare_from_bytes(String::from("k"), &theirs, DiskState::Missing).hash;
    let a = prepare_from_bytes(String::from("k"), &ours, DiskState::Exists(disk_hash));
    let r = am.submit_assets(&String::from("p"), &vec![a], &dist());
    // Conflict logged, nothing written, and the record now carries the
    // disk's hash, so resubmitting the disk content is a clean reuse.
    assert!(!r.processed[0].written);
    assert_eq!(r.conflicts.len(), 1);
    let b = prepare_from_bytes(String::from("k"), &theirs, DiskState::Missing);
    let r2 = am.submit_assets(&String::from("p"), &vec![b], &dist());
    assert!(!r2.processed[0].written);
    assert_eq!(r2.conflicts.len(), 0);
}

#[test]
fn same_page_overwrite_changed_content() {
    let mut am = AssetManager::new();
    let a = prepare_from_bytes(String::from("f"), &vec![1u8], DiskState::Missing);
    am.submit_assets(&String::from("p"), &vec![a], &dist());
    let b = prepare_from_bytes(String::from("f"), &vec![2u8], DiskState::Missing);
    let r = am.submit_assets(&String::from("p"), &vec![b], &dist());
    assert!(r.processed[0].written);
    assert_eq!(r.conflicts.len(), 0);
}
