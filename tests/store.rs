use image_dedup::record::ImageInfo;
use image_dedup::store::{cache_get, cache_prune, delete_outcome, same_text};

fn row(path: &str, size: u64, mtime: i64) -> ImageInfo {
    ImageInfo {
        path: path.to_string(),
        name: "f.jpg".to_string(),
        size,
        created_at: 3,
        modified_at: mtime,
        phash: Some("0011223344556677".to_string()),
        sha1: Some("abc".to_string()),
        exif: None,
    }
}

#[test]
fn unchanged_file_is_served_from_the_store() {
    let hit = cache_get(Some(row("/p/f.jpg", 10, 100)), "/p/f.jpg", 100, 10).unwrap();
    assert_eq!(hit.path, "/p/f.jpg");
    assert_eq!(hit.size, 10);
    assert_eq!(hit.modified_at, 100);
    assert_eq!(hit.created_at, 3);
    assert_eq!(hit.phash.as_deref(), Some("0011223344556677"));
    assert_eq!(hit.sha1.as_deref(), Some("abc"));
}

#[test]
fn changed_size_or_mtime_is_a_miss() {
    assert!(cache_get(Some(row("/p/f.jpg", 10, 100)), "/p/f.jpg", 100, 11).is_none());
    assert!(cache_get(Some(row("/p/f.jpg", 10, 100)), "/p/f.jpg", 101, 10).is_none());
    assert!(cache_get(Some(row("/p/f.jpg", 10, 100)), "/p/g.jpg", 100, 10).is_none());
    assert!(cache_get(None, "/p/f.jpg", 100, 10).is_none());
}

#[test]
fn prune_removes_exactly_the_absent_paths() {
    let stored = vec!["/a".to_string(), "/b".to_string(), "/c".to_string()];
    let valid = vec!["/c".to_string(), "/a".to_string(), "/new".to_string()];
    assert_eq!(cache_prune(&stored, &valid), vec!["/b".to_string()]);
}

#[test]
fn prune_after_a_file_was_removed_from_disk() {
    // the folder held two cached files; one was deleted before the rescan
    let stored = vec!["/d/one.png".to_string(), "/d/two.png".to_string()];
    let rescanned = vec!["/d/two.png".to_string()];
    assert_eq!(cache_prune(&stored, &rescanned), vec!["/d/one.png".to_string()]);
    assert!(cache_prune(&stored, &stored).is_empty());
    assert_eq!(cache_prune(&stored, &vec![]), stored);
}

#[test]
fn delete_of_missing_file_reports_its_error() {
    let failed = delete_outcome("/nope.jpg".to_string(), Err("No such file or directory".to_string()));
    assert!(!failed.deleted);
    assert_eq!(failed.path, "/nope.jpg");
    assert!(!failed.error.unwrap().is_empty());
    let ok = delete_outcome("/yes.jpg".to_string(), Ok(()));
    assert!(ok.deleted);
    assert!(ok.error.is_none());
}

#[test]
fn same_text_compares_characters() {
    assert!(same_text("éa", "éa"));
    assert!(!same_text("ab", "abc"));
    assert!(!same_text("ab", "ac"));
    assert!(same_text("", ""));
}
