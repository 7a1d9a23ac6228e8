use photo_sort::metadata::Metadata;

// --- Tags ---

#[test]
fn add_tag_to_new_file() {
    let mut meta = Metadata::default();
    meta.add_tag("2020/photo.jpg", "vacances");
    assert_eq!(meta.get_tags("2020/photo.jpg"), vec!["vacances"]);
}

#[test]
fn add_multiple_tags() {
    let mut meta = Metadata::default();
    meta.add_tag("2020/photo.jpg", "vacances");
    meta.add_tag("2020/photo.jpg", "plage");
    assert_eq!(meta.get_tags("2020/photo.jpg"), vec!["vacances", "plage"]);
}

#[test]
fn add_duplicate_tag_is_noop() {
    let mut meta = Metadata::default();
    meta.add_tag("2020/photo.jpg", "vacances");
    meta.add_tag("2020/photo.jpg", "vacances");
    assert_eq!(meta.get_tags("2020/photo.jpg"), vec!["vacances"]);
}

#[test]
fn remove_tag() {
    let mut meta = Metadata::default();
    meta.add_tag("2020/photo.jpg", "vacances");
    meta.add_tag("2020/photo.jpg", "plage");
    meta.remove_tag("2020/photo.jpg", "vacances");
    assert_eq!(meta.get_tags("2020/photo.jpg"), vec!["plage"]);
}

#[test]
fn remove_nonexistent_tag_is_noop() {
    let mut meta = Metadata::default();
    meta.add_tag("2020/photo.jpg", "vacances");
    meta.remove_tag("2020/photo.jpg", "inexistant");
    assert_eq!(meta.get_tags("2020/photo.jpg"), vec!["vacances"]);
}

#[test]
fn remove_tag_on_unknown_file_is_noop() {
    let mut meta = Metadata::default();
    meta.remove_tag("unknown.jpg", "tag");
    assert!(meta.get_tags("unknown.jpg").is_empty());
}

#[test]
fn get_tags_unknown_file_returns_empty() {
    let meta = Metadata::default();
    assert!(meta.get_tags("nonexistent.jpg").is_empty());
}

// --- Ratings ---

#[test]
fn set_rating() {
    let mut meta = Metadata::default();
    meta.set_rating("2020/photo.jpg", Some(4));
    assert_eq!(meta.get_rating("2020/photo.jpg"), Some(4));
}

#[test]
fn update_rating() {
    let mut meta = Metadata::default();
    meta.set_rating("2020/photo.jpg", Some(3));
    meta.set_rating("2020/photo.jpg", Some(5));
    assert_eq!(meta.get_rating("2020/photo.jpg"), Some(5));
}

#[test]
fn clear_rating() {
    let mut meta = Metadata::default();
    meta.set_rating("2020/photo.jpg", Some(4));
    meta.set_rating("2020/photo.jpg", None);
    assert_eq!(meta.get_rating("2020/photo.jpg"), None);
}

#[test]
fn get_rating_unknown_file_returns_none() {
    let meta = Metadata::default();
    assert_eq!(meta.get_rating("nonexistent.jpg"), None);
}

// --- Filters ---

#[test]
fn files_with_tag_returns_matching() {
    let mut meta = Metadata::default();
    meta.add_tag("a.jpg", "vacances");
    meta.add_tag("b.jpg", "vacances");
    meta.add_tag("c.jpg", "noel");

    let mut files = meta.files_with_tag("vacances");
    files.sort();
    assert_eq!(files, vec!["a.jpg", "b.jpg"]);
}

#[test]
fn files_with_tag_returns_empty_for_unknown_tag() {
    let meta = Metadata::default();
    assert!(meta.files_with_tag("inexistant").is_empty());
}

#[test]
fn files_with_min_rating_returns_matching() {
    let mut meta = Metadata::default();
    meta.set_rating("a.jpg", Some(3));
    meta.set_rating("b.jpg", Some(5));
    meta.set_rating("c.jpg", Some(1));
    meta.set_rating("d.jpg", None);

    let mut files = meta.files_with_min_rating(3);
    files.sort();
    assert_eq!(files, vec!["a.jpg", "b.jpg"]);
}

#[test]
fn files_with_min_rating_excludes_unrated() {
    let mut meta = Metadata::default();
    meta.set_rating("a.jpg", None);
    assert!(meta.files_with_min_rating(1).is_empty());
}

#[test]
fn tags_and_rating_on_same_file() {
    let mut meta = Metadata::default();
    meta.add_tag("photo.jpg", "famille");
    meta.set_rating("photo.jpg", Some(5));

    assert_eq!(meta.get_tags("photo.jpg"), vec!["famille"]);
    assert_eq!(meta.get_rating("photo.jpg"), Some(5));
}

// --- Record plumbing used by persistence ---

#[test]
fn entries_plain_reflects_store() {
    let mut meta = Metadata::new();
    meta.add_tag("2020/a.jpg", "x");
    meta.set_rating("2020/a.jpg", Some(2));
    meta.set_rating("2021/b.jpg", None);
    let entries = meta.entries_plain();
    assert_eq!(entries.len(), 2);
    assert_eq!(entries[0].0, "2020/a.jpg");
    assert_eq!(entries[0].1, vec!["x"]);
    assert_eq!(entries[0].2, Some(2));
    assert_eq!(entries[1].0, "2021/b.jpg");
    assert!(entries[1].1.is_empty());
    assert_eq!(entries[1].2, None);
}

#[test]
fn rename_file_rekeys_record() {
    let mut meta = Metadata::new();
    meta.add_tag("2020/a.jpg", "x");
    meta.rename_file("2020/a.jpg", "2021/a.jpg");
    assert!(meta.get_tags("2020/a.jpg").is_empty());
    assert_eq!(meta.get_tags("2021/a.jpg"), vec!["x"]);
}

#[test]
fn remove_file_drops_record() {
    let mut meta = Metadata::new();
    meta.add_tag("2020/a.jpg", "x");
    meta.remove_file("2020/a.jpg");
    assert!(meta.get_tags("2020/a.jpg").is_empty());
    assert_eq!(meta.len(), 0);
}

#[test]
fn metadata_round_trip_through_plain_entries() {
    let mut meta = Metadata::new();
    meta.add_tag("2020/photo.jpg", "vacances");
    meta.add_tag("2020/photo.jpg", "plage");
    meta.set_rating("2020/photo.jpg", Some(4));
    meta.add_tag("2019/autre.jpg", "noel");
    meta.set_rating("2021/vide.jpg", None);

    // Rebuild the store from its persisted shape, entry by entry.
    let mut rebuilt = Metadata::new();
    for (file, tags, rating) in meta.entries_plain() {
        rebuilt.set_rating(&file, rating);
        for tag in tags {
            rebuilt.add_tag(&file, &tag);
        }
    }

    assert_eq!(rebuilt.len(), meta.len());
    assert_eq!(rebuilt.get_tags("2020/photo.jpg"), vec!["vacances", "plage"]);
    assert_eq!(rebuilt.get_rating("2020/photo.jpg"), Some(4));
    assert_eq!(rebuilt.get_tags("2019/autre.jpg"), vec!["noel"]);
    assert_eq!(rebuilt.get_rating("2021/vide.jpg"), None);
    assert!(rebuilt.get_tags("2021/vide.jpg").is_empty());
}
