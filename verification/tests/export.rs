use photo_sort::export::{filter_files, next_export_name};
use photo_sort::metadata::Metadata;

fn all_three() -> Vec<String> {
    vec![
        "2020/a.jpg".to_string(),
        "2020/b.jpg".to_string(),
        "2021/c.jpg".to_string(),
    ]
}

#[test]
fn filter_by_tag() {
    let mut meta = Metadata::default();
    meta.add_tag("2020/a.jpg", "vacances");
    meta.add_tag("2020/b.jpg", "noel");

    let result = filter_files(&meta, &all_three(), Some("vacances"), None);
    assert_eq!(result, vec!["2020/a.jpg"]);
}

#[test]
fn filter_by_rating() {
    let mut meta = Metadata::default();
    meta.set_rating("2020/a.jpg", Some(5));
    meta.set_rating("2020/b.jpg", Some(2));
    meta.set_rating("2021/c.jpg", Some(4));

    let result = filter_files(&meta, &all_three(), None, Some(4));
    assert_eq!(result, vec!["2020/a.jpg", "2021/c.jpg"]);
}

#[test]
fn filter_by_tag_and_rating() {
    let mut meta = Metadata::default();
    meta.add_tag("2020/a.jpg", "vacances");
    meta.set_rating("2020/a.jpg", Some(5));
    meta.add_tag("2020/b.jpg", "vacances");
    meta.set_rating("2020/b.jpg", Some(2));
    meta.add_tag("2021/c.jpg", "noel");
    meta.set_rating("2021/c.jpg", Some(5));

    let result = filter_files(&meta, &all_three(), Some("vacances"), Some(4));
    assert_eq!(result, vec!["2020/a.jpg"]);
}

#[test]
fn filter_no_match_returns_empty() {
    let meta = Metadata::default();
    let all = vec!["2020/a.jpg".to_string()];

    let result = filter_files(&meta, &all, Some("inexistant"), None);
    assert!(result.is_empty());
}

#[test]
fn filter_no_filters_returns_all() {
    let meta = Metadata::default();
    let all = vec!["2020/a.jpg".to_string(), "2020/b.jpg".to_string()];

    let result = filter_files(&meta, &all, None, None);
    assert_eq!(result.len(), 2);
}

#[test]
fn export_name_collision_increments() {
    let taken: Vec<String> = Vec::new();
    assert_eq!(next_export_name("a.jpg", &taken), "a.jpg");

    let taken = vec!["a.jpg".to_string()];
    assert_eq!(next_export_name("a.jpg", &taken), "a_1.jpg");

    let taken = vec!["a.jpg".to_string(), "a_1.jpg".to_string()];
    assert_eq!(next_export_name("a.jpg", &taken), "a_2.jpg");
}

#[test]
fn export_name_without_extension() {
    let taken = vec!["photo".to_string()];
    assert_eq!(next_export_name("photo", &taken), "photo_1.");
}
