use photo_sort::gallery::{build_index, escape_html, escape_js, generate_html};
use photo_sort::metadata::Metadata;

fn three_photo_index() -> photo_sort::gallery::PhotoIndex {
    let rels = vec![
        "2020/a.jpg".to_string(),
        "2020/b.jpg".to_string(),
        "2021/c.jpg".to_string(),
    ];
    build_index(&rels)
}

#[test]
fn build_index_groups_and_sorts() {
    let rels = vec![
        "2021/c.jpg".to_string(),
        "2020/b.jpg".to_string(),
        "2020/a.jpg".to_string(),
        "not-a-year/x.jpg".to_string(),
        "2020/readme.txt".to_string(),
    ];
    let ix = build_index(&rels);
    assert_eq!(ix.year_count(), 2);
    assert_eq!(ix.year_files("2020"), vec!["2020/a.jpg", "2020/b.jpg"]);
    assert_eq!(ix.year_files("2021"), vec!["2021/c.jpg"]);
    assert!(ix.year_files("2019").is_empty());
    assert_eq!(
        ix.all_rels(),
        vec!["2020/a.jpg", "2020/b.jpg", "2021/c.jpg"]
    );
}

#[test]
fn escaping_rules() {
    assert_eq!(escape_html("a&b<c>d\"e"), "a&amp;b&lt;c&gt;d&quot;e");
    assert_eq!(escape_js("a\\b\"c\nd"), "a\\\\b\\\"c\\nd");
}

#[test]
fn gallery_render_scenario() {
    let ix = three_photo_index();
    let mut meta = Metadata::new();
    meta.add_tag("2020/a.jpg", "vacances");
    meta.set_rating("2020/a.jpg", Some(5));

    let html = generate_html(&ix, &meta);
    assert!(html.contains("vacances"));
    assert!(html.contains("\"rating\":5"));
    assert!(html.contains("data-year=\"2020\""));
    assert!(html.contains("data-year=\"2021\""));
    assert_eq!(html.matches("<img src=").count(), 3);
    assert_eq!(html.matches("loading=\"lazy\"").count(), 3);
}

#[test]
fn html_contains_doctype_and_structure() {
    let ix = three_photo_index();
    let meta = Metadata::new();
    let html = generate_html(&ix, &meta);
    assert!(html.starts_with("<!DOCTYPE html>"));
    assert!(html.contains("<title>photo-sort gallery</title>"));
    assert!(html.contains("lightbox"));
}

#[test]
fn html_contains_all_photos() {
    let ix = three_photo_index();
    let meta = Metadata::new();
    let html = generate_html(&ix, &meta);
    assert!(html.contains("2020/a.jpg"));
    assert!(html.contains("2020/b.jpg"));
    assert!(html.contains("2021/c.jpg"));
}

#[test]
fn html_contains_tags_when_metadata_has_tags() {
    let ix = three_photo_index();
    let mut meta = Metadata::new();
    meta.add_tag("2020/a.jpg", "vacances");
    meta.add_tag("2020/a.jpg", "plage");

    let html = generate_html(&ix, &meta);
    assert!(html.contains("\"vacances\""));
    assert!(html.contains("\"plage\""));
    assert!(html.contains("data-tag=\"vacances\""));
    assert!(html.contains("data-tag=\"plage\""));
}

#[test]
fn html_tag_filter_sorted_without_duplicates() {
    let ix = three_photo_index();
    let mut meta = Metadata::new();
    meta.add_tag("2020/a.jpg", "zebre");
    meta.add_tag("2020/b.jpg", "ane");
    meta.add_tag("2021/c.jpg", "zebre");

    let html = generate_html(&ix, &meta);
    assert_eq!(html.matches("data-tag=\"zebre\"").count(), 1);
    let pos_a = html.find("data-tag=\"ane\"").unwrap();
    let pos_z = html.find("data-tag=\"zebre\"").unwrap();
    assert!(pos_a < pos_z);
}

#[test]
fn html_escapes_metadata_values() {
    let ix = build_index(&vec!["2020/a.jpg".to_string()]);
    let mut meta = Metadata::new();
    meta.add_tag("2020/a.jpg", "a<b>&\"c");

    let html = generate_html(&ix, &meta);
    assert!(html.contains("data-tag=\"a&lt;b&gt;&amp;&quot;c\""));
}

#[test]
fn html_contains_rating_in_data() {
    let ix = three_photo_index();
    let mut meta = Metadata::new();
    meta.set_rating("2020/a.jpg", Some(4));
    let html = generate_html(&ix, &meta);
    assert!(html.contains("\"rating\":4"));
    assert!(html.contains("data-rating=\"4\""));
}

#[test]
fn html_shows_stars_for_rated_photos() {
    let ix = three_photo_index();
    let mut meta = Metadata::new();
    meta.set_rating("2020/a.jpg", Some(3));
    let html = generate_html(&ix, &meta);
    assert!(html.contains("thumb-stars"));
    assert!(html.contains("\u{2605}\u{2605}\u{2605}"));
}

#[test]
fn html_has_rating_filter_and_controls() {
    let ix = three_photo_index();
    let meta = Metadata::new();
    let html = generate_html(&ix, &meta);
    assert!(html.contains("rating-filter"));
    assert!(html.contains("data-rating=\"5\""));
    assert!(html.contains("btn-slideshow"));
    assert!(html.contains("btn-save"));
    assert!(html.contains("lb-download"));
    assert!(html.contains("ArrowLeft"));
}

#[test]
fn index_keeps_duplicate_rels_and_insertion_order() {
    let mut ix = build_index(&vec!["2020/b.jpg".to_string()]);
    ix.insert_rel("2020/a.jpg".to_string());
    ix.insert_rel("2019/z.jpg".to_string());
    assert_eq!(ix.year_files("2020"), vec!["2020/a.jpg", "2020/b.jpg"]);
    assert_eq!(ix.all_rels(), vec!["2019/z.jpg", "2020/a.jpg", "2020/b.jpg"]);
    ix.remove_rel("2019/z.jpg");
    assert!(ix.year_files("2019").is_empty());
    assert_eq!(ix.year_count(), 1);
}
