use photo_sort::pathutil::can_generate_thumb;
use photo_sort::thumb::{get_or_create_thumb, thumb_cache_path, thumb_is_fresh, ThumbOutcome};

// --- thumb_cache_path ---

#[test]
fn cache_path_under_thumb_dir() {
    let p = thumb_cache_path("/photos", "2020/a.jpg");
    assert_eq!(p, "/photos/.photo_sort_thumbs/2020/a.jpg");
}

#[test]
fn cache_path_converts_extension_to_jpg() {
    let p = thumb_cache_path("/photos", "2020/img.png");
    assert_eq!(p, "/photos/.photo_sort_thumbs/2020/img.jpg");
}

#[test]
fn cache_path_preserves_nested_dirs() {
    let p = thumb_cache_path("/base", "2020/sub/deep/photo.tiff");
    assert_eq!(p, "/base/.photo_sort_thumbs/2020/sub/deep/photo.jpg");
}

#[test]
fn cache_path_appends_jpg_without_extension() {
    let p = thumb_cache_path("/base", "2020/photo");
    assert_eq!(p, "/base/.photo_sort_thumbs/2020/photo.jpg");
}

// --- can_generate_thumb ---

#[test]
fn can_generate_for_supported_formats() {
    assert!(can_generate_thumb("photo.jpg"));
    assert!(can_generate_thumb("photo.JPEG"));
    assert!(can_generate_thumb("photo.png"));
    assert!(can_generate_thumb("photo.tiff"));
    assert!(can_generate_thumb("photo.tif"));
}

#[test]
fn cannot_generate_for_unsupported_formats() {
    assert!(!can_generate_thumb("photo.heic"));
    assert!(!can_generate_thumb("photo.cr2"));
    assert!(!can_generate_thumb("photo.nef"));
    assert!(!can_generate_thumb("photo.arw"));
    assert!(!can_generate_thumb("photo.dng"));
}

#[test]
fn cannot_generate_for_no_extension() {
    assert!(!can_generate_thumb("photo"));
}

// --- thumb_is_fresh ---

#[test]
fn fresh_when_cache_newer() {
    assert!(thumb_is_fresh(Some(100), Some(200)));
    assert!(thumb_is_fresh(Some(100), Some(100)));
}

#[test]
fn stale_when_cache_older_or_missing() {
    assert!(!thumb_is_fresh(Some(200), Some(100)));
    assert!(!thumb_is_fresh(Some(100), None));
    assert!(!thumb_is_fresh(None, Some(100)));
    assert!(!thumb_is_fresh(None, None));
}

// --- get_or_create_thumb ---

#[test]
fn unsupported_format_serves_original() {
    match get_or_create_thumb("/base", "2020/photo.heic", false, None, None) {
        ThumbOutcome::Unsupported => {},
        _ => panic!("expected the fallback to the original file"),
    }
}

#[test]
fn fresh_cache_is_served() {
    match get_or_create_thumb("/base", "2020/photo.jpg", true, Some(100), Some(150)) {
        ThumbOutcome::Cached(p) => assert_eq!(p, "/base/.photo_sort_thumbs/2020/photo.jpg"),
        _ => panic!("expected the cached thumbnail"),
    }
}

#[test]
fn stale_or_missing_cache_is_regenerated() {
    match get_or_create_thumb("/base", "2020/photo.jpg", true, Some(200), Some(100)) {
        ThumbOutcome::Generate(p) => assert_eq!(p, "/base/.photo_sort_thumbs/2020/photo.jpg"),
        _ => panic!("expected a regeneration"),
    }
    match get_or_create_thumb("/base", "2020/photo.jpg", false, Some(100), None) {
        ThumbOutcome::Generate(_) => {},
        _ => panic!("expected a generation"),
    }
}
