use photo_sort::datetime::{choose_date, date_from_dirname, DateSource, Timestamp};
use photo_sort::pathutil::is_photo;
use photo_sort::sort::{build_dest_path, hash_bytes, ProcessedEntry, Progress};

fn ts(year: u16, month: u8, day: u8, hour: u8, minute: u8, second: u8) -> Timestamp {
    Timestamp { year, month, day, hour, minute, second }
}

const PHOTO_EXTENSIONS: &[&str] = &[
    "jpg", "jpeg", "heic", "heif", "cr2", "cr3", "nef", "arw", "dng", "orf", "rw2", "raf", "tiff",
    "tif",
];

#[test]
fn is_photo_recognizes_supported_extensions() {
    for ext in PHOTO_EXTENSIONS {
        assert!(is_photo(&format!("photo.{ext}")), "should recognize .{ext}");
    }
}

#[test]
fn is_photo_case_insensitive() {
    assert!(is_photo("photo.JPG"));
    assert!(is_photo("photo.Cr2"));
    assert!(is_photo("photo.HEIC"));
}

#[test]
fn is_photo_rejects_non_photo() {
    assert!(!is_photo("document.pdf"));
    assert!(!is_photo("video.mp4"));
    assert!(!is_photo("readme.txt"));
    assert!(!is_photo("no_extension"));
}

// --- Dirname probe ---

#[test]
fn dirname_extracts_year() {
    let dt = date_from_dirname("/photos/vacances 2008/DCIM/IMG_001.jpg");
    assert_eq!(dt.unwrap(), ts(2008, 1, 1, 0, 0, 0));
}

#[test]
fn dirname_takes_last_year_match() {
    let dt = date_from_dirname("/photos/2005/sous-dossier 2010/photo.jpg");
    assert_eq!(dt.unwrap(), ts(2010, 1, 1, 0, 0, 0));
}

#[test]
fn dirname_no_year_returns_none() {
    assert!(date_from_dirname("/photos/vacances/DCIM/IMG.jpg").is_none());
}

#[test]
fn dirname_rejects_out_of_range_years() {
    assert!(date_from_dirname("/photos/1899/photo.jpg").is_none());
    assert!(date_from_dirname("/photos/2100/photo.jpg").is_none());
}

#[test]
fn dirname_boundary_years() {
    assert_eq!(date_from_dirname("/1900/photo.jpg").unwrap(), ts(1900, 1, 1, 0, 0, 0));
    assert_eq!(date_from_dirname("/2099/photo.jpg").unwrap(), ts(2099, 1, 1, 0, 0, 0));
}

#[test]
fn date_source_as_str() {
    assert_eq!(DateSource::Exif.as_str(), "exif");
    assert_eq!(DateSource::Dirname.as_str(), "dirname");
    assert_eq!(DateSource::Filesystem.as_str(), "filesystem");
}

#[test]
fn choose_date_prefers_earlier_probes() {
    let a = ts(2001, 2, 3, 4, 5, 6);
    let b = ts(2010, 1, 1, 0, 0, 0);
    let c = ts(2015, 6, 7, 8, 9, 10);
    assert_eq!(choose_date(Some(a), Some(b), Some(c)), (a, DateSource::Exif));
    assert_eq!(choose_date(None, Some(b), Some(c)), (b, DateSource::Dirname));
    assert_eq!(choose_date(None, None, Some(c)), (c, DateSource::Filesystem));
    assert_eq!(
        choose_date(None, None, None),
        (ts(1970, 1, 1, 0, 0, 0), DateSource::Filesystem)
    );
}

// --- Destination naming ---

#[test]
fn dest_path_basic_format() {
    let taken: Vec<String> = Vec::new();
    let result = build_dest_path("/out", &ts(2008, 7, 15, 14, 30, 22), "jpg", &taken);
    assert_eq!(result, "/out/2008/2008-07-15_14-30-22.jpg");
}

#[test]
fn dest_path_collision_increments() {
    let date = ts(2020, 3, 10, 9, 0, 0);
    let taken = vec!["/out/2020/2020-03-10_09-00-00.jpg".to_string()];
    let result = build_dest_path("/out", &date, "jpg", &taken);
    assert_eq!(result, "/out/2020/2020-03-10_09-00-00_1.jpg");

    let taken2 = vec![
        "/out/2020/2020-03-10_09-00-00.jpg".to_string(),
        "/out/2020/2020-03-10_09-00-00_1.jpg".to_string(),
    ];
    let result2 = build_dest_path("/out", &date, "jpg", &taken2);
    assert_eq!(result2, "/out/2020/2020-03-10_09-00-00_2.jpg");
}

#[test]
fn dest_path_picks_smallest_free_suffix() {
    let date = ts(2020, 3, 10, 9, 0, 0);
    let taken = vec![
        "/out/2020/2020-03-10_09-00-00.jpg".to_string(),
        "/out/2020/2020-03-10_09-00-00_2.jpg".to_string(),
    ];
    let result = build_dest_path("/out", &date, "jpg", &taken);
    assert_eq!(result, "/out/2020/2020-03-10_09-00-00_1.jpg");
}

// --- Content hashing ---

#[test]
fn hash_bytes_deterministic() {
    let data = b"hello world".to_vec();
    let h1 = hash_bytes(&data);
    let h2 = hash_bytes(&data);
    assert_eq!(h1, h2);
    assert_eq!(h1.len(), 64);
    assert!(h1.chars().all(|c| c.is_ascii_hexdigit() && !c.is_ascii_uppercase()));
}

#[test]
fn hash_bytes_differs_for_different_content() {
    assert_ne!(hash_bytes(&b"content A".to_vec()), hash_bytes(&b"content B".to_vec()));
}

#[test]
fn hash_bytes_same_for_identical_content() {
    assert_eq!(hash_bytes(&b"identical".to_vec()), hash_bytes(&b"identical".to_vec()));
}

// --- Journal ---

fn entry(source: &str, dest: &str, size: u64, hash: &str) -> ProcessedEntry {
    ProcessedEntry {
        source: source.to_string(),
        dest: dest.to_string(),
        size,
        hash: hash.to_string(),
        date_source: "exif".to_string(),
    }
}

#[test]
fn journal_resume_skip_matches_recorded_size() {
    let mut p = Progress::new();
    assert!(!p.resume_skip("/src/a.jpg", 100));
    p.record(entry("/src/a.jpg", "2020/x.jpg", 100, "h1"));
    assert!(p.resume_skip("/src/a.jpg", 100));
    assert!(!p.resume_skip("/src/a.jpg", 101));
    assert!(!p.resume_skip("/src/b.jpg", 100));
}

#[test]
fn journal_latest_entry_wins() {
    let mut p = Progress::new();
    p.record(entry("/src/a.jpg", "2020/x.jpg", 100, "h1"));
    p.record(entry("/src/a.jpg", "2020/y.jpg", 200, "h2"));
    assert!(!p.resume_skip("/src/a.jpg", 100));
    assert!(p.resume_skip("/src/a.jpg", 200));
}

#[test]
fn journal_knows_recorded_hashes() {
    let mut p = Progress::new();
    assert!(!p.knows_hash("h1"));
    p.record(entry("/src/a.jpg", "2020/x.jpg", 100, "h1"));
    assert!(p.knows_hash("h1"));
    assert!(!p.knows_hash("h2"));
}

#[test]
fn second_pass_over_recorded_files_copies_nothing() {
    // A resumed run over an unchanged source: every file resume-skips
    // or is a duplicate, so nothing is copied again.
    let mut p = Progress::new();
    p.record(entry("/src/a.jpg", "2008/a.jpg", 10, "ha"));
    p.record(entry("/src/b.jpg", "2008/b.jpg", 20, "hb"));
    assert!(p.resume_skip("/src/a.jpg", 10));
    assert!(p.resume_skip("/src/b.jpg", 20));
    assert_eq!(p.len(), 2);
}

#[test]
fn duplicate_content_is_skipped() {
    // Two sources with identical bytes share a hash; the second is not
    // copied and gains no journal entry.
    let mut p = Progress::new();
    let h = hash_bytes(&b"same bytes".to_vec());
    assert!(!p.knows_hash(&h));
    p.record(entry("/src/x.jpg", "2020/x.jpg", 10, &h));
    assert!(p.knows_hash(&h));
    assert_eq!(p.len(), 1);
}
