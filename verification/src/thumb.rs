//! Thumbnail cache logic: where a cached thumbnail lives, when it is fresh,
//! and what to do for a request. Reading clocks and generating image files is
//! the caller's business; this module decides from plain values.

use vstd::prelude::*;
use vstd::string::StrSliceExecFns;
use vstd::string::StringExecFns;
use crate::pathutil::{
    can_generate_thumb, can_generate_thumb_spec, last_index_of, copy_range, rfind_char,
};
use crate::strutil::{chars_of, string_from_chars};

verus! {

/// `rel` with its file name's extension replaced by `jpg`; a name without an
/// extension keeps its name and gains `.jpg`.
pub open spec fn with_jpg_ext(rel: Seq<char>) -> Seq<char> {
    let s = last_index_of(rel, '/') + 1;
    let name = rel.subrange(s, rel.len() as int);
    let d = last_index_of(name, '.');
    if d <= 0 {
        rel + ".jpg"@
    } else {
        rel.subrange(0, s + d) + ".jpg"@
    }
}

/// Where the cached thumbnail for `rel` lives under `base`.
pub open spec fn thumb_cache_path_spec(base: Seq<char>, rel: Seq<char>) -> Seq<char> {
    base + "/.photo_sort_thumbs/"@ + with_jpg_ext(rel)
}

/// Where the cached thumbnail for `rel` lives under `base`: the relative path
/// mirrored below the cache directory, with a `.jpg` extension.
pub fn thumb_cache_path(base: &str, rel: &str) -> (r: String)
    ensures
        r@ == thumb_cache_path_spec(base@, rel@),
{
    let v = chars_of(rel);
    let n = v.len();
    let start: usize = match rfind_char(&v, '/') {
        Some(i) => i + 1,
        None => 0,
    };
    let name = copy_range(&v, start, n);
    let stem_end: usize = match rfind_char(&name, '.') {
        Some(d) if d > 0 => start + d,
        _ => n,
    };
    let stem = copy_range(&v, 0, stem_end);
    let stem_str = string_from_chars(&stem);
    let mut out = String::from_str(base);
    out.append("/.photo_sort_thumbs/");
    out.append(stem_str.as_str());
    out.append(".jpg");
    proof {
        let s = last_index_of(rel@, '/') + 1;
        let nm = rel@.subrange(s, rel@.len() as int);
        if last_index_of(nm, '.') <= 0 {
            assert(stem@ =~= rel@);
        } else {
            assert(stem@ =~= rel@.subrange(0, s + last_index_of(nm, '.')));
        }
        assert(out@ =~= thumb_cache_path_spec(base@, rel@));
    }
    out
}

/// A cached thumbnail is fresh when both timestamps are known and the cache
/// is no older than its source.
pub open spec fn fresh_spec(src_mtime: Option<u128>, cache_mtime: Option<u128>) -> bool {
    src_mtime is Some && cache_mtime is Some && cache_mtime->0 >= src_mtime->0
}

/// Is the cached thumbnail still fresh? The arguments carry the modification
/// times of the source photograph and of the cache file, when known.
pub fn thumb_is_fresh(src_mtime: Option<u128>, cache_mtime: Option<u128>) -> (r: bool)
    ensures
        r == fresh_spec(src_mtime, cache_mtime),
{
    match (src_mtime, cache_mtime) {
        (Some(s), Some(c)) => c >= s,
        _ => false,
    }
}

/// What a thumbnail request must do.
pub enum ThumbOutcome {
    /// The format cannot be thumbnailed; serve the original file.
    Unsupported,
    /// A fresh cached thumbnail stands at this path; serve it.
    Cached(String),
    /// Generate a thumbnail at this path, then serve it.
    Generate(String),
}

/// Decide a thumbnail request for `rel` under `base`. `cache_exists` says
/// whether the cache file is present; the two timestamps are the modification
/// times of source and cache, when known.
pub fn get_or_create_thumb(
    base: &str,
    rel: &str,
    cache_exists: bool,
    src_mtime: Option<u128>,
    cache_mtime: Option<u128>,
) -> (r: ThumbOutcome)
    ensures
        ({
            let cache = thumb_cache_path_spec(base@, rel@);
            if !can_generate_thumb_spec(rel@) {
                r is Unsupported
            } else if cache_exists && fresh_spec(src_mtime, cache_mtime) {
                r is Cached && r->Cached_0@ == cache
            } else {
                r is Generate && r->Generate_0@ == cache
            }
        }),
{
    if !can_generate_thumb(rel) {
        return ThumbOutcome::Unsupported;
    }
    let cached = thumb_cache_path(base, rel);
    if cache_exists && thumb_is_fresh(src_mtime, cache_mtime) {
        ThumbOutcome::Cached(cached)
    } else {
        ThumbOutcome::Generate(cached)
    }
}

} // verus!
