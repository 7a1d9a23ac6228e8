//! Verified helpers for slash-separated path strings: file names, extensions,
//! and the predicates built on them.

use vstd::prelude::*;
use vstd::string::StrSliceExecFns;
use crate::strutil::{chars_of, lower_chars, lower_vec, string_from_chars, vec_eq_str};

verus! {

/// Index of the last occurrence of `c` in `s`, or `-1` when absent.
pub open spec fn last_index_of(s: Seq<char>, c: char) -> int
    decreases s.len(),
{
    if s.len() == 0 {
        -1
    } else if s.last() == c {
        s.len() - 1
    } else {
        last_index_of(s.drop_last(), c)
    }
}

/// What `last_index_of` returns: an in-range index of `c` after which no
/// further `c` occurs, or `-1` when `s` has no `c` at all.
pub proof fn lemma_last_index_of(s: Seq<char>, c: char)
    ensures
        -1 <= last_index_of(s, c) < s.len(),
        last_index_of(s, c) >= 0 ==> s[last_index_of(s, c)] == c,
        forall|j: int| last_index_of(s, c) < j < s.len() ==> s[j] != c,
    decreases s.len(),
{
    if s.len() > 0 && s.last() != c {
        lemma_last_index_of(s.drop_last(), c);
        assert(forall|j: int| 0 <= j < s.len() - 1 ==> s.drop_last()[j] == s[j]);
    }
}

/// Index of the first occurrence of `c` in `s`, or `-1` when absent.
pub open spec fn first_index_of(s: Seq<char>, c: char) -> int
    decreases s.len(),
{
    if s.len() == 0 {
        -1
    } else if s[0] == c {
        0
    } else if first_index_of(s.drop_first(), c) == -1 {
        -1
    } else {
        first_index_of(s.drop_first(), c) + 1
    }
}

/// What `first_index_of` returns: the least in-range index of `c`, or `-1`
/// when `s` has no `c` at all.
pub proof fn lemma_first_index_of(s: Seq<char>, c: char)
    ensures
        -1 <= first_index_of(s, c) < s.len(),
        first_index_of(s, c) >= 0 ==> s[first_index_of(s, c)] == c,
        forall|j: int| 0 <= j < first_index_of(s, c) ==> s[j] != c,
        first_index_of(s, c) == -1 ==> forall|j: int| 0 <= j < s.len() ==> s[j] != c,
    decreases s.len(),
{
    if s.len() > 0 && s[0] != c {
        let rest = s.drop_first();
        lemma_first_index_of(rest, c);
        assert(forall|j: int| 0 <= j < rest.len() ==> rest[j] == s[j + 1]);
        let f = first_index_of(s, c);
        if first_index_of(rest, c) == -1 {
            assert forall|j: int| 0 <= j < s.len() implies s[j] != c by {
                if j > 0 {
                    assert(rest[j - 1] != c);
                }
            }
        } else {
            assert forall|j: int| 0 <= j < f implies s[j] != c by {
                if j > 0 {
                    assert(rest[j - 1] != c);
                }
            }
        }
    }
}

/// The part of a path after its last `/` (the whole path when it has none).
pub open spec fn file_name_of(p: Seq<char>) -> Seq<char> {
    p.subrange(last_index_of(p, '/') + 1, p.len() as int)
}

/// The extension of a bare file name: what follows the last dot, provided the
/// dot is neither absent nor leading (a leading dot marks a hidden file).
pub open spec fn name_extension(name: Seq<char>) -> Option<Seq<char>> {
    let d = last_index_of(name, '.');
    if d <= 0 {
        None
    } else {
        Some(name.subrange(d + 1, name.len() as int))
    }
}

/// The extension of a path's file name.
pub open spec fn extension_of(p: Seq<char>) -> Option<Seq<char>> {
    name_extension(file_name_of(p))
}

/// The recognized photo extensions, already lowercased.
pub open spec fn photo_ext(e: Seq<char>) -> bool {
    ||| e == "jpg"@
    ||| e == "jpeg"@
    ||| e == "heic"@
    ||| e == "heif"@
    ||| e == "cr2"@
    ||| e == "cr3"@
    ||| e == "nef"@
    ||| e == "arw"@
    ||| e == "dng"@
    ||| e == "orf"@
    ||| e == "rw2"@
    ||| e == "raf"@
    ||| e == "tiff"@
    ||| e == "tif"@
}

/// Extensions that the thumbnailer can decode, already lowercased.
pub open spec fn thumbable_ext(e: Seq<char>) -> bool {
    ||| e == "jpg"@
    ||| e == "jpeg"@
    ||| e == "png"@
    ||| e == "tiff"@
    ||| e == "tif"@
}

/// Does the path name a photograph, judged by its extension alone?
pub open spec fn is_photo_spec(p: Seq<char>) -> bool {
    match extension_of(p) {
        Some(e) => photo_ext(lower_chars(e)),
        None => false,
    }
}

/// Can a thumbnail be generated for this path, judged by its extension alone?
pub open spec fn can_generate_thumb_spec(p: Seq<char>) -> bool {
    match extension_of(p) {
        Some(e) => thumbable_ext(lower_chars(e)),
        None => false,
    }
}

/// Copy `v[from..to]` into a fresh vector.
pub fn copy_range(v: &Vec<char>, from: usize, to: usize) -> (r: Vec<char>)
    requires
        from <= to <= v@.len(),
    ensures
        r@ == v@.subrange(from as int, to as int),
{
    let mut r: Vec<char> = Vec::new();
    let mut i: usize = from;
    while i < to
        invariant
            from <= i <= to <= v@.len(),
            r@ == v@.subrange(from as int, i as int),
        decreases to - i,
    {
        let c = v[i];
        r.push(c);
        i = i + 1;
        proof {
            assert(r@ =~= v@.subrange(from as int, i as int));
        }
    }
    r
}

/// Find the last occurrence of `c` in `v`, as `last_index_of` names it.
pub fn rfind_char(v: &Vec<char>, c: char) -> (r: Option<usize>)
    ensures
        match r {
            Some(i) => i < v@.len() && i as int == last_index_of(v@, c),
            None => last_index_of(v@, c) == -1,
        },
{
    proof {
        lemma_last_index_of(v@, c);
    }
    let mut i: usize = v.len();
    while i > 0
        invariant
            i <= v@.len(),
            forall|j: int| i <= j < v@.len() ==> v@[j] != c,
        decreases i,
    {
        i = i - 1;
        if v[i] == c {
            proof {
                if last_index_of(v@, c) != i as int {
                    lemma_last_index_of(v@, c);
                }
            }
            return Some(i);
        }
    }
    proof {
        lemma_last_index_of(v@, c);
    }
    None
}

/// Find the first occurrence of `c` in `v`, as `first_index_of` names it.
pub fn find_char(v: &Vec<char>, c: char) -> (r: Option<usize>)
    ensures
        match r {
            Some(i) => i < v@.len() && i as int == first_index_of(v@, c),
            None => first_index_of(v@, c) == -1,
        },
{
    proof {
        lemma_first_index_of(v@, c);
    }
    let mut i: usize = 0;
    while i < v.len()
        invariant
            i <= v@.len(),
            forall|j: int| 0 <= j < i ==> v@[j] != c,
        decreases v@.len() - i,
    {
        if v[i] == c {
            proof {
                lemma_first_index_of(v@, c);
            }
            return Some(i);
        }
        i = i + 1;
    }
    None
}

/// The lowercased extension of `path`, when it has one.
pub fn extension_lower(path: &str) -> (r: Option<Vec<char>>)
    ensures
        match r {
            Some(e) => extension_of(path@) is Some && e@ == lower_chars(extension_of(path@)->0),
            None => extension_of(path@) is None,
        },
{
    let v = chars_of(path);
    let start: usize = match rfind_char(&v, '/') {
        Some(i) => i + 1,
        None => 0,
    };
    let name = copy_range(&v, start, v.len());
    proof {
        assert(name@ =~= file_name_of(path@));
    }
    match rfind_char(&name, '.') {
        Some(d) if d > 0 => {
            let e = copy_range(&name, d + 1, name.len());
            let le = lower_vec(&e);
            Some(le)
        },
        _ => None,
    }
}

/// Does the path name a photograph, judged by its extension alone?
pub fn is_photo(path: &str) -> (r: bool)
    ensures
        r == is_photo_spec(path@),
{
    match extension_lower(path) {
        None => false,
        Some(e) => {
            vec_eq_str(&e, "jpg") || vec_eq_str(&e, "jpeg") || vec_eq_str(&e, "heic") || vec_eq_str(
                &e,
                "heif",
            ) || vec_eq_str(&e, "cr2") || vec_eq_str(&e, "cr3") || vec_eq_str(&e, "nef")
                || vec_eq_str(&e, "arw") || vec_eq_str(&e, "dng") || vec_eq_str(&e, "orf")
                || vec_eq_str(&e, "rw2") || vec_eq_str(&e, "raf") || vec_eq_str(&e, "tiff")
                || vec_eq_str(&e, "tif")
        },
    }
}

/// Can a thumbnail be generated for this path, judged by its extension alone?
pub fn can_generate_thumb(path: &str) -> (r: bool)
    ensures
        r == can_generate_thumb_spec(path@),
{
    match extension_lower(path) {
        None => false,
        Some(e) => {
            vec_eq_str(&e, "jpg") || vec_eq_str(&e, "jpeg") || vec_eq_str(&e, "png") || vec_eq_str(
                &e,
                "tiff",
            ) || vec_eq_str(&e, "tif")
        },
    }
}

/// The part of a path after its last `/`, as a fresh string.
pub fn file_name(path: &str) -> (r: String)
    ensures
        r@ == file_name_of(path@),
{
    let v = chars_of(path);
    let n = v.len();
    let start: usize = match rfind_char(&v, '/') {
        Some(i) => i + 1,
        None => 0,
    };
    let name = copy_range(&v, start, n);
    proof {
        assert(name@ =~= file_name_of(path@));
    }
    string_from_chars(&name)
}

/// The lowercased extension of `path`, with `jpg` standing in when there is
/// none.
pub open spec fn ext_lower_or_jpg_spec(p: Seq<char>) -> Seq<char> {
    match extension_of(p) {
        Some(e) => lower_chars(e),
        None => "jpg"@,
    }
}

/// The lowercased extension of `path`, with `jpg` standing in when there is
/// none.
pub fn ext_lower_or_jpg(path: &str) -> (r: String)
    ensures
        r@ == ext_lower_or_jpg_spec(path@),
{
    match extension_lower(path) {
        Some(e) => string_from_chars(&e),
        None => {
            let mut v: Vec<char> = Vec::new();
            v.push('j');
            v.push('p');
            v.push('g');
            proof {
                reveal_strlit("jpg");
                assert(v@ =~= "jpg"@);
            }
            string_from_chars(&v)
        },
    }
}

/// The year of a relative photo path: its first component, provided that is
/// four ASCII digits.
pub open spec fn year_of_spec(rel: Seq<char>) -> Option<Seq<char>> {
    let k = first_index_of(rel, '/');
    let y = if k == -1 {
        rel
    } else {
        rel.subrange(0, k)
    };
    if y.len() == 4 && crate::datetime::is_digit(y[0]) && crate::datetime::is_digit(y[1])
        && crate::datetime::is_digit(y[2]) && crate::datetime::is_digit(y[3]) {
        Some(y)
    } else {
        None
    }
}

/// The year of a relative photo path: its first component, provided that is
/// four ASCII digits.
pub fn year_of<'a>(rel: &'a str) -> (r: Option<&'a str>)
    ensures
        match r {
            Some(y) => year_of_spec(rel@) is Some && y@ == year_of_spec(rel@)->0,
            None => year_of_spec(rel@) is None,
        },
{
    let v = chars_of(rel);
    let n = v.len();
    let k: usize = match find_char(&v, '/') {
        Some(i) => i,
        None => n,
    };
    proof {
        lemma_first_index_of(rel@, '/');
    }
    if k != 4 {
        return None;
    }
    let c0 = v[0];
    let c1 = v[1];
    let c2 = v[2];
    let c3 = v[3];
    if '0' <= c0 && c0 <= '9' && '0' <= c1 && c1 <= '9' && '0' <= c2 && c2 <= '9' && '0' <= c3
        && c3 <= '9' {
        let y = rel.substring_char(0, 4);
        proof {
            let spec_y = if first_index_of(rel@, '/') == -1 {
                rel@
            } else {
                rel@.subrange(0, first_index_of(rel@, '/'))
            };
            assert(y@ =~= spec_y);
        }
        Some(y)
    } else {
        None
    }
}

} // verus!
