//! The gallery server's logic: request routing, query and URL decoding, path
//! safety, MIME types, response bodies, and the server state whose HTML cache
//! stays coherent with the metadata store and the photo index.

use vstd::prelude::*;
use vstd::string::StrSliceExecFns;
use vstd::string::StringExecFns;
use vstd::utf8::{decode_utf8, encode_utf8, valid_utf8};
use crate::gallery::{
    gallery_html_spec, generate_html, idx_wf, meta_has_tag, remove_rel_model, IndexModel,
    PhotoIndex,
};
use crate::metadata::{
    meta_wf, remove_file_model, rename_file_model, Metadata, MetaModel,
};
use crate::pathutil::{extension_of, first_index_of, lemma_first_index_of};
use crate::strutil::{chars_of, lower_chars, push_char, sorted_le, string_from_chars, vec_eq_str, views_of};

verus! {

/// What one `%XX`, `+` or plain byte step of URL decoding consumes and
/// yields: the hexadecimal value of a two-character code, when the two
/// characters form one. A leading `+` is allowed before a single digit, and
/// `-0` names zero, as integer parsing accepts them.
pub open spec fn hex_byte_val(b1: u8, b2: u8) -> Option<u8> {
    if is_hex_digit(b1) && is_hex_digit(b2) {
        Some((hex_digit_val(b1) * 16 + hex_digit_val(b2)) as u8)
    } else if b1 == 43 && is_hex_digit(b2) {
        Some(hex_digit_val(b2) as u8)
    } else if b1 == 45 && b2 == 48 {
        Some(0)
    } else {
        None
    }
}

/// An ASCII hexadecimal digit, either case.
pub open spec fn is_hex_digit(b: u8) -> bool {
    (48 <= b <= 57) || (97 <= b <= 102) || (65 <= b <= 70)
}

/// The value of an ASCII hexadecimal digit.
pub open spec fn hex_digit_val(b: u8) -> int
    recommends
        is_hex_digit(b),
{
    if 48 <= b <= 57 {
        b - 48
    } else if 97 <= b <= 102 {
        b - 87
    } else {
        b - 55
    }
}

/// Percent-decoding of a byte string: `%XX` with a readable code becomes the
/// coded byte, `+` becomes a space, and everything else passes through;
/// a malformed `%XX` passes through literally.
pub open spec fn percent_decode(s: Seq<u8>) -> Seq<u8>
    decreases s.len(),
{
    if s.len() == 0 {
        Seq::empty()
    } else if s.len() >= 3 && s[0] == 37 && hex_byte_val(s[1], s[2]) is Some {
        seq![hex_byte_val(s[1], s[2])->0] + percent_decode(s.skip(3))
    } else if s[0] == 43 {
        seq![32u8] + percent_decode(s.skip(1))
    } else {
        seq![s[0]] + percent_decode(s.skip(1))
    }
}

/// What `String::from_utf8_lossy` makes of a byte string.
pub uninterp spec fn utf8_lossy(b: Seq<u8>) -> Seq<char>;

/// Relies on `String::from_utf8_lossy`: the result is a function of the
/// bytes alone, and valid UTF-8 decodes unchanged.
#[verifier::external_body]
fn bytes_to_string_lossy(b: &Vec<u8>) -> (r: String)
    ensures
        r@ == utf8_lossy(b@),
        valid_utf8(b@) ==> r@ == decode_utf8(b@),
{
    String::from_utf8_lossy(b).into_owned()
}

fn hex_byte_exec(b1: u8, b2: u8) -> (r: Option<u8>)
    ensures
        r == hex_byte_val(b1, b2),
{
    let v1: Option<u8> = if 48 <= b1 && b1 <= 57 {
        Some(b1 - 48)
    } else if 97 <= b1 && b1 <= 102 {
        Some(b1 - 87)
    } else if 65 <= b1 && b1 <= 70 {
        Some(b1 - 55)
    } else {
        None
    };
    let v2: Option<u8> = if 48 <= b2 && b2 <= 57 {
        Some(b2 - 48)
    } else if 97 <= b2 && b2 <= 102 {
        Some(b2 - 87)
    } else if 65 <= b2 && b2 <= 70 {
        Some(b2 - 55)
    } else {
        None
    };
    match (v1, v2) {
        (Some(a), Some(b)) => Some(a * 16 + b),
        (None, Some(b)) => {
            if b1 == 43 {
                Some(b)
            } else if b1 == 45 && b2 == 48 {
                Some(0)
            } else {
                None
            }
        },
        _ => None,
    }
}

/// Percent-decode a byte string.
fn percent_decode_exec(v: &Vec<u8>) -> (r: Vec<u8>)
    ensures
        r@ == percent_decode(v@),
{
    let n = v.len();
    let mut out: Vec<u8> = Vec::new();
    let mut i: usize = 0;
    proof {
        assert(v@.skip(0) =~= v@);
        assert(out@ + percent_decode(v@) =~= percent_decode(v@));
    }
    while i < n
        invariant
            i <= n,
            n == v@.len(),
            percent_decode(v@) == out@ + percent_decode(v@.skip(i as int)),
        decreases n - i,
    {
        let ghost pre = out@;
        let ghost rest = v@.skip(i as int);
        proof {
            assert(rest[0] == v@[i as int]);
        }
        if v[i] == 37 && n - i > 2 {
            proof {
                assert(rest.len() >= 3);
                assert(rest[1] == v@[i as int + 1]);
                assert(rest[2] == v@[i as int + 2]);
            }
            match hex_byte_exec(v[i + 1], v[i + 2]) {
                Some(b) => {
                    out.push(b);
                    i = i + 3;
                    proof {
                        assert(rest.skip(3) =~= v@.skip(i as int));
                        assert(out@ =~= pre + seq![b]);
                        assert(pre + (seq![b] + percent_decode(v@.skip(i as int))) =~= out@
                            + percent_decode(v@.skip(i as int)));
                    }
                },
                None => {
                    let c = v[i];
                    out.push(c);
                    i = i + 1;
                    proof {
                        assert(rest.skip(1) =~= v@.skip(i as int));
                        assert(out@ =~= pre + seq![c]);
                        assert(pre + (seq![c] + percent_decode(v@.skip(i as int))) =~= out@
                            + percent_decode(v@.skip(i as int)));
                    }
                },
            }
        } else if v[i] == 43 {
            out.push(32);
            i = i + 1;
            proof {
                assert(rest.skip(1) =~= v@.skip(i as int));
                assert(out@ =~= pre + seq![32u8]);
                assert(pre + (seq![32u8] + percent_decode(v@.skip(i as int))) =~= out@
                    + percent_decode(v@.skip(i as int)));
            }
        } else {
            let c = v[i];
            out.push(c);
            i = i + 1;
            proof {
                assert(rest.skip(1) =~= v@.skip(i as int));
                assert(out@ =~= pre + seq![c]);
                assert(pre + (seq![c] + percent_decode(v@.skip(i as int))) =~= out@
                    + percent_decode(v@.skip(i as int)));
            }
        }
    }
    proof {
        assert(v@.skip(n as int).len() == 0);
        assert(out@ =~= out@ + percent_decode(v@.skip(n as int)));
    }
    out
}

/// What `urldecode` returns: the percent-decoded bytes of the input, read
/// back as text, with invalid byte sequences replaced as a lossy read does.
pub open spec fn urldecode_spec(s: Seq<char>) -> Seq<char> {
    utf8_lossy(percent_decode(encode_utf8(s)))
}

/// Decode `%XX` codes and `+` in a query component.
pub fn urldecode(s: &str) -> (r: String)
    ensures
        r@ == urldecode_spec(s@),
{
    let bytes = s.as_bytes_vec();
    let decoded = percent_decode_exec(&bytes);
    bytes_to_string_lossy(&decoded)
}


/// The views of a vector of string pairs.
pub open spec fn pair_views(v: Seq<(String, String)>) -> Seq<(Seq<char>, Seq<char>)> {
    v.map_values(|p: (String, String)| (p.0@, p.1@))
}

/// The key-value pair written in one `k=v` segment, decoded; none without an
/// equals sign.
pub open spec fn pair_opt(p: Seq<char>) -> Seq<(Seq<char>, Seq<char>)> {
    let e = first_index_of(p, '=');
    if e == -1 {
        Seq::empty()
    } else {
        seq![(urldecode_spec(p.subrange(0, e)), urldecode_spec(p.skip(e + 1)))]
    }
}

/// The pairs of an ampersand-separated query string, in order.
pub open spec fn pairs_of(qs: Seq<char>) -> Seq<(Seq<char>, Seq<char>)>
    decreases qs.len(),
{
    let a = first_index_of(qs, '&');
    if a < 0 || a >= qs.len() {
        pair_opt(qs)
    } else {
        pair_opt(qs.subrange(0, a)) + pairs_of(qs.skip(a + 1))
    }
}

/// The decoded pairs of a URL's query string: what stands between the first
/// question mark and the second (or the end), split on ampersands.
pub open spec fn parse_query_spec(url: Seq<char>) -> Seq<(Seq<char>, Seq<char>)> {
    let q = first_index_of(url, '?');
    if q == -1 {
        Seq::empty()
    } else {
        let rest = url.skip(q + 1);
        let q2 = first_index_of(rest, '?');
        let qs = if q2 == -1 {
            rest
        } else {
            rest.subrange(0, q2)
        };
        pairs_of(qs)
    }
}

/// The value under the key that a query's latest pair binds, if any.
pub open spec fn query_get_spec(ps: Seq<(Seq<char>, Seq<char>)>, k: Seq<char>) -> Option<Seq<char>>
    decreases ps.len(),
{
    if ps.len() == 0 {
        None
    } else if ps.last().0 == k {
        Some(ps.last().1)
    } else {
        query_get_spec(ps.drop_last(), k)
    }
}

/// Decoded query parameters, in the order their pairs appeared.
#[derive(Debug)]
pub struct QueryParams {
    pairs: Vec<(String, String)>,
}

impl View for QueryParams {
    type V = Seq<(Seq<char>, Seq<char>)>;

    closed spec fn view(&self) -> Seq<(Seq<char>, Seq<char>)> {
        pair_views(self.pairs@)
    }
}

impl QueryParams {
    /// How many pairs the query holds.
    pub fn len(&self) -> (r: usize)
        ensures
            r == self@.len(),
    {
        self.pairs.len()
    }

    /// Does the query hold no pair at all?
    pub fn is_empty(&self) -> (r: bool)
        ensures
            r == (self@.len() == 0),
    {
        self.pairs.is_empty()
    }

    /// The value bound to `k`, from the latest pair that binds it.
    pub fn get(&self, k: &str) -> (r: Option<String>)
        ensures
            match r {
                Some(v) => query_get_spec(self@, k@) == Some(v@),
                None => query_get_spec(self@, k@) is None,
            },
    {
        let n = self.pairs.len();
        let mut i: usize = n;
        proof {
            assert(self@.subrange(0, self@.len() as int) =~= self@);
        }
        while i > 0
            invariant
                i <= n,
                n == self@.len(),
                self@.len() == self.pairs@.len(),
                forall|j: int|
                    0 <= j < self@.len() ==> self@[j] == (self.pairs@[j].0@, self.pairs@[j].1@),
                query_get_spec(self@, k@) == query_get_spec(self@.subrange(0, i as int), k@),
            decreases i,
        {
            i = i - 1;
            proof {
                assert(self@.subrange(0, i as int + 1).last() == self@[i as int]);
                assert(self@.subrange(0, i as int + 1).drop_last() =~= self@.subrange(
                    0,
                    i as int,
                ));
            }
            if crate::strutil::str_eq(self.pairs[i].0.as_str(), k) {
                return Some(self.pairs[i].1.clone());
            }
        }
        proof {
            assert(self@.subrange(0, 0).len() == 0);
        }
        None
    }
}

/// Find the first `c` at or after `start`.
fn find_char_from(v: &Vec<char>, start: usize, c: char) -> (r: Option<usize>)
    requires
        start <= v@.len(),
    ensures
        match r {
            Some(i) => start <= i < v@.len() && v@[i as int] == c && forall|j: int|
                start <= j < i ==> v@[j] != c,
            None => forall|j: int| start <= j < v@.len() ==> v@[j] != c,
        },
{
    let mut i: usize = start;
    while i < v.len()
        invariant
            start <= i <= v@.len(),
            forall|j: int| start <= j < i ==> v@[j] != c,
        decreases v@.len() - i,
    {
        if v[i] == c {
            return Some(i);
        }
        i = i + 1;
    }
    None
}

/// What a `find_char_from` outcome says about `first_index_of` on the
/// suffix.
proof fn lemma_first_from(s: Seq<char>, start: int, c: char, found: Option<int>)
    requires
        0 <= start <= s.len(),
        match found {
            Some(i) => start <= i < s.len() && s[i] == c && forall|j: int|
                start <= j < i ==> s[j] != c,
            None => forall|j: int| start <= j < s.len() ==> s[j] != c,
        },
    ensures
        match found {
            Some(i) => first_index_of(s.skip(start), c) == i - start,
            None => first_index_of(s.skip(start), c) == -1,
        },
{
    let rest = s.skip(start);
    lemma_first_index_of(rest, c);
    assert(forall|j: int| 0 <= j < rest.len() ==> rest[j] == s[start + j]);
    match found {
        Some(i) => {
            assert(rest[i - start] == c);
            if first_index_of(rest, c) < i - start {
                assert(s[start + first_index_of(rest, c)] != c);
            }
        },
        None => {
            if first_index_of(rest, c) >= 0 {
                assert(rest[first_index_of(rest, c)] == c);
            }
        },
    }
}

/// Decode one `k=v` segment of the query string into `out`.
fn push_pair(seg: &Vec<char>, out: &mut Vec<(String, String)>)
    ensures
        pair_views(final(out)@) == pair_views(old(out)@) + pair_opt(seg@),
{
    match find_char_from(seg, 0, '=') {
        None => {
            proof {
                lemma_first_from(seg@, 0, '=', None);
                assert(seg@.skip(0) =~= seg@);
                assert(pair_views(out@) =~= pair_views(out@) + pair_opt(seg@));
            }
        },
        Some(e) => {
            proof {
                lemma_first_from(seg@, 0, '=', Some(e as int));
                assert(seg@.skip(0) =~= seg@);
            }
            let n = seg.len();
            let kv = crate::pathutil::copy_range(seg, 0, e);
            let vv = crate::pathutil::copy_range(seg, e + 1, n);
            let ks = string_from_chars(&kv);
            let vs = string_from_chars(&vv);
            let k = urldecode(ks.as_str());
            let v = urldecode(vs.as_str());
            let ghost kd = k@;
            let ghost vd = v@;
            out.push((k, v));
            proof {
                assert(seg@.skip(e as int + 1) =~= seg@.subrange(e as int + 1, seg@.len() as int));
                assert(pair_views(out@) =~= pair_views(old(out)@) + pair_opt(seg@));
            }
        },
    }
}

/// Decode the segments of `qs` from `pos` on into `out`.
fn parse_pairs(qs: &Vec<char>, pos: usize, out: &mut Vec<(String, String)>)
    requires
        pos <= qs@.len(),
    ensures
        pair_views(final(out)@) == pair_views(old(out)@) + pairs_of(qs@.skip(pos as int)),
    decreases qs@.len() - pos,
{
    let n = qs.len();
    match find_char_from(qs, pos, '&') {
        None => {
            proof {
                lemma_first_from(qs@, pos as int, '&', None);
            }
            let seg = crate::pathutil::copy_range(qs, pos, n);
            proof {
                assert(seg@ =~= qs@.skip(pos as int));
            }
            push_pair(&seg, out);
        },
        Some(a) => {
            proof {
                lemma_first_from(qs@, pos as int, '&', Some(a as int));
            }
            let seg = crate::pathutil::copy_range(qs, pos, a);
            proof {
                assert(seg@ =~= qs@.skip(pos as int).subrange(
                    0,
                    a as int - pos as int,
                ));
            }
            push_pair(&seg, out);
            let ghost mid = out@;
            parse_pairs(qs, a + 1, out);
            proof {
                assert(qs@.skip(pos as int).skip(a as int - pos as int + 1) =~= qs@.skip(
                    a as int + 1,
                ));
                assert(pair_views(out@) =~= pair_views(old(out)@) + pairs_of(
                    qs@.skip(pos as int),
                ));
            }
        },
    }
}

/// Parse a URL's query string into decoded key-value pairs.
pub fn parse_query(url: &str) -> (r: QueryParams)
    ensures
        r@ == parse_query_spec(url@),
{
    let v = chars_of(url);
    let n = v.len();
    let q: usize = match find_char_from(&v, 0, '?') {
        None => {
            proof {
                lemma_first_from(url@, 0, '?', None);
                assert(url@.skip(0) =~= url@);
                lemma_first_index_of(url@, '?');
            }
            let r = QueryParams { pairs: Vec::new() };
            proof {
                assert(r@ =~= parse_query_spec(url@));
            }
            return r;
        },
        Some(q) => {
            proof {
                lemma_first_from(url@, 0, '?', Some(q as int));
                assert(url@.skip(0) =~= url@);
            }
            q
        },
    };
    let end: usize = match find_char_from(&v, q + 1, '?') {
        None => {
            proof {
                lemma_first_from(url@, q as int + 1, '?', None);
            }
            n
        },
        Some(q2) => {
            proof {
                lemma_first_from(url@, q as int + 1, '?', Some(q2 as int));
            }
            q2
        },
    };
    let qs = crate::pathutil::copy_range(&v, q + 1, end);
    proof {
        let rest = url@.skip(q as int + 1);
        if first_index_of(rest, '?') == -1 {
            assert(qs@ =~= rest);
        } else {
            assert(qs@ =~= rest.subrange(0, first_index_of(rest, '?')));
        }
    }
    let mut pairs: Vec<(String, String)> = Vec::new();
    parse_pairs(&qs, 0, &mut pairs);
    proof {
        assert(qs@.skip(0) =~= qs@);
    }
    let r = QueryParams { pairs };
    proof {
        assert(r@ =~= parse_query_spec(url@));
    }
    r
}


/// Backslashes turned into slashes.
pub open spec fn to_slashes(s: Seq<char>) -> Seq<char> {
    s.map_values(
        |c: char|
            if c == '\\' {
                '/'
            } else {
                c
            },
    )
}

/// Two consecutive dots somewhere in the string.
pub open spec fn has_dotdot(s: Seq<char>) -> bool {
    exists|i: int| 0 <= i && i + 2 <= s.len() && #[trigger] s[i] == '.' && s[i + 1] == '.'
}

/// What `safe_path` returns: nothing for an absolute or traversing path,
/// else the path joined under the base directory.
pub open spec fn safe_path_spec(base: Seq<char>, rel: Seq<char>) -> Option<Seq<char>> {
    let clean = to_slashes(rel);
    if (clean.len() > 0 && clean[0] == '/') || has_dotdot(clean) {
        None
    } else {
        Some(base + seq!['/'] + clean)
    }
}

/// Join a request path under the base directory, rejecting absolute paths
/// and any path holding `..`; an accepted path always begins with the base.
pub fn safe_path(base: &str, relative: &str) -> (r: Option<String>)
    ensures
        r matches Some(p) ==> safe_path_spec(base@, relative@) == Some(p@) && p@.len()
            >= base@.len() && p@.subrange(0, base@.len() as int) == base@,
        r is None ==> safe_path_spec(base@, relative@) is None,
{
    let v = chars_of(relative);
    let mut clean: Vec<char> = Vec::new();
    let mut i: usize = 0;
    while i < v.len()
        invariant
            i <= v@.len(),
            v@ == relative@,
            clean@ == to_slashes(relative@).subrange(0, i as int),
        decreases v@.len() - i,
    {
        let c = v[i];
        if c == '\\' {
            clean.push('/');
        } else {
            clean.push(c);
        }
        i = i + 1;
        proof {
            assert(clean@ =~= to_slashes(relative@).subrange(0, i as int));
        }
    }
    proof {
        assert(to_slashes(relative@).subrange(0, v@.len() as int) =~= to_slashes(relative@));
    }
    if clean.len() > 0 && clean[0] == '/' {
        return None;
    }
    let mut j: usize = 0;
    let cn = clean.len();
    while cn >= 2 && j < cn - 1
        invariant
            clean@ == to_slashes(relative@),
            j <= clean@.len(),
            cn == clean@.len(),
            forall|w: int|
                0 <= w && w + 2 <= clean@.len() && w < j ==> !(#[trigger] clean@[w] == '.'
                    && clean@[w + 1] == '.'),
        decreases clean@.len() - j,
    {
        if clean[j] == '.' && clean[j + 1] == '.' {
            proof {
                assert(has_dotdot(to_slashes(relative@)));
            }
            return None;
        }
        j = j + 1;
    }
    proof {
        if has_dotdot(clean@) {
            let w = choose|w: int|
                0 <= w && w + 2 <= clean@.len() && #[trigger] clean@[w] == '.' && clean@[w + 1]
                    == '.';
            assert(!(clean@[w] == '.' && clean@[w + 1] == '.'));
        }
    }
    let mut out = String::from_str(base);
    push_char(&mut out, '/');
    let cs = string_from_chars(&clean);
    out.append(cs.as_str());
    proof {
        assert(out@ =~= base@ + seq!['/'] + to_slashes(relative@));
        assert(out@.subrange(0, base@.len() as int) =~= base@);
    }
    Some(out)
}

/// The MIME type for a path, by its lowercased extension.
pub open spec fn mime_type_spec(p: Seq<char>) -> Seq<char> {
    let e = match extension_of(p) {
        Some(x) => lower_chars(x),
        None => Seq::<char>::empty(),
    };
    if e == "html"@ {
        "text/html; charset=utf-8"@
    } else if e == "json"@ {
        "application/json"@
    } else if e == "jpg"@ || e == "jpeg"@ {
        "image/jpeg"@
    } else if e == "png"@ {
        "image/png"@
    } else if e == "gif"@ {
        "image/gif"@
    } else if e == "heic"@ || e == "heif"@ {
        "image/heic"@
    } else if e == "cr2"@ || e == "cr3"@ || e == "nef"@ || e == "arw"@ || e == "dng"@ || e == "orf"@
        || e == "rw2"@ || e == "raf"@ {
        "application/octet-stream"@
    } else if e == "tiff"@ || e == "tif"@ {
        "image/tiff"@
    } else if e == "css"@ {
        "text/css"@
    } else if e == "js"@ {
        "application/javascript"@
    } else {
        "application/octet-stream"@
    }
}

/// The MIME type for a path, by its lowercased extension.
pub fn mime_type(path: &str) -> (r: &'static str)
    ensures
        r@ == mime_type_spec(path@),
{
    let e: Vec<char> = match crate::pathutil::extension_lower(path) {
        Some(x) => x,
        None => Vec::new(),
    };
    proof {
        if extension_of(path@) is None {
            assert(e@ =~= Seq::<char>::empty());
        }
    }
    if vec_eq_str(&e, "html") {
        "text/html; charset=utf-8"
    } else if vec_eq_str(&e, "json") {
        "application/json"
    } else if vec_eq_str(&e, "jpg") || vec_eq_str(&e, "jpeg") {
        "image/jpeg"
    } else if vec_eq_str(&e, "png") {
        "image/png"
    } else if vec_eq_str(&e, "gif") {
        "image/gif"
    } else if vec_eq_str(&e, "heic") || vec_eq_str(&e, "heif") {
        "image/heic"
    } else if vec_eq_str(&e, "cr2") || vec_eq_str(&e, "cr3") || vec_eq_str(&e, "nef") || vec_eq_str(
        &e,
        "arw",
    ) || vec_eq_str(&e, "dng") || vec_eq_str(&e, "orf") || vec_eq_str(&e, "rw2") || vec_eq_str(
        &e,
        "raf",
    ) {
        "application/octet-stream"
    } else if vec_eq_str(&e, "tiff") || vec_eq_str(&e, "tif") {
        "image/tiff"
    } else if vec_eq_str(&e, "css") {
        "text/css"
    } else if vec_eq_str(&e, "js") {
        "application/javascript"
    } else {
        "application/octet-stream"
    }
}

/// A message with every double quote escaped.
pub open spec fn quote_escaped(s: Seq<char>) -> Seq<char>
    decreases s.len(),
{
    if s.len() == 0 {
        Seq::empty()
    } else if s.last() == '"' {
        quote_escaped(s.drop_last()) + "\\\""@
    } else {
        quote_escaped(s.drop_last()).push(s.last())
    }
}

fn escape_quotes(s: &str) -> (r: String)
    ensures
        r@ == quote_escaped(s@),
{
    let v = chars_of(s);
    let mut out = String::new();
    let mut i: usize = 0;
    while i < v.len()
        invariant
            i <= v@.len(),
            v@ == s@,
            out@ == quote_escaped(s@.subrange(0, i as int)),
        decreases v@.len() - i,
    {
        let c = v[i];
        if c == '"' {
            out.append("\\\"");
        } else {
            push_char(&mut out, c);
        }
        i = i + 1;
        proof {
            assert(s@.subrange(0, i as int).drop_last() =~= s@.subrange(0, i as int - 1));
            assert(s@.subrange(0, i as int).last() == s@[i as int - 1]);
        }
    }
    proof {
        assert(s@.subrange(0, s@.len() as int) =~= s@);
    }
    out
}

/// The body of a success response: `{"ok":"…"}` with quotes escaped.
pub fn json_ok(msg: &str) -> (r: String)
    ensures
        r@ == "{\"ok\":\""@ + quote_escaped(msg@) + "\"}"@,
{
    let mut out = String::new();
    out.append("{\"ok\":\"");
    let e = escape_quotes(msg);
    out.append(e.as_str());
    out.append("\"}");
    proof {
        assert(out@ =~= "{\"ok\":\""@ + quote_escaped(msg@) + "\"}"@);
    }
    out
}

/// The body of an error response: `{"error":"…"}` with quotes escaped.
pub fn json_error(msg: &str) -> (r: String)
    ensures
        r@ == "{\"error\":\""@ + quote_escaped(msg@) + "\"}"@,
{
    let mut out = String::new();
    out.append("{\"error\":\"");
    let e = escape_quotes(msg);
    out.append(e.as_str());
    out.append("\"}");
    proof {
        assert(out@ =~= "{\"error\":\""@ + quote_escaped(msg@) + "\"}"@);
    }
    out
}

/// The body of the move endpoint's success response, carrying the new path.
pub fn json_moved(new_rel: &str) -> (r: String)
    ensures
        r@ == "{\"ok\":\"Fichier d\u{e9}plac\u{e9}\",\"new_path\":\""@ + quote_escaped(new_rel@)
            + "\"}"@,
{
    let mut out = String::new();
    out.append("{\"ok\":\"Fichier d\u{e9}plac\u{e9}\",\"new_path\":\"");
    let e = escape_quotes(new_rel);
    out.append(e.as_str());
    out.append("\"}");
    proof {
        assert(out@ =~= "{\"ok\":\"Fichier d\u{e9}plac\u{e9}\",\"new_path\":\""@ + quote_escaped(
            new_rel@,
        ) + "\"}"@);
    }
    out
}

/// Does `s` begin with `prefix`?
pub open spec fn starts_with_spec(s: Seq<char>, prefix: Seq<char>) -> bool {
    s.len() >= prefix.len() && s.subrange(0, prefix.len() as int) == prefix
}

/// Does `s` begin with `prefix`?
pub fn str_starts_with(s: &str, prefix: &str) -> (r: bool)
    ensures
        r == starts_with_spec(s@, prefix@),
{
    let n = prefix.unicode_len();
    if s.unicode_len() < n {
        proof {
            assert(!starts_with_spec(s@, prefix@));
        }
        return false;
    }
    let mut i: usize = 0;
    while i < n
        invariant
            i <= n,
            n == prefix@.len(),
            s@.len() >= n,
            forall|j: int| 0 <= j < i ==> s@[j] == prefix@[j],
        decreases n - i,
    {
        if s.get_char(i) != prefix.get_char(i) {
            proof {
                if starts_with_spec(s@, prefix@) {
                    assert(s@.subrange(0, n as int)[i as int] == prefix@[i as int]);
                }
            }
            return false;
        }
        i = i + 1;
    }
    proof {
        assert(s@.subrange(0, n as int) =~= prefix@);
    }
    true
}

/// Where a request goes.
pub enum Route {
    /// `GET /`: the gallery document.
    Root,
    /// `POST /api/metadata`: replace the metadata store.
    ApiMetadata,
    /// `DELETE /api/photo`: delete the photo named by the query.
    ApiDeletePhoto,
    /// `POST /api/move`: move a photo to another directory.
    ApiMove,
    /// `POST /api/rotate`: rotate a photo in place.
    ApiRotate,
    /// `GET /thumb/{rel}`: serve a thumbnail; the payload is `rel`.
    Thumb(String),
    /// Any other `GET`: serve a file under the base; the payload is the
    /// path without its leading slash.
    Static(String),
    /// Anything else is refused.
    MethodNotAllowed,
}

/// Route a request by method and path, exactly as the handler dispatches:
/// the fixed endpoints first, then thumbnails, then static files.
pub fn route(method: &str, path: &str) -> (r: Route)
    requires
        path@.len() >= 1,
    ensures
        ({
            if method@ == "GET"@ {
                if path@ == "/"@ {
                    r is Root
                } else if starts_with_spec(path@, "/thumb/"@) {
                    r is Thumb && r->Thumb_0@ == path@.skip(7)
                } else {
                    r is Static && r->Static_0@ == path@.skip(1)
                }
            } else if method@ == "POST"@ && path@ == "/api/metadata"@ {
                r is ApiMetadata
            } else if method@ == "DELETE"@ && path@ == "/api/photo"@ {
                r is ApiDeletePhoto
            } else if method@ == "POST"@ && path@ == "/api/move"@ {
                r is ApiMove
            } else if method@ == "POST"@ && path@ == "/api/rotate"@ {
                r is ApiRotate
            } else {
                r is MethodNotAllowed
            }
        }),
{
    if crate::strutil::str_eq(method, "GET") {
        if crate::strutil::str_eq(path, "/") {
            Route::Root
        } else if str_starts_with(path, "/thumb/") {
            let v = chars_of(path);
            proof {
                reveal_strlit("/thumb/");
            }
            let rest = crate::pathutil::copy_range(&v, 7, v.len());
            proof {
                assert(rest@ =~= path@.skip(7));
            }
            Route::Thumb(string_from_chars(&rest))
        } else {
            let v = chars_of(path);
            let rest = crate::pathutil::copy_range(&v, 1, v.len());
            proof {
                assert(rest@ =~= path@.skip(1));
            }
            Route::Static(string_from_chars(&rest))
        }
    } else if crate::strutil::str_eq(method, "POST") && crate::strutil::str_eq(
        path,
        "/api/metadata",
    ) {
        Route::ApiMetadata
    } else if crate::strutil::str_eq(method, "DELETE") && crate::strutil::str_eq(
        path,
        "/api/photo",
    ) {
        Route::ApiDeletePhoto
    } else if crate::strutil::str_eq(method, "POST") && crate::strutil::str_eq(path, "/api/move") {
        Route::ApiMove
    } else if crate::strutil::str_eq(method, "POST") && crate::strutil::str_eq(
        path,
        "/api/rotate",
    ) {
        Route::ApiRotate
    } else {
        Route::MethodNotAllowed
    }
}

/// Is the angle one the rotate endpoint accepts?
pub fn valid_angle(angle: u16) -> (r: bool)
    ensures
        r == (angle == 90 || angle == 180 || angle == 270),
{
    angle == 90 || angle == 180 || angle == 270
}


/// The mathematical content of the server state.
#[verifier::ext_equal]
pub struct ServerStateV {
    pub dir: Seq<char>,
    pub metadata: MetaModel,
    pub index: IndexModel,
    pub html_cache: Option<Seq<char>>,
    pub cache_gen: u64,
}

/// A present cache holds the rendered document of the current index and
/// metadata, with the tag bar listing exactly the store's tags in order.
pub open spec fn cache_coherent(s: ServerStateV) -> bool {
    match s.html_cache {
        None => true,
        Some(h) => exists|tags: Seq<Seq<char>>|
            sorted_le(tags) && tags.no_duplicates() && (forall|t: Seq<char>| #[trigger]
                tags.contains(t) <==> meta_has_tag(s.metadata, t)) && h == gallery_html_spec(
                s.index,
                s.metadata,
                tags,
            ),
    }
}

/// Well-formed server state: sound store, sound index, coherent cache.
pub open spec fn state_wf(s: ServerStateV) -> bool {
    &&& meta_wf(s.metadata)
    &&& idx_wf(s.index)
    &&& cache_coherent(s)
}

/// The server's in-memory state: the archive directory, the metadata store,
/// the photo index, the cached gallery document, and a generation counter
/// bumped on every invalidation.
pub struct ServerState {
    /// The canonical base directory of the archive.
    pub dir: String,
    metadata: Metadata,
    index: PhotoIndex,
    html_cache: Option<String>,
    cache_gen: u64,
}

impl View for ServerState {
    type V = ServerStateV;

    closed spec fn view(&self) -> ServerStateV {
        ServerStateV {
            dir: self.dir@,
            metadata: self.metadata@,
            index: self.index@,
            html_cache: match self.html_cache {
                Some(h) => Some(h@),
                None => None,
            },
            cache_gen: self.cache_gen,
        }
    }
}

impl ServerState {
    /// Build the initial state and render the document once, so the first
    /// request is served from cache.
    pub fn new(dir: String, metadata: Metadata, index: PhotoIndex) -> (r: Self)
        requires
            meta_wf(metadata@),
            idx_wf(index@),
        ensures
            state_wf(r@),
            r@.dir == dir@,
            r@.metadata == metadata@,
            r@.index == index@,
            r@.html_cache is Some,
    {
        let html = generate_html(&index, &metadata);
        ServerState { dir, metadata, index, html_cache: Some(html), cache_gen: 0 }
    }

    /// The tags of one photograph, for serving decisions.
    pub fn get_tags(&self, rel: &str) -> (r: Vec<String>)
        ensures
            views_of(r@) == crate::gallery::meta_tags_of(self@.metadata, rel@),
    {
        self.metadata.get_tags(rel)
    }

    /// Every relative photo path of the index, year groups in order.
    pub fn all_photo_rels(&self) -> (r: Vec<String>)
        ensures
            views_of(r@) == crate::gallery::flat_rels(self@.index),
    {
        self.index.all_rels()
    }

    /// The files of one year, ascending.
    pub fn year_files(&self, y: &str) -> (r: Vec<String>)
        ensures
            views_of(r@) == if crate::metadata::key_idx(self@.index, y@) >= 0 {
                self@.index[crate::metadata::key_idx(self@.index, y@)].1
            } else {
                Seq::<Seq<char>>::empty()
            },
    {
        self.index.year_files(y)
    }

    /// The gallery document for the current state: straight from the cache
    /// when one is present, else rendered now and cached.
    pub fn get_cached_html(&mut self) -> (r: String)
        requires
            state_wf(old(self)@),
        ensures
            state_wf(final(self)@),
            final(self)@.dir == old(self)@.dir,
            final(self)@.metadata == old(self)@.metadata,
            final(self)@.index == old(self)@.index,
            final(self)@.cache_gen == old(self)@.cache_gen,
            final(self)@.html_cache == Some(r@),
            exists|tags: Seq<Seq<char>>|
                sorted_le(tags) && tags.no_duplicates() && (forall|t: Seq<char>| #[trigger]
                    tags.contains(t) <==> meta_has_tag(old(self)@.metadata, t)) && r@
                    == gallery_html_spec(old(self)@.index, old(self)@.metadata, tags),
    {
        match &self.html_cache {
            Some(h) => h.clone(),
            None => {
                let html = generate_html(&self.index, &self.metadata);
                self.html_cache = Some(html.clone());
                html
            },
        }
    }

    /// Clear the cache and bump the generation counter.
    pub fn invalidate_cache(&mut self)
        ensures
            final(self)@.dir == old(self)@.dir,
            final(self)@.metadata == old(self)@.metadata,
            final(self)@.index == old(self)@.index,
            final(self)@.html_cache is None,
            final(self)@.cache_gen == if old(self)@.cache_gen < u64::MAX {
                old(self)@.cache_gen + 1
            } else {
                0
            },
    {
        if self.cache_gen < u64::MAX {
            self.cache_gen = self.cache_gen + 1;
        } else {
            self.cache_gen = 0;
        }
        self.html_cache = None;
    }

    /// The state change of a successful delete: the record leaves the store,
    /// the path leaves its year, and the cache is invalidated, so the next
    /// document reflects the deletion.
    pub fn apply_delete(&mut self, rel: &str)
        requires
            state_wf(old(self)@),
        ensures
            state_wf(final(self)@),
            final(self)@.dir == old(self)@.dir,
            final(self)@.metadata == remove_file_model(old(self)@.metadata, rel@),
            final(self)@.index == remove_rel_model(old(self)@.index, rel@),
            final(self)@.html_cache is None,
    {
        self.metadata.remove_file(rel);
        self.index.remove_rel(rel);
        self.invalidate_cache();
    }

    /// The state change of a successful move: the record is re-keyed, the
    /// path moves from its old year to the new one at its sorted position,
    /// and the cache is invalidated.
    pub fn apply_move(&mut self, src_rel: &str, new_rel: &str)
        requires
            state_wf(old(self)@),
        ensures
            state_wf(final(self)@),
            final(self)@.dir == old(self)@.dir,
            final(self)@.metadata == rename_file_model(old(self)@.metadata, src_rel@, new_rel@),
            final(self)@.html_cache is None,
            ({
                let mid = remove_rel_model(old(self)@.index, src_rel@);
                match crate::pathutil::year_of_spec(new_rel@) {
                    None => final(self)@.index == mid,
                    Some(y) => {
                        let g = crate::metadata::key_idx(mid, y);
                        if g >= 0 {
                            final(self)@.index.len() == mid.len() && final(self)@.index[g].0 == y
                                && final(self)@.index[g].1.to_multiset() == mid[g].1.to_multiset()
                                .insert(new_rel@) && sorted_le(final(self)@.index[g].1) && forall|
                                j: int,
                            |
                                0 <= j < mid.len() && j != g ==> final(self)@.index[j] == mid[j]
                        } else {
                            exists|p: int|
                                0 <= p <= mid.len() && final(self)@.index == mid.insert(
                                    p,
                                    (y, seq![new_rel@]),
                                )
                        }
                    },
                }
            }),
    {
        self.metadata.rename_file(src_rel, new_rel);
        self.index.remove_rel(src_rel);
        self.index.insert_rel(new_rel.to_owned());
        self.invalidate_cache();
    }

    /// The state change of replacing the metadata store wholesale, as the
    /// metadata endpoint does; the cache is invalidated.
    pub fn replace_metadata(&mut self, metadata: Metadata)
        requires
            state_wf(old(self)@),
            meta_wf(metadata@),
        ensures
            state_wf(final(self)@),
            final(self)@.dir == old(self)@.dir,
            final(self)@.metadata == metadata@,
            final(self)@.index == old(self)@.index,
            final(self)@.html_cache is None,
    {
        self.metadata = metadata;
        self.invalidate_cache();
    }

    /// The plain entries of the metadata store, for persisting it.
    pub fn metadata_entries(&self) -> (r: Vec<(String, Vec<String>, Option<u8>)>)
        ensures
            r@.len() == self@.metadata.len(),
            forall|i: int|
                0 <= i < r@.len() ==> (#[trigger] r@[i]).0@ == self@.metadata[i].0 && views_of(
                    r@[i].1@,
                ) == self@.metadata[i].1.tags && r@[i].2 == self@.metadata[i].1.rating,
    {
        self.metadata.entries_plain()
    }
}

} // verus!
