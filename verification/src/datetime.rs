//! Naive wall-clock timestamps: the fixed `YYYY-MM-DD hh:mm:ss` text form,
//! calendar validity, destination-name formatting, and the year-token probe
//! that reads a capture year out of a directory path.

use vstd::prelude::*;
use crate::strutil::{chars_of, pad2, pad4, push_pad2, push_pad4, string_from_chars};

verus! {

/// A naive local timestamp, second precision.
#[derive(Clone, Copy, Debug, PartialEq, Eq, Structural)]
pub struct Timestamp {
    pub year: u16,
    pub month: u8,
    pub day: u8,
    pub hour: u8,
    pub minute: u8,
    pub second: u8,
}

/// Which probe produced a timestamp.
#[derive(Clone, Copy, Debug, PartialEq, Eq, Structural)]
pub enum DateSource {
    Exif,
    Dirname,
    Filesystem,
}

impl DateSource {
    /// The journal's name for this probe.
    pub fn as_str(&self) -> (r: &'static str)
        ensures
            r@ == match self {
                DateSource::Exif => "exif"@,
                DateSource::Dirname => "dirname"@,
                DateSource::Filesystem => "filesystem"@,
            },
    {
        match self {
            DateSource::Exif => "exif",
            DateSource::Dirname => "dirname",
            DateSource::Filesystem => "filesystem",
        }
    }
}

/// The Gregorian leap-year rule.
pub open spec fn is_leap_year(y: int) -> bool {
    (y % 4 == 0 && y % 100 != 0) || y % 400 == 0
}

/// Days in the given month of the given year.
pub open spec fn days_in_month(y: int, m: int) -> int
    recommends
        1 <= m <= 12,
{
    if m == 2 {
        if is_leap_year(y) {
            29
        } else {
            28
        }
    } else if m == 4 || m == 6 || m == 9 || m == 11 {
        30
    } else {
        31
    }
}

/// A calendar-valid timestamp.
pub open spec fn ts_valid(t: Timestamp) -> bool {
    &&& 1 <= t.month <= 12
    &&& 1 <= t.day <= days_in_month(t.year as int, t.month as int)
    &&& t.hour <= 23
    &&& t.minute <= 59
    &&& t.second <= 59
}

/// The timestamp every probe falls back to: the Unix epoch.
pub open spec fn epoch_spec() -> Timestamp {
    Timestamp { year: 1970, month: 1, day: 1, hour: 0, minute: 0, second: 0 }
}

/// A decimal digit character.
pub open spec fn is_digit(c: char) -> bool {
    '0' <= c && c <= '9'
}

/// The value of a decimal digit character.
pub open spec fn digit_val(c: char) -> int
    recommends
        is_digit(c),
{
    c as int - 48
}

/// The value of the two digits at `i`.
pub open spec fn two_digit_val(s: Seq<char>, i: int) -> int {
    digit_val(s[i]) * 10 + digit_val(s[i + 1])
}

/// The value of the four digits at `i`.
pub open spec fn four_digit_val(s: Seq<char>, i: int) -> int {
    digit_val(s[i]) * 1000 + digit_val(s[i + 1]) * 100 + digit_val(s[i + 2]) * 10 + digit_val(
        s[i + 3],
    )
}

/// Is `s` exactly `YYYY-MM-DD hh:mm:ss`, all positions digits or the fixed
/// separators?
pub open spec fn dt_well_formed(s: Seq<char>) -> bool {
    &&& s.len() == 19
    &&& is_digit(s[0]) && is_digit(s[1]) && is_digit(s[2]) && is_digit(s[3])
    &&& s[4] == '-'
    &&& is_digit(s[5]) && is_digit(s[6])
    &&& s[7] == '-'
    &&& is_digit(s[8]) && is_digit(s[9])
    &&& s[10] == ' '
    &&& is_digit(s[11]) && is_digit(s[12])
    &&& s[13] == ':'
    &&& is_digit(s[14]) && is_digit(s[15])
    &&& s[16] == ':'
    &&& is_digit(s[17]) && is_digit(s[18])
}

/// The timestamp written in a well-formed `YYYY-MM-DD hh:mm:ss` string.
pub open spec fn dt_value(s: Seq<char>) -> Timestamp
    recommends
        dt_well_formed(s),
{
    Timestamp {
        year: four_digit_val(s, 0) as u16,
        month: two_digit_val(s, 5) as u8,
        day: two_digit_val(s, 8) as u8,
        hour: two_digit_val(s, 11) as u8,
        minute: two_digit_val(s, 14) as u8,
        second: two_digit_val(s, 17) as u8,
    }
}

/// What `parse_datetime` returns: the written timestamp, provided the text
/// has the exact shape and the date is calendar-valid.
pub open spec fn parse_datetime_spec(s: Seq<char>) -> Option<Timestamp> {
    if dt_well_formed(s) && ts_valid(dt_value(s)) {
        Some(dt_value(s))
    } else {
        None
    }
}

/// Days in the given month of the given year.
pub fn days_in_month_exec(y: u16, m: u8) -> (r: u8)
    requires
        1 <= m <= 12,
    ensures
        r as int == days_in_month(y as int, m as int),
{
    if m == 2 {
        if (y % 4 == 0 && y % 100 != 0) || y % 400 == 0 {
            29
        } else {
            28
        }
    } else if m == 4 || m == 6 || m == 9 || m == 11 {
        30
    } else {
        31
    }
}

/// Is the timestamp calendar-valid?
pub fn ts_valid_exec(t: &Timestamp) -> (r: bool)
    ensures
        r == ts_valid(*t),
{
    1 <= t.month && t.month <= 12 && 1 <= t.day && t.day <= days_in_month_exec(t.year, t.month)
        && t.hour <= 23 && t.minute <= 59 && t.second <= 59
}

fn digit_at(v: &Vec<char>, i: usize) -> (r: Option<u8>)
    requires
        i < v@.len(),
    ensures
        match r {
            Some(d) => is_digit(v@[i as int]) && d as int == digit_val(v@[i as int]) && d <= 9,
            None => !is_digit(v@[i as int]),
        },
{
    let c = v[i];
    if '0' <= c && c <= '9' {
        Some((c as u8) - 48)
    } else {
        None
    }
}

fn two_digits_at(v: &Vec<char>, i: usize) -> (r: Option<u8>)
    requires
        i + 1 < v@.len(),
    ensures
        match r {
            Some(d) => is_digit(v@[i as int]) && is_digit(v@[i + 1]) && d as int == two_digit_val(
                v@,
                i as int,
            ) && d <= 99,
            None => !(is_digit(v@[i as int]) && is_digit(v@[i + 1])),
        },
{
    let n = v.len();
    let d1 = digit_at(v, i);
    let d2 = digit_at(v, i + 1);
    match (d1, d2) {
        (Some(a), Some(b)) => Some(a * 10 + b),
        _ => None,
    }
}

/// Parse the exact pattern `YYYY-MM-DD hh:mm:ss`, rejecting any other shape
/// and any calendar-invalid date.
pub fn parse_datetime(s: &str) -> (r: Option<Timestamp>)
    ensures
        r == parse_datetime_spec(s@),
{
    let v = chars_of(s);
    if v.len() != 19 {
        return None;
    }
    if !(v[4] == '-' && v[7] == '-' && v[10] == ' ' && v[13] == ':' && v[16] == ':') {
        return None;
    }
    let y1 = two_digits_at(&v, 0);
    let y2 = two_digits_at(&v, 2);
    let mo = two_digits_at(&v, 5);
    let d = two_digits_at(&v, 8);
    let h = two_digits_at(&v, 11);
    let mi = two_digits_at(&v, 14);
    let se = two_digits_at(&v, 17);
    match (y1, y2, mo, d, h, mi, se) {
        (Some(a), Some(b), Some(mo), Some(d), Some(h), Some(mi), Some(se)) => {
            let t = Timestamp {
                year: (a as u16) * 100 + (b as u16),
                month: mo,
                day: d,
                hour: h,
                minute: mi,
                second: se,
            };
            if ts_valid_exec(&t) {
                Some(t)
            } else {
                None
            }
        },
        _ => None,
    }
}

/// The destination file stem for a timestamp: `YYYY-MM-DD_hh-mm-ss`.
pub open spec fn basename_spec(t: Timestamp) -> Seq<char> {
    pad4(t.year as int) + seq!['-'] + pad2(t.month as int) + seq!['-'] + pad2(t.day as int)
        + seq!['_'] + pad2(t.hour as int) + seq!['-'] + pad2(t.minute as int) + seq!['-'] + pad2(
        t.second as int,
    )
}

/// The year of a timestamp as four digits.
pub open spec fn year_str_spec(t: Timestamp) -> Seq<char> {
    pad4(t.year as int)
}

/// Render the year of `t` as four digits.
pub fn format_year(t: &Timestamp) -> (r: String)
    requires
        t.year <= 9999,
    ensures
        r@ == year_str_spec(*t),
{
    let mut v: Vec<char> = Vec::new();
    push_pad4(&mut v, t.year as u64);
    string_from_chars(&v)
}

/// Render the destination stem `YYYY-MM-DD_hh-mm-ss` of `t`.
pub fn format_basename(t: &Timestamp) -> (r: String)
    requires
        t.year <= 9999,
        t.month <= 99,
        t.day <= 99,
        t.hour <= 99,
        t.minute <= 99,
        t.second <= 99,
    ensures
        r@ == basename_spec(*t),
{
    let mut v: Vec<char> = Vec::new();
    push_pad4(&mut v, t.year as u64);
    v.push('-');
    push_pad2(&mut v, t.month as u64);
    v.push('-');
    push_pad2(&mut v, t.day as u64);
    v.push('_');
    push_pad2(&mut v, t.hour as u64);
    v.push('-');
    push_pad2(&mut v, t.minute as u64);
    v.push('-');
    push_pad2(&mut v, t.second as u64);
    proof {
        assert(v@ =~= basename_spec(*t));
    }
    string_from_chars(&v)
}

/// Does a year token `19xx` or `20xx` stand at position `i`?
pub open spec fn year_token_at(s: Seq<char>, i: int) -> bool {
    &&& 0 <= i
    &&& i + 4 <= s.len()
    &&& ((s[i] == '1' && s[i + 1] == '9') || (s[i] == '2' && s[i + 1] == '0'))
    &&& is_digit(s[i + 2])
    &&& is_digit(s[i + 3])
}

/// The last year token of a left-to-right, non-overlapping scan from `i`,
/// with `acc` the last token seen so far.
pub open spec fn scan_last_year(s: Seq<char>, i: int, acc: Option<int>) -> Option<int>
    recommends
        i >= 0,
    decreases s.len() - i + 4,
{
    if i < 0 || i + 4 > s.len() {
        acc
    } else if year_token_at(s, i) {
        scan_last_year(s, i + 4, Some(four_digit_val(s, i)))
    } else {
        scan_last_year(s, i + 1, acc)
    }
}

/// What the dirname probe returns: January first of the last year token in
/// the path, or nothing when the path holds no year token.
pub open spec fn date_from_dirname_spec(p: Seq<char>) -> Option<Timestamp> {
    match scan_last_year(p, 0, None) {
        Some(y) => Some(
            Timestamp {
                year: y as u16,
                month: 1,
                day: 1,
                hour: 0,
                minute: 0,
                second: 0,
            },
        ),
        None => None,
    }
}

/// The dirname probe: scan the whole path for four-digit tokens `19xx`/`20xx`
/// and synthesize midnight, January first of the last one found.
pub fn date_from_dirname(path: &str) -> (r: Option<Timestamp>)
    ensures
        r == date_from_dirname_spec(path@),
{
    let v = chars_of(path);
    let n = v.len();
    let mut i: usize = 0;
    let mut acc: Option<u16> = None;
    while n >= 4 && i <= n - 4
        invariant
            n == v@.len(),
            i <= n + 3,
            match acc {
                Some(y) => 1900 <= y <= 2099 && scan_last_year(v@, 0, None) == scan_last_year(
                    v@,
                    i as int,
                    Some(y as int),
                ),
                None => scan_last_year(v@, 0, None) == scan_last_year(v@, i as int, None),
            },
        decreases n - i,
    {
        let c0 = v[i];
        let c1 = v[i + 1];
        let is19 = c0 == '1' && c1 == '9';
        let is20 = c0 == '2' && c1 == '0';
        if is19 || is20 {
            let d2 = digit_at(&v, i + 2);
            let d3 = digit_at(&v, i + 3);
            match (d2, d3) {
                (Some(a), Some(b)) => {
                    let century: u16 = if is19 {
                        1900
                    } else {
                        2000
                    };
                    let y: u16 = century + (a as u16) * 10 + (b as u16);
                    proof {
                        assert(year_token_at(v@, i as int));
                        assert(digit_val(v@[i as int]) == if is19 {
                            1int
                        } else {
                            2int
                        });
                        assert(digit_val(v@[i as int + 1]) == if is19 {
                            9int
                        } else {
                            0int
                        });
                        assert(y as int == four_digit_val(v@, i as int));
                    }
                    acc = Some(y);
                    i = i + 4;
                },
                _ => {
                    proof {
                        assert(!year_token_at(v@, i as int));
                    }
                    i = i + 1;
                },
            }
        } else {
            proof {
                assert(!year_token_at(v@, i as int));
            }
            i = i + 1;
        }
    }
    match acc {
        Some(y) => Some(
            Timestamp { year: y, month: 1, day: 1, hour: 0, minute: 0, second: 0 },
        ),
        None => None,
    }
}

/// Pick the first successful probe, in the fixed order EXIF, dirname,
/// filesystem; fall back to the Unix epoch under the filesystem label.
pub fn choose_date(
    exif: Option<Timestamp>,
    dirname: Option<Timestamp>,
    filesystem: Option<Timestamp>,
) -> (r: (Timestamp, DateSource))
    ensures
        r == match exif {
            Some(t) => (t, DateSource::Exif),
            None => match dirname {
                Some(t) => (t, DateSource::Dirname),
                None => match filesystem {
                    Some(t) => (t, DateSource::Filesystem),
                    None => (epoch_spec(), DateSource::Filesystem),
                },
            },
        },
{
    match exif {
        Some(t) => (t, DateSource::Exif),
        None => match dirname {
            Some(t) => (t, DateSource::Dirname),
            None => match filesystem {
                Some(t) => (t, DateSource::Filesystem),
                None => (
                    Timestamp { year: 1970, month: 1, day: 1, hour: 0, minute: 0, second: 0 },
                    DateSource::Filesystem,
                ),
            },
        },
    }
}

/// The EXIF probe's selection rule: among the displayed values of the tags
/// `DateTimeOriginal`, `DateTimeDigitized` and `DateTime`, in that order, the
/// first one that parses wins.
pub fn date_from_exif_values(values: &Vec<Option<String>>) -> (r: Option<Timestamp>)
    ensures
        r == exif_pick_spec(values@.map_values(|o: Option<String>| option_view(o)), 0),
{
    let mut i: usize = 0;
    let ghost views = values@.map_values(|o: Option<String>| option_view(o));
    while i < values.len()
        invariant
            i <= values@.len(),
            views == values@.map_values(|o: Option<String>| option_view(o)),
            exif_pick_spec(views, 0) == exif_pick_spec(views, i as int),
        decreases values@.len() - i,
    {
        match &values[i] {
            Some(s) => {
                match parse_datetime(s.as_str()) {
                    Some(t) => {
                        return Some(t);
                    },
                    None => {},
                }
            },
            None => {},
        }
        i = i + 1;
    }
    None
}

/// The view of an optional string.
pub open spec fn option_view(o: Option<String>) -> Option<Seq<char>> {
    match o {
        Some(s) => Some(s@),
        None => None,
    }
}

/// The first displayed value from `i` on that parses as a timestamp.
pub open spec fn exif_pick_spec(values: Seq<Option<Seq<char>>>, i: int) -> Option<Timestamp>
    decreases values.len() - i + 1,
{
    if i < 0 || i >= values.len() {
        None
    } else {
        match values[i] {
            Some(s) => match parse_datetime_spec(s) {
                Some(t) => Some(t),
                None => exif_pick_spec(values, i + 1),
            },
            None => exif_pick_spec(values, i + 1),
        }
    }
}

} // verus!
