//! Small verified building blocks for working with strings as `Seq<char>`.

use vstd::prelude::*;
use vstd::string::StrSliceExecFns;
use vstd::string::StringExecFns;

verus! {

/// Lowercase an ASCII letter; leave every other character unchanged.
pub open spec fn lower_char(c: char) -> char {
    if 'A' <= c && c <= 'Z' {
        (((c as u8) + 32) as char)
    } else {
        c
    }
}

/// Pointwise ASCII lowercasing of a character sequence.
pub open spec fn lower_chars(s: Seq<char>) -> Seq<char> {
    s.map_values(|c: char| lower_char(c))
}

/// The characters of `s`, as a vector.
pub fn chars_of(s: &str) -> (v: Vec<char>)
    ensures
        v@ == s@,
{
    let n = s.unicode_len();
    let mut v: Vec<char> = Vec::new();
    let mut i: usize = 0;
    while i < n
        invariant
            i <= n,
            n == s@.len(),
            v@ == s@.subrange(0, i as int),
        decreases n - i,
    {
        let c = s.get_char(i);
        v.push(c);
        i = i + 1;
        proof {
            assert(v@ =~= s@.subrange(0, i as int));
        }
    }
    proof {
        assert(v@ =~= s@);
    }
    v
}

/// Relies on `String::push`: appends exactly the given character.
#[verifier::external_body]
pub fn push_char(s: &mut String, c: char)
    ensures
        final(s)@ == old(s)@.push(c),
{
    s.push(c);
}

/// Build a `String` whose characters are exactly `v`.
pub fn string_from_chars(v: &Vec<char>) -> (s: String)
    ensures
        s@ == v@,
{
    let mut s = String::new();
    let mut i: usize = 0;
    while i < v.len()
        invariant
            i <= v@.len(),
            s@ == v@.subrange(0, i as int),
        decreases v@.len() - i,
    {
        push_char(&mut s, v[i]);
        i = i + 1;
        proof {
            assert(s@ =~= v@.subrange(0, i as int));
        }
    }
    proof {
        assert(s@ =~= v@);
    }
    s
}

/// Character-for-character string equality.
pub fn str_eq(a: &str, b: &str) -> (r: bool)
    ensures
        r == (a@ == b@),
{
    let n = a.unicode_len();
    if n != b.unicode_len() {
        return false;
    }
    let mut i: usize = 0;
    while i < n
        invariant
            i <= n,
            n == a@.len(),
            n == b@.len(),
            forall|j: int| 0 <= j < i ==> a@[j] == b@[j],
        decreases n - i,
    {
        if a.get_char(i) != b.get_char(i) {
            return false;
        }
        i = i + 1;
    }
    proof {
        assert(a@ =~= b@);
    }
    true
}

/// Lexicographic order on character sequences, by Unicode code point.
/// This matches the order in which Rust compares `str` values.
pub open spec fn lex_le(a: Seq<char>, b: Seq<char>) -> bool
    decreases a.len(),
{
    if a.len() == 0 {
        true
    } else if b.len() == 0 {
        false
    } else if (a[0] as u32) < (b[0] as u32) {
        true
    } else if (a[0] as u32) > (b[0] as u32) {
        false
    } else {
        lex_le(a.drop_first(), b.drop_first())
    }
}

/// `lex_le` is total: any two sequences are comparable.
pub proof fn lemma_lex_le_total(a: Seq<char>, b: Seq<char>)
    ensures
        lex_le(a, b) || lex_le(b, a),
    decreases a.len(),
{
    if a.len() != 0 && b.len() != 0 && (a[0] as u32) == (b[0] as u32) {
        lemma_lex_le_total(a.drop_first(), b.drop_first());
    }
}

/// `lex_le` is transitive.
pub proof fn lemma_lex_le_transitive(a: Seq<char>, b: Seq<char>, c: Seq<char>)
    requires
        lex_le(a, b),
        lex_le(b, c),
    ensures
        lex_le(a, c),
    decreases a.len(),
{
    if a.len() != 0 && b.len() != 0 && c.len() != 0 && (a[0] as u32) == (b[0] as u32) && (b[0]
        as u32) == (c[0] as u32) {
        lemma_lex_le_transitive(a.drop_first(), b.drop_first(), c.drop_first());
    }
}

/// Chopping an equal prefix off both sides does not change the order.
proof fn lemma_lex_le_common_prefix(a: Seq<char>, b: Seq<char>, i: int)
    requires
        0 <= i <= a.len(),
        i <= b.len(),
        forall|j: int| 0 <= j < i ==> a[j] == b[j],
    ensures
        lex_le(a, b) == lex_le(a.skip(i), b.skip(i)),
    decreases i,
{
    if i > 0 {
        assert(a.len() > 0 && b.len() > 0 && a[0] == b[0]);
        lemma_lex_le_common_prefix(a.drop_first(), b.drop_first(), i - 1);
        assert(a.drop_first().skip(i - 1) =~= a.skip(i));
        assert(b.drop_first().skip(i - 1) =~= b.skip(i));
    } else {
        assert(a.skip(0) =~= a);
        assert(b.skip(0) =~= b);
    }
}

/// Decide `lex_le` on two strings.
pub fn str_le(a: &str, b: &str) -> (r: bool)
    ensures
        r == lex_le(a@, b@),
{
    let na = a.unicode_len();
    let nb = b.unicode_len();
    let n = if na < nb {
        na
    } else {
        nb
    };
    let mut i: usize = 0;
    while i < n
        invariant
            i <= n,
            na == a@.len(),
            nb == b@.len(),
            n == if na < nb {
                na
            } else {
                nb
            },
            forall|j: int| 0 <= j < i ==> a@[j] == b@[j],
        decreases n - i,
    {
        let ca = a.get_char(i);
        let cb = b.get_char(i);
        if ca != cb {
            proof {
                lemma_lex_le_common_prefix(a@, b@, i as int);
                assert(a@.skip(i as int)[0] == a@[i as int]);
                assert(b@.skip(i as int)[0] == b@[i as int]);
            }
            return (ca as u32) < (cb as u32);
        }
        i = i + 1;
    }
    proof {
        lemma_lex_le_common_prefix(a@, b@, n as int);
        if na <= nb {
            assert(a@.skip(n as int).len() == 0);
        } else {
            assert(b@.skip(n as int).len() == 0);
            assert(a@.skip(n as int).len() > 0);
        }
    }
    na <= nb
}

/// Lowercase every ASCII letter of `v` in a fresh vector.
pub fn lower_vec(v: &Vec<char>) -> (r: Vec<char>)
    ensures
        r@ == lower_chars(v@),
{
    let mut r: Vec<char> = Vec::new();
    let mut i: usize = 0;
    while i < v.len()
        invariant
            i <= v@.len(),
            r@ == lower_chars(v@.subrange(0, i as int)),
        decreases v@.len() - i,
    {
        let c = v[i];
        let lc: char = if 'A' <= c && c <= 'Z' {
            ((c as u8) + 32) as char
        } else {
            c
        };
        r.push(lc);
        i = i + 1;
        proof {
            assert(r@ =~= lower_chars(v@.subrange(0, i as int)));
        }
    }
    proof {
        assert(v@.subrange(0, v@.len() as int) =~= v@);
    }
    r
}

/// Does the character vector hold exactly the characters of `s`?
pub fn vec_eq_str(v: &Vec<char>, s: &str) -> (r: bool)
    ensures
        r == (v@ == s@),
{
    let n = s.unicode_len();
    if v.len() != n {
        return false;
    }
    let mut i: usize = 0;
    while i < n
        invariant
            i <= n,
            n == s@.len(),
            n == v@.len(),
            forall|j: int| 0 <= j < i ==> v@[j] == s@[j],
        decreases n - i,
    {
        if v[i] != s.get_char(i) {
            return false;
        }
        i = i + 1;
    }
    proof {
        assert(v@ =~= s@);
    }
    true
}

/// The decimal digit character for a value below ten.
pub open spec fn digit_char(d: int) -> char
    recommends
        0 <= d <= 9,
{
    (((48 + d) as u8) as char)
}

/// Decimal notation of `n`, without leading zeros.
pub open spec fn dec_str(n: int) -> Seq<char>
    recommends
        n >= 0,
    decreases n,
{
    if n <= 9 {
        seq![digit_char(n)]
    } else {
        dec_str(n / 10).push(digit_char(n % 10))
    }
}

/// The length of a decimal notation: one digit up to nine, more above.
pub proof fn lemma_dec_str_len(n: int)
    requires
        n >= 0,
    ensures
        n <= 9 ==> dec_str(n).len() == 1,
        n >= 10 ==> dec_str(n).len() >= 2,
    decreases n,
{
    if n >= 10 {
        lemma_dec_str_len(n / 10);
    }
}

/// Distinct digits give distinct digit characters.
proof fn lemma_digit_char_injective(a: int, b: int)
    requires
        0 <= a <= 9,
        0 <= b <= 9,
        a != b,
    ensures
        digit_char(a) != digit_char(b),
{
    let ca = (48 + a) as u8;
    let cb = (48 + b) as u8;
    assert(ca != cb);
    assert((ca as char) as u8 == ca);
    assert((cb as char) as u8 == cb);
}

/// Distinct numbers have distinct decimal notations.
pub proof fn lemma_dec_str_injective(a: int, b: int)
    requires
        0 <= a < b,
    ensures
        dec_str(a) != dec_str(b),
    decreases b,
{
    if b <= 9 {
        lemma_digit_char_injective(a, b);
        assert(dec_str(a)[0] != dec_str(b)[0]);
    } else if a <= 9 {
        lemma_dec_str_len(a);
        lemma_dec_str_len(b);
    } else {
        if a % 10 != b % 10 {
            lemma_digit_char_injective(a % 10, b % 10);
            assert(dec_str(a).last() == digit_char(a % 10));
            assert(dec_str(b).last() == digit_char(b % 10));
        } else {
            assert(a / 10 < b / 10);
            lemma_dec_str_injective(a / 10, b / 10);
            assert(dec_str(a).drop_last() =~= dec_str(a / 10));
            assert(dec_str(b).drop_last() =~= dec_str(b / 10));
        }
    }
}

/// `n` in decimal, left-padded with zeros to two digits.
pub open spec fn pad2(n: int) -> Seq<char>
    recommends
        0 <= n <= 99,
{
    seq![digit_char(n / 10), digit_char(n % 10)]
}

/// `n` in decimal, left-padded with zeros to four digits.
pub open spec fn pad4(n: int) -> Seq<char>
    recommends
        0 <= n <= 9999,
{
    seq![
        digit_char(n / 1000),
        digit_char((n / 100) % 10),
        digit_char((n / 10) % 10),
        digit_char(n % 10),
    ]
}

fn digit_to_char(d: u64) -> (c: char)
    requires
        d <= 9,
    ensures
        c == digit_char(d as int),
{
    ((48 + d) as u8) as char
}

/// Append the decimal notation of `n` to a character vector.
pub fn push_dec(v: &mut Vec<char>, n: u64)
    ensures
        final(v)@ == old(v)@ + dec_str(n as int),
    decreases n,
{
    if n <= 9 {
        let c = digit_to_char(n);
        v.push(c);
        proof {
            assert(final(v)@ =~= old(v)@ + dec_str(n as int));
        }
    } else {
        push_dec(v, n / 10);
        let c = digit_to_char(n % 10);
        v.push(c);
        proof {
            assert(final(v)@ =~= old(v)@ + dec_str(n as int));
        }
    }
}

/// Append `n` as exactly two decimal digits to a character vector.
pub fn push_pad2(v: &mut Vec<char>, n: u64)
    requires
        n <= 99,
    ensures
        final(v)@ == old(v)@ + pad2(n as int),
{
    let c1 = digit_to_char(n / 10);
    let c2 = digit_to_char(n % 10);
    v.push(c1);
    v.push(c2);
    proof {
        assert(final(v)@ =~= old(v)@ + pad2(n as int));
    }
}

/// Append `n` as exactly four decimal digits to a character vector.
pub fn push_pad4(v: &mut Vec<char>, n: u64)
    requires
        n <= 9999,
    ensures
        final(v)@ == old(v)@ + pad4(n as int),
{
    let c1 = digit_to_char(n / 1000);
    let c2 = digit_to_char((n / 100) % 10);
    let c3 = digit_to_char((n / 10) % 10);
    let c4 = digit_to_char(n % 10);
    v.push(c1);
    v.push(c2);
    v.push(c3);
    v.push(c4);
    proof {
        assert(final(v)@ =~= old(v)@ + pad4(n as int));
    }
}

/// The decimal notation of `n`, as a string.
pub fn dec_string(n: u64) -> (s: String)
    ensures
        s@ == dec_str(n as int),
{
    let mut v: Vec<char> = Vec::new();
    push_dec(&mut v, n);
    string_from_chars(&v)
}

/// The views of a vector of strings.
pub open spec fn views_of(v: Seq<String>) -> Seq<Seq<char>> {
    v.map_values(|s: String| s@)
}

/// Every adjacent pair of the string views is in `lex_le` order.
pub open spec fn sorted_le(v: Seq<Seq<char>>) -> bool {
    forall|i: int, j: int| 0 <= i < j < v.len() ==> lex_le(v[i], v[j])
}

pub proof fn lemma_to_multiset_seq_insert<A>(s: Seq<A>, i: int, x: A)
    requires
        0 <= i <= s.len(),
    ensures
        s.insert(i, x).to_multiset() =~= s.to_multiset().insert(x),
{
    broadcast use vstd::seq_lib::group_to_multiset_ensures;

    let t = s.insert(i, x);
    assert(t.remove(i) =~= s);
    assert(t.remove(i).to_multiset() =~= t.to_multiset().remove(t[i]));
    assert(t[i] == x);
    assert(t.to_multiset().count(x) > 0) by {
        assert(t.contains(x));
    }
    assert(t.to_multiset().remove(x).insert(x) =~= t.to_multiset());
}

/// The first position in `v` whose string is not below `s`.
fn lower_bound(v: &Vec<String>, s: &str) -> (i: usize)
    ensures
        i <= v@.len(),
        forall|j: int| 0 <= j < i ==> lex_le(views_of(v@)[j], s@),
        i < v@.len() ==> !lex_le(v@[i as int]@, s@),
{
    let mut i: usize = 0;
    while i < v.len()
        invariant
            i <= v@.len(),
            forall|j: int| 0 <= j < i ==> lex_le(views_of(v@)[j], s@),
        decreases v@.len() - i,
    {
        if !str_le(&v[i], s) {
            return i;
        }
        i = i + 1;
    }
    i
}

/// Insert `s` into a sorted vector of strings, keeping it sorted; the new
/// element stands at the first position whose successor is not below it.
pub fn insert_string_sorted(v: &mut Vec<String>, s: String)
    requires
        sorted_le(views_of(old(v)@)),
    ensures
        sorted_le(views_of(final(v)@)),
        final(v)@.len() == old(v)@.len() + 1,
        final(v)@.to_multiset() == old(v)@.to_multiset().insert(s),
        views_of(final(v)@).to_multiset() == views_of(old(v)@).to_multiset().insert(s@),
{
    let ghost orig = v@;
    let i = lower_bound(v, s.as_str());
    proof {
        if i < v@.len() {
            assert(!lex_le(v@[i as int]@, s@));
            lemma_lex_le_total(v@[i as int]@, s@);
        }
    }
    v.insert(i, s);
    proof {
        let vs = views_of(v@);
        let os = views_of(orig);
        assert(v@ == orig.insert(i as int, s));
        assert forall|k: int| 0 <= k < vs.len() implies vs[k] == if k < i {
            os[k]
        } else if k == i {
            s@
        } else {
            os[k - 1]
        } by {
            assert(v@[k] == if k < i {
                orig[k]
            } else if k == i {
                s
            } else {
                orig[k - 1]
            });
        }
        assert forall|p: int, q: int| 0 <= p < q < vs.len() implies lex_le(vs[p], vs[q]) by {
            if p < i && q == i {
            } else if p == i && q > i {
                assert(vs[q] == os[q - 1]);
                if i < os.len() {
                    if q - 1 == i {
                    } else {
                        assert(lex_le(os[i as int], os[q - 1]));
                        lemma_lex_le_transitive(s@, os[i as int], os[q - 1]);
                    }
                }
            } else if p < i && q > i {
                assert(lex_le(os[p], os[q - 1]));
            } else {
            }
        }
        lemma_to_multiset_seq_insert(orig, i as int, s);
        lemma_to_multiset_seq_insert(os, i as int, s@);
        assert(views_of(v@) =~= os.insert(i as int, s@));
    }
}

/// Sort a vector of strings into `lex_le` order; the result holds the same
/// strings with the same multiplicities.
pub fn sort_strings(v: Vec<String>) -> (r: Vec<String>)
    ensures
        sorted_le(views_of(r@)),
        r@.to_multiset() == v@.to_multiset(),
        r@.len() == v@.len(),
{
    broadcast use vstd::seq_lib::group_to_multiset_ensures;

    let mut r: Vec<String> = Vec::new();
    let mut i: usize = 0;
    while i < v.len()
        invariant
            i <= v@.len(),
            sorted_le(views_of(r@)),
            r@.to_multiset() == v@.subrange(0, i as int).to_multiset(),
            r@.len() == i,
        decreases v@.len() - i,
    {
        let s = v[i].clone();
        assert(s == v@[i as int]);
        insert_string_sorted(&mut r, s);
        i = i + 1;
        proof {
            broadcast use vstd::seq_lib::group_to_multiset_ensures;

            assert(v@.subrange(0, i as int) =~= v@.subrange(0, i as int - 1).push(
                v@[i as int - 1],
            ));
        }
    }
    proof {
        assert(v@.subrange(0, v@.len() as int) =~= v@);
    }
    r
}

/// `c` repeated `n` times.
pub open spec fn repeat_char(c: char, n: int) -> Seq<char>
    decreases n,
{
    if n <= 0 {
        Seq::empty()
    } else {
        repeat_char(c, n - 1).push(c)
    }
}

/// Append `n` copies of `c` to a character vector.
pub fn push_repeat(v: &mut Vec<char>, c: char, n: u64)
    ensures
        final(v)@ == old(v)@ + repeat_char(c, n as int),
{
    let mut k: u64 = 0;
    while k < n
        invariant
            k <= n,
            v@ == old(v)@ + repeat_char(c, k as int),
        decreases n - k,
    {
        v.push(c);
        k = k + 1;
    }
    proof {
        assert(final(v)@ =~= old(v)@ + repeat_char(c, n as int));
    }
}

/// Does the vector hold a string whose characters equal `s`?
pub fn contains_string(v: &Vec<String>, s: &str) -> (r: bool)
    ensures
        r == views_of(v@).contains(s@),
{
    let mut i: usize = 0;
    while i < v.len()
        invariant
            i <= v@.len(),
            forall|j: int| 0 <= j < i ==> views_of(v@)[j] != s@,
        decreases v@.len() - i,
    {
        if str_eq(v[i].as_str(), s) {
            assert(views_of(v@)[i as int] == s@);
            return true;
        }
        i = i + 1;
    }
    proof {
        if views_of(v@).contains(s@) {
            let j = choose|j: int| 0 <= j < views_of(v@).len() && views_of(v@)[j] == s@;
            assert(views_of(v@)[j] != s@);
        }
    }
    false
}

} // verus!
