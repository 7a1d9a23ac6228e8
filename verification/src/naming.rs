//! Collision-free file naming: given the names already in use, pick the
//! first candidate of the series `name`, `stem_1.ext`, `stem_2.ext`, … that
//! is free. The suffix chosen is always the smallest one not in use.

use vstd::prelude::*;
use crate::strutil::{
    contains_string, dec_str, lemma_dec_str_injective, lemma_dec_str_len, push_dec,
    string_from_chars, views_of,
};

verus! {

/// The `k`-th numbered candidate: `stem_k.ext`.
pub open spec fn numbered_name(stem: Seq<char>, ext: Seq<char>, k: int) -> Seq<char> {
    stem + seq!['_'] + dec_str(k) + seq!['.'] + ext
}

/// The candidate series: the plain name first, then the numbered names.
pub open spec fn name_candidate(first: Seq<char>, stem: Seq<char>, ext: Seq<char>, k: int) -> Seq<
    char,
> {
    if k == 0 {
        first
    } else {
        numbered_name(stem, ext, k)
    }
}

/// The shape that keeps the plain name apart from every numbered name: it is
/// either the bare stem or the stem followed by a dot.
pub open spec fn first_shape_ok(first: Seq<char>, stem: Seq<char>) -> bool {
    ||| first == stem
    ||| (first.len() > stem.len() && first[stem.len() as int] == '.')
}

/// Distinct numbers give distinct numbered names.
proof fn lemma_numbered_injective(stem: Seq<char>, ext: Seq<char>, k1: int, k2: int)
    requires
        1 <= k1 < k2,
    ensures
        numbered_name(stem, ext, k1) != numbered_name(stem, ext, k2),
{
    lemma_dec_str_injective(k1, k2);
    let d1 = dec_str(k1);
    let d2 = dec_str(k2);
    let n1 = numbered_name(stem, ext, k1);
    let n2 = numbered_name(stem, ext, k2);
    if d1.len() != d2.len() {
        assert(n1.len() != n2.len());
    } else {
        if n1 == n2 {
            assert forall|idx: int| 0 <= idx < d1.len() implies d1[idx] == d2[idx] by {
                assert(n1[stem.len() + 1 + idx] == d1[idx]);
                assert(n2[stem.len() + 1 + idx] == d2[idx]);
            }
            assert(d1 =~= d2);
        }
    }
}

/// All candidates of the series are pairwise distinct.
proof fn lemma_candidate_injective(
    first: Seq<char>,
    stem: Seq<char>,
    ext: Seq<char>,
    k1: int,
    k2: int,
)
    requires
        first_shape_ok(first, stem),
        0 <= k1 < k2,
    ensures
        name_candidate(first, stem, ext, k1) != name_candidate(first, stem, ext, k2),
{
    if k1 == 0 {
        let n2 = numbered_name(stem, ext, k2);
        lemma_dec_str_len(k2);
        assert(n2.len() >= stem.len() + 3);
        if first == stem {
            assert(first.len() < n2.len());
        } else {
            assert(n2[stem.len() as int] == '_');
            assert(first[stem.len() as int] == '.');
            if first == n2 {
                assert(first[stem.len() as int] == n2[stem.len() as int]);
            }
        }
    } else {
        lemma_numbered_injective(stem, ext, k1, k2);
    }
}

/// The set of the first `i` candidates.
spec fn candidate_set(first: Seq<char>, stem: Seq<char>, ext: Seq<char>, i: int) -> Set<Seq<char>>
    decreases i,
{
    if i <= 0 {
        Set::empty()
    } else {
        candidate_set(first, stem, ext, i - 1).insert(name_candidate(first, stem, ext, i - 1))
    }
}

/// The candidate set is finite, has one element per candidate, and holds
/// exactly the candidates below `i`.
proof fn lemma_candidate_set(first: Seq<char>, stem: Seq<char>, ext: Seq<char>, i: int)
    requires
        first_shape_ok(first, stem),
        i >= 0,
    ensures
        candidate_set(first, stem, ext, i).finite(),
        candidate_set(first, stem, ext, i).len() == i,
        forall|x: Seq<char>|
            candidate_set(first, stem, ext, i).contains(x) <==> exists|k: int|
                0 <= k < i && x == name_candidate(first, stem, ext, k),
    decreases i,
{
    if i > 0 {
        lemma_candidate_set(first, stem, ext, i - 1);
        let prev = candidate_set(first, stem, ext, i - 1);
        let c = name_candidate(first, stem, ext, i - 1);
        if prev.contains(c) {
            let k = choose|k: int| 0 <= k < i - 1 && c == name_candidate(first, stem, ext, k);
            lemma_candidate_injective(first, stem, ext, k, i - 1);
        }
        assert(!prev.contains(c));
        assert(prev.insert(c).len() == prev.len() + 1);
        assert forall|x: Seq<char>|
            candidate_set(first, stem, ext, i).contains(x) implies exists|k: int|
            0 <= k < i && x == name_candidate(first, stem, ext, k) by {
            if x == c {
                assert(x == name_candidate(first, stem, ext, i - 1));
            }
        }
    }
}

/// If every candidate below `i` is in use, the names in use number at least
/// `i`.
proof fn lemma_pigeonhole(
    first: Seq<char>,
    stem: Seq<char>,
    ext: Seq<char>,
    taken: Seq<Seq<char>>,
    i: int,
)
    requires
        first_shape_ok(first, stem),
        i >= 0,
        forall|k: int| 0 <= k < i ==> taken.contains(#[trigger] name_candidate(first, stem, ext, k)),
    ensures
        i <= taken.len(),
{
    lemma_candidate_set(first, stem, ext, i);
    let cs = candidate_set(first, stem, ext, i);
    let ts = taken.to_set();
    assert forall|x: Seq<char>| cs.contains(x) implies ts.contains(x) by {
        let k = choose|k: int| 0 <= k < i && x == name_candidate(first, stem, ext, k);
        assert(taken.contains(x));
    }
    broadcast use vstd::seq_lib::seq_to_set_is_finite;

    vstd::set_lib::lemma_len_subset(cs, ts);
    taken.lemma_cardinality_of_set();
}

/// Pick the first free candidate of the series: `first` when it is not in
/// use, else `stem_k.ext` with the smallest `k >= 1` whose name is free.
pub fn pick_free_name(
    first: String,
    stem: &Vec<char>,
    ext: &Vec<char>,
    taken: &Vec<String>,
) -> (r: String)
    requires
        first_shape_ok(first@, stem@),
        taken@.len() < usize::MAX - 1,
    ensures
        !views_of(taken@).contains(r@),
        exists|k: int|
            0 <= k && r@ == name_candidate(first@, stem@, ext@, k) && !views_of(taken@).contains(
                #[trigger] name_candidate(first@, stem@, ext@, k),
            ) && forall|j: int|
                0 <= j < k ==> views_of(taken@).contains(
                    #[trigger] name_candidate(first@, stem@, ext@, j),
                ),
{
    if !contains_string(taken, first.as_str()) {
        proof {
            assert(exists|k: int|
                0 <= k && first@ == name_candidate(first@, stem@, ext@, k) && !views_of(
                    taken@,
                ).contains(#[trigger] name_candidate(first@, stem@, ext@, k)) && forall|j: int|
                    0 <= j < k ==> views_of(taken@).contains(
                        #[trigger] name_candidate(first@, stem@, ext@, j),
                    )) by {
                assert(first@ == name_candidate(first@, stem@, ext@, 0));
                assert(!views_of(taken@).contains(name_candidate(first@, stem@, ext@, 0)));
            }
        }
        return first;
    }
    let n = taken.len();
    let mut k: usize = 1;
    while k <= n
        invariant
            1 <= k <= n + 1,
            n == taken@.len(),
            n < usize::MAX - 1,
            first_shape_ok(first@, stem@),
            forall|j: int|
                0 <= j < k ==> views_of(taken@).contains(
                    #[trigger] name_candidate(first@, stem@, ext@, j),
                ),
        decreases n + 1 - k,
    {
        let mut v: Vec<char> = Vec::new();
        let mut idx: usize = 0;
        while idx < stem.len()
            invariant
                idx <= stem@.len(),
                v@ == stem@.subrange(0, idx as int),
            decreases stem@.len() - idx,
        {
            let c = stem[idx];
            v.push(c);
            idx = idx + 1;
            proof {
                assert(v@ =~= stem@.subrange(0, idx as int));
            }
        }
        proof {
            assert(v@ =~= stem@);
        }
        v.push('_');
        push_dec(&mut v, k as u64);
        v.push('.');
        let mut idx2: usize = 0;
        let ghost mid = v@;
        while idx2 < ext.len()
            invariant
                idx2 <= ext@.len(),
                v@ == mid + ext@.subrange(0, idx2 as int),
            decreases ext@.len() - idx2,
        {
            let c = ext[idx2];
            v.push(c);
            idx2 = idx2 + 1;
            proof {
                assert(v@ =~= mid + ext@.subrange(0, idx2 as int));
            }
        }
        proof {
            assert(ext@.subrange(0, ext@.len() as int) =~= ext@);
            assert(v@ == mid + ext@);
            assert(mid =~= stem@ + seq!['_'] + dec_str(k as int) + seq!['.']);
            assert(v@ =~= numbered_name(stem@, ext@, k as int));
        }
        let cand = string_from_chars(&v);
        if !contains_string(taken, cand.as_str()) {
            proof {
                assert(exists|w: int|
                    0 <= w && cand@ == name_candidate(first@, stem@, ext@, w) && !views_of(
                        taken@,
                    ).contains(#[trigger] name_candidate(first@, stem@, ext@, w)) && forall|j: int|
                        0 <= j < w ==> views_of(taken@).contains(
                            #[trigger] name_candidate(first@, stem@, ext@, j),
                        )) by {
                    assert(cand@ == name_candidate(first@, stem@, ext@, k as int));
                    assert(!views_of(taken@).contains(
                        name_candidate(first@, stem@, ext@, k as int),
                    ));
                }
            }
            return cand;
        }
        k = k + 1;
    }
    proof {
        lemma_pigeonhole(first@, stem@, ext@, views_of(taken@), n as int + 1);
        assert(views_of(taken@).len() == taken@.len());
        assert(false);
    }
    vstd::pervasive::unreached()
}

} // verus!
