//! The photo index — archive files grouped by year, each year's list kept in
//! ascending order — and the gallery HTML rendered from it together with the
//! metadata store.

use vstd::prelude::*;
use crate::metadata::{
    keep_other_tags, key_idx, lemma_filter_member, lemma_filter_push, lemma_key_idx, meta_find,
};
use crate::pathutil::{year_of, year_of_spec};
use crate::metadata::{clone_strings, Metadata, MetaModel};
use crate::strutil::{
    chars_of, contains_string, dec_str, dec_string, insert_string_sorted, lemma_lex_le_total,
    lemma_lex_le_transitive, lex_le, push_char, push_repeat, repeat_char, sort_strings, sorted_le,
    str_eq, string_from_chars, views_of,
};

verus! {

/// The index's model: one group per year, years strictly ascending, files of
/// each year ascending.
pub type IndexModel = Seq<(Seq<char>, Seq<Seq<char>>)>;

/// Well-formed index: years strictly ascending, no empty group, each group's
/// files ascending and belonging to that year.
pub open spec fn idx_wf(ix: IndexModel) -> bool {
    &&& forall|i: int, j: int|
        0 <= i < j < ix.len() ==> lex_le(#[trigger] ix[i].0, #[trigger] ix[j].0) && ix[i].0
            != ix[j].0
    &&& forall|g: int| 0 <= g < ix.len() ==> (#[trigger] ix[g].1).len() > 0
    &&& forall|g: int| 0 <= g < ix.len() ==> sorted_le(#[trigger] ix[g].1)
    &&& forall|g: int, f: int|
        0 <= g < ix.len() && 0 <= f < ix[g].1.len() ==> year_of_spec(#[trigger] ix[g].1[f])
            == Some(ix[g].0)
}

/// The files of the first `gi` groups, flattened in order.
pub open spec fn flat_upto(ix: IndexModel, gi: int) -> Seq<Seq<char>>
    decreases gi,
{
    if gi <= 0 {
        Seq::empty()
    } else {
        flat_upto(ix, gi - 1) + ix[gi - 1].1
    }
}

/// All files of the index, flattened in group order.
pub open spec fn flat_rels(ix: IndexModel) -> Seq<Seq<char>> {
    flat_upto(ix, ix.len() as int)
}

/// Does the index hold this relative path?
pub open spec fn idx_contains(ix: IndexModel, rel: Seq<char>) -> bool {
    exists|g: int, f: int| 0 <= g < ix.len() && 0 <= f < ix[g].1.len() && ix[g].1[f] == rel
}

/// What `remove_rel` does: drop every copy of the path from its year's
/// group, and drop the group when it empties.
pub open spec fn remove_rel_model(ix: IndexModel, rel: Seq<char>) -> IndexModel {
    match year_of_spec(rel) {
        None => ix,
        Some(y) => {
            let g = key_idx(ix, y);
            if g == -1 {
                ix
            } else {
                let fs = ix[g].1.filter(keep_other_tags(rel));
                if fs.len() == 0 {
                    ix.remove(g)
                } else {
                    ix.update(g, (y, fs))
                }
            }
        },
    }
}

/// The in-memory photo index.
#[derive(Debug)]
pub struct PhotoIndex {
    years: Vec<(String, Vec<String>)>,
}

impl View for PhotoIndex {
    type V = IndexModel;

    closed spec fn view(&self) -> IndexModel {
        self.years@.map_values(|g: (String, Vec<String>)| (g.0@, views_of(g.1@)))
    }
}

impl PhotoIndex {
    /// The empty index.
    pub fn new() -> (r: Self)
        ensures
            r@.len() == 0,
            idx_wf(r@),
    {
        PhotoIndex { years: Vec::new() }
    }

    /// How many years the index holds.
    pub fn year_count(&self) -> (r: usize)
        ensures
            r == self@.len(),
    {
        self.years.len()
    }

    /// Index of the group for year `y`, when one exists.
    fn find_year(&self, y: &str) -> (r: Option<usize>)
        ensures
            match r {
                Some(g) => g < self@.len() && g as int == key_idx(self@, y@) && self@[g as int].0
                    == y@,
                None => key_idx(self@, y@) == -1,
            },
    {
        proof {
            lemma_key_idx(self@, y@);
        }
        let mut g: usize = 0;
        while g < self.years.len()
            invariant
                g <= self@.len(),
                self@.len() == self.years@.len(),
                forall|j: int| 0 <= j < g ==> self@[j].0 != y@,
                forall|j: int|
                    0 <= j < self@.len() ==> self@[j] == (
                        self.years@[j].0@,
                        views_of(self.years@[j].1@),
                    ),
            decreases self@.len() - g,
        {
            if str_eq(self.years[g].0.as_str(), y) {
                proof {
                    assert(self@[g as int].0 == y@);
                    lemma_key_idx(self@, y@);
                }
                return Some(g);
            }
            g = g + 1;
        }
        proof {
            lemma_key_idx(self@, y@);
        }
        None
    }

    /// The first group position whose year is not below `y`.
    fn year_lower_bound(&self, y: &str) -> (p: usize)
        ensures
            p <= self@.len(),
            forall|j: int| 0 <= j < p ==> lex_le(#[trigger] self@[j].0, y@),
            p < self@.len() ==> !lex_le(self@[p as int].0, y@),
    {
        let mut p: usize = 0;
        while p < self.years.len()
            invariant
                p <= self@.len(),
                self@.len() == self.years@.len(),
                forall|j: int|
                    0 <= j < self@.len() ==> self@[j] == (
                        self.years@[j].0@,
                        views_of(self.years@[j].1@),
                    ),
                forall|j: int| 0 <= j < p ==> lex_le(#[trigger] self@[j].0, y@),
            decreases self@.len() - p,
        {
            if !crate::strutil::str_le(&self.years[p].0, y) {
                return p;
            }
            p = p + 1;
        }
        p
    }

    /// The files of year `y`, in ascending order; empty for an absent year.
    pub fn year_files(&self, y: &str) -> (r: Vec<String>)
        ensures
            views_of(r@) == if key_idx(self@, y@) >= 0 {
                self@[key_idx(self@, y@)].1
            } else {
                Seq::<Seq<char>>::empty()
            },
    {
        match self.find_year(y) {
            Some(g) => clone_strings(&self.years[g].1),
            None => {
                let r: Vec<String> = Vec::new();
                proof {
                    assert(views_of(r@) =~= Seq::<Seq<char>>::empty());
                }
                r
            },
        }
    }

    /// Every file of the index, year groups in order.
    pub fn all_rels(&self) -> (r: Vec<String>)
        ensures
            views_of(r@) == flat_rels(self@),
    {
        let mut r: Vec<String> = Vec::new();
        let mut g: usize = 0;
        while g < self.years.len()
            invariant
                g <= self@.len(),
                self@.len() == self.years@.len(),
                forall|j: int|
                    0 <= j < self@.len() ==> self@[j] == (
                        self.years@[j].0@,
                        views_of(self.years@[j].1@),
                    ),
                views_of(r@) == flat_upto(self@, g as int),
            decreases self@.len() - g,
        {
            let files = &self.years[g].1;
            let mut f: usize = 0;
            while f < files.len()
                invariant
                    f <= files@.len(),
                    views_of(files@) == self@[g as int].1,
                    g < self@.len(),
                    views_of(r@) == flat_upto(self@, g as int) + views_of(files@).subrange(
                        0,
                        f as int,
                    ),
                decreases files@.len() - f,
            {
                let ghost old_r = r@;
                let c = files[f].clone();
                proof {
                    assert(c@ == files@[f as int]@);
                }
                r.push(c);
                proof {
                    assert(views_of(r@) =~= views_of(old_r).push(files@[f as int]@));
                    assert(views_of(files@).subrange(0, f as int + 1) =~= views_of(
                        files@,
                    ).subrange(0, f as int).push(files@[f as int]@));
                    assert(views_of(r@) =~= flat_upto(self@, g as int) + views_of(
                        files@,
                    ).subrange(0, f as int + 1));
                }
                f = f + 1;
            }
            g = g + 1;
            proof {
                assert(views_of(files@).subrange(0, files@.len() as int) =~= views_of(files@));
                assert(views_of(r@) =~= flat_upto(self@, g as int));
            }
        }
        r
    }

    /// Insert a relative path under its year, keeping the year's list in
    /// ascending order; a path without a four-digit year changes nothing.
    pub fn insert_rel(&mut self, rel: String)
        requires
            idx_wf(old(self)@),
        ensures
            idx_wf(final(self)@),
            match year_of_spec(rel@) {
                None => final(self)@ == old(self)@,
                Some(y) => {
                    let g = key_idx(old(self)@, y);
                    if g >= 0 {
                        final(self)@.len() == old(self)@.len() && final(self)@[g].0 == y && final(self)@[g].1.to_multiset() == old(self)@[g].1.to_multiset().insert(rel@)
                            && sorted_le(final(self)@[g].1) && forall|j: int|
                            0 <= j < old(self)@.len() && j != g ==> final(self)@[j] == old(self)@[j]
                    } else {
                        exists|p: int|
                            0 <= p <= old(self)@.len() && final(self)@ == old(self)@.insert(
                                p,
                                (y, seq![rel@]),
                            )
                    }
                },
            },
    {
        let ghost oldm = self@;
        let y_opt = year_of(rel.as_str());
        let y: String = match y_opt {
            None => {
                proof {
                    assert(self@ =~= oldm);
                }
                return ;
            },
            Some(ys) => ys.to_owned(),
        };
        let ghost yv = y@;
        match self.find_year(y.as_str()) {
            Some(g) => {
                let ghost gg = g as int;
                let key = self.years[g].0.clone();
                let mut files = clone_strings(&self.years[g].1);
                proof {
                    assert(views_of(files@) == oldm[gg].1);
                    assert(sorted_le(views_of(files@)));
                }
                insert_string_sorted(&mut files, rel);
                self.years[g] = (key, files);
                proof {
                    assert forall|a: int, b: int|
                        0 <= a < b < self@.len() implies lex_le(
                        #[trigger] self@[a].0,
                        #[trigger] self@[b].0,
                    ) && self@[a].0 != self@[b].0 by {
                        assert(self@[a].0 == oldm[a].0);
                        assert(self@[b].0 == oldm[b].0);
                    }
                    assert forall|a: int| 0 <= a < self@.len() implies (#[trigger] self@[a].1).len()
                        > 0 by {
                        if a != gg {
                            assert(self@[a].1 == oldm[a].1);
                        } else {
                            assert(self@[a].1.len() == oldm[gg].1.len() + 1);
                        }
                    }
                    assert forall|a: int| 0 <= a < self@.len() implies sorted_le(
                        #[trigger] self@[a].1,
                    ) by {
                        if a != gg {
                            assert(self@[a].1 == oldm[a].1);
                        }
                    }
                    assert forall|a: int, f: int|
                        0 <= a < self@.len() && 0 <= f < self@[a].1.len() implies year_of_spec(
                        #[trigger] self@[a].1[f],
                    ) == Some(self@[a].0) by {
                        if a != gg {
                            assert(self@[a].1 == oldm[a].1);
                        } else {
                            broadcast use vstd::seq_lib::group_to_multiset_ensures;

                            assert(self@[gg].1.to_multiset().contains(self@[gg].1[f]));
                            if self@[gg].1[f] == rel@ {
                                assert(year_of_spec(rel@) == Some(yv));
                            } else {
                                assert(oldm[gg].1.to_multiset().contains(self@[gg].1[f]));
                                assert(oldm[gg].1.contains(self@[gg].1[f]));
                                let w = choose|w: int|
                                    0 <= w < oldm[gg].1.len() && oldm[gg].1[w] == self@[gg].1[f];
                                assert(year_of_spec(oldm[gg].1[w]) == Some(oldm[gg].0));
                            }
                        }
                    }
                    assert(self@[gg].0 == yv);
                    assert(self@[gg].1.to_multiset() == oldm[gg].1.to_multiset().insert(rel@));
                }
            },
            None => {
                let mut files: Vec<String> = Vec::new();
                files.push(rel);
                let p = self.year_lower_bound(y.as_str());
                proof {
                    if (p as int) < self@.len() {
                        assert(!lex_le(self@[p as int].0, yv));
                        lemma_lex_le_total(self@[p as int].0, yv);
                    }
                }
                self.years.insert(p, (y, files));
                proof {
                    lemma_key_idx(oldm, yv);
                    assert(views_of(seq![rel]) =~= seq![rel@]);
                    assert(self@ =~= oldm.insert(p as int, (yv, seq![rel@])));
                    let newm = self@;
                    assert forall|a: int, b: int|
                        0 <= a < b < newm.len() implies lex_le(
                        #[trigger] newm[a].0,
                        #[trigger] newm[b].0,
                    ) && newm[a].0 != newm[b].0 by {
                        let pa = if a < p {
                            a
                        } else {
                            a - 1
                        };
                        let pb = if b < p {
                            b
                        } else {
                            b - 1
                        };
                        if a == p {
                            assert(newm[b] == oldm[pb]);
                            assert(pb >= p);
                            assert(!lex_le(oldm[p as int].0, yv));
                            lemma_lex_le_total(oldm[p as int].0, yv);
                            assert(lex_le(yv, oldm[p as int].0));
                            if pb == p {
                            } else {
                                assert(lex_le(oldm[p as int].0, oldm[pb].0));
                                lemma_lex_le_transitive(yv, oldm[p as int].0, oldm[pb].0);
                            }
                            assert(lex_le(yv, oldm[pb].0));
                            assert(oldm[pb].0 != yv);
                        } else if b == p {
                            assert(newm[a] == oldm[pa]);
                            assert(lex_le(oldm[pa].0, yv));
                            assert(oldm[pa].0 != yv);
                        } else {
                            assert(newm[a] == oldm[pa]);
                            assert(newm[b] == oldm[pb]);
                        }
                    }
                    assert forall|a: int| 0 <= a < newm.len() implies (#[trigger] newm[a].1).len()
                        > 0 by {
                        if a != p {
                            let pa = if a < p {
                                a
                            } else {
                                a - 1
                            };
                            assert(newm[a] == oldm[pa]);
                        }
                    }
                    assert forall|a: int| 0 <= a < newm.len() implies sorted_le(
                        #[trigger] newm[a].1,
                    ) by {
                        if a != p {
                            let pa = if a < p {
                                a
                            } else {
                                a - 1
                            };
                            assert(newm[a] == oldm[pa]);
                        }
                    }
                    assert forall|a: int, f: int|
                        0 <= a < newm.len() && 0 <= f < newm[a].1.len() implies year_of_spec(
                        #[trigger] newm[a].1[f],
                    ) == Some(newm[a].0) by {
                        if a != p {
                            let pa = if a < p {
                                a
                            } else {
                                a - 1
                            };
                            assert(newm[a] == oldm[pa]);
                        } else {
                            assert(newm[p as int].1 =~= seq![rel@]);
                        }
                    }
                }
            },
        }
    }

    /// Drop a relative path from the index; its year's group goes away when
    /// it empties. A path without a four-digit year changes nothing.
    pub fn remove_rel(&mut self, rel: &str)
        requires
            idx_wf(old(self)@),
        ensures
            idx_wf(final(self)@),
            final(self)@ == remove_rel_model(old(self)@, rel@),
    {
        let ghost oldm = self@;
        let y: String = match year_of(rel) {
            None => {
                proof {
                    assert(self@ =~= remove_rel_model(oldm, rel@));
                }
                return ;
            },
            Some(ys) => ys.to_owned(),
        };
        match self.find_year(y.as_str()) {
            None => {
                proof {
                    assert(self@ =~= remove_rel_model(oldm, rel@));
                }
            },
            Some(g) => {
                let ghost gg = g as int;
                let ghost pred = keep_other_tags(rel@);
                let files = &self.years[g].1;
                let mut kept: Vec<String> = Vec::new();
                let mut f: usize = 0;
                while f < files.len()
                    invariant
                        f <= files@.len(),
                        pred == keep_other_tags(rel@),
                        views_of(kept@) == views_of(files@).subrange(0, f as int).filter(pred),
                    decreases files@.len() - f,
                {
                    proof {
                        lemma_filter_push(
                            views_of(files@).subrange(0, f as int),
                            files@[f as int]@,
                            pred,
                        );
                        assert(views_of(files@).subrange(0, f as int + 1) =~= views_of(
                            files@,
                        ).subrange(0, f as int).push(files@[f as int]@));
                    }
                    if !str_eq(files[f].as_str(), rel) {
                        kept.push(files[f].clone());
                        proof {
                            assert(views_of(kept@) =~= views_of(files@).subrange(
                                0,
                                f as int + 1,
                            ).filter(pred));
                        }
                    } else {
                        proof {
                            assert(views_of(kept@) =~= views_of(files@).subrange(
                                0,
                                f as int + 1,
                            ).filter(pred));
                        }
                    }
                    f = f + 1;
                }
                proof {
                    assert(views_of(files@).subrange(0, files@.len() as int) =~= views_of(files@));
                }
                if kept.is_empty() {
                    self.years.remove(g);
                    proof {
                        assert(self@ =~= oldm.remove(gg));
                        assert(self@ =~= remove_rel_model(oldm, rel@));
                        lemma_idx_wf_remove(oldm, gg);
                    }
                } else {
                    let key = self.years[g].0.clone();
                    self.years[g] = (key, kept);
                    proof {
                        assert(self@ =~= remove_rel_model(oldm, rel@));
                        let newm = self@;
                        lemma_filter_sorted(oldm[gg].1, pred);
                        assert forall|a: int, b: int|
                            0 <= a < b < newm.len() implies lex_le(
                            #[trigger] newm[a].0,
                            #[trigger] newm[b].0,
                        ) && newm[a].0 != newm[b].0 by {
                            assert(newm[a].0 == oldm[a].0);
                            assert(newm[b].0 == oldm[b].0);
                        }
                        assert forall|a: int|
                            0 <= a < newm.len() implies (#[trigger] newm[a].1).len() > 0 by {
                            if a != gg {
                                assert(newm[a].1 == oldm[a].1);
                            }
                        }
                        assert forall|a: int| 0 <= a < newm.len() implies sorted_le(
                            #[trigger] newm[a].1,
                        ) by {
                            if a != gg {
                                assert(newm[a].1 == oldm[a].1);
                            }
                        }
                        assert forall|a: int, f2: int|
                            0 <= a < newm.len() && 0 <= f2 < newm[a].1.len() implies year_of_spec(
                            #[trigger] newm[a].1[f2],
                        ) == Some(newm[a].0) by {
                            if a != gg {
                                assert(newm[a].1 == oldm[a].1);
                            } else {
                                let fs = oldm[gg].1.filter(pred);
                                assert(fs.contains(fs[f2]));
                                lemma_filter_member(oldm[gg].1, pred, fs[f2]);
                                let w = choose|w: int|
                                    0 <= w < oldm[gg].1.len() && oldm[gg].1[w] == fs[f2];
                                assert(year_of_spec(oldm[gg].1[w]) == Some(oldm[gg].0));
                            }
                        }
                    }
                }
            },
        }
    }
}

/// Filtering keeps an ascending sequence ascending.
proof fn lemma_filter_sorted(s: Seq<Seq<char>>, pred: spec_fn(Seq<char>) -> bool)
    requires
        sorted_le(s),
    ensures
        sorted_le(s.filter(pred)),
    decreases s.len(),
{
    if s.len() > 0 {
        let prefix = s.drop_last();
        assert(sorted_le(prefix));
        lemma_filter_sorted(prefix, pred);
        assert(s =~= prefix.push(s.last()));
        lemma_filter_push(prefix, s.last(), pred);
        let fp = prefix.filter(pred);
        if pred(s.last()) {
            assert forall|a: int, b: int|
                0 <= a < b < s.filter(pred).len() implies lex_le(
                s.filter(pred)[a],
                s.filter(pred)[b],
            ) by {
                if b == s.filter(pred).len() - 1 {
                    assert(fp.contains(fp[a]));
                    lemma_filter_member(prefix, pred, fp[a]);
                    let w = choose|w: int| 0 <= w < prefix.len() && prefix[w] == fp[a];
                    assert(lex_le(prefix[w], s.last()));
                }
            }
        }
    } else {
        reveal(Seq::filter);
    }
}

/// Removing a group keeps an index well formed.
proof fn lemma_idx_wf_remove(ix: IndexModel, g: int)
    requires
        idx_wf(ix),
        0 <= g < ix.len(),
    ensures
        idx_wf(ix.remove(g)),
{
    let r = ix.remove(g);
    assert forall|a: int| 0 <= a < r.len() implies r[a] == if a < g {
        ix[a]
    } else {
        ix[a + 1]
    } by {}
    assert forall|a: int, b: int|
        0 <= a < b < r.len() implies lex_le(#[trigger] r[a].0, #[trigger] r[b].0) && r[a].0
        != r[b].0 by {
        let pa = if a < g {
            a
        } else {
            a + 1
        };
        let pb = if b < g {
            b
        } else {
            b + 1
        };
        assert(r[a] == ix[pa]);
        assert(r[b] == ix[pb]);
    }
    assert forall|a: int| 0 <= a < r.len() implies (#[trigger] r[a].1).len() > 0 by {
        let pa = if a < g {
            a
        } else {
            a + 1
        };
        assert(r[a] == ix[pa]);
    }
    assert forall|a: int| 0 <= a < r.len() implies sorted_le(#[trigger] r[a].1) by {
        let pa = if a < g {
            a
        } else {
            a + 1
        };
        assert(r[a] == ix[pa]);
    }
    assert forall|a: int, f: int|
        0 <= a < r.len() && 0 <= f < r[a].1.len() implies year_of_spec(#[trigger] r[a].1[f])
        == Some(r[a].0) by {
        let pa = if a < g {
            a
        } else {
            a + 1
        };
        assert(r[a] == ix[pa]);
    }
}


/// The paths the index keeps: photographs whose first component is a
/// four-digit year.
pub open spec fn keep_photo() -> spec_fn(Seq<char>) -> bool {
    |f: Seq<char>| crate::pathutil::is_photo_spec(f) && year_of_spec(f) is Some
}

/// How growing one group by one element moves the flattened length.
proof fn lemma_flat_upto_grown(a: IndexModel, b: IndexModel, g: int, gi: int)
    requires
        a.len() == b.len(),
        0 <= g < a.len(),
        forall|k: int| 0 <= k < a.len() && k != g ==> b[k] == a[k],
        b[g].1.len() == a[g].1.len() + 1,
        0 <= gi <= a.len(),
    ensures
        flat_upto(b, gi).len() as int == flat_upto(a, gi).len() as int + if g < gi {
            1int
        } else {
            0int
        },
    decreases gi,
{
    if gi > 0 {
        lemma_flat_upto_grown(a, b, g, gi - 1);
    }
}

/// How inserting one group moves the flattened length.
proof fn lemma_flat_upto_insert(
    ix: IndexModel,
    p: int,
    e: (Seq<char>, Seq<Seq<char>>),
    gi: int,
)
    requires
        0 <= p <= ix.len(),
        0 <= gi <= ix.len() + 1,
    ensures
        flat_upto(ix.insert(p, e), gi).len() as int == if gi <= p {
            flat_upto(ix, gi).len() as int
        } else {
            flat_upto(ix, gi - 1).len() as int + e.1.len() as int
        },
    decreases gi,
{
    if gi > 0 {
        lemma_flat_upto_insert(ix, p, e, gi - 1);
        assert(ix.insert(p, e)[gi - 1] == if gi - 1 < p {
            ix[gi - 1]
        } else if gi - 1 == p {
            e
        } else {
            ix[gi - 2]
        });
    }
}

/// Build the index from walked file paths: keep the photographs whose first
/// path component is a four-digit year, grouped by that year, each year's
/// list ascending.
pub fn build_index(rels: &Vec<String>) -> (r: PhotoIndex)
    ensures
        idx_wf(r@),
        forall|j: int|
            0 <= j < rels@.len() && crate::pathutil::is_photo_spec(rels@[j]@) && year_of_spec(
                rels@[j]@,
            ) is Some ==> idx_contains(r@, rels@[j]@),
        forall|g: int, f: int|
            0 <= g < r@.len() && 0 <= f < r@[g].1.len() ==> views_of(rels@).contains(
                #[trigger] r@[g].1[f],
            ) && crate::pathutil::is_photo_spec(r@[g].1[f]),
        flat_rels(r@).len() == views_of(rels@).filter(keep_photo()).len(),
{
    let ghost pred = keep_photo();
    let mut r = PhotoIndex::new();
    let mut i: usize = 0;
    while i < rels.len()
        invariant
            i <= rels@.len(),
            idx_wf(r@),
            pred == keep_photo(),
            forall|j: int|
                0 <= j < i && crate::pathutil::is_photo_spec(rels@[j]@) && year_of_spec(
                    rels@[j]@,
                ) is Some ==> idx_contains(r@, rels@[j]@),
            forall|g: int, f: int|
                0 <= g < r@.len() && 0 <= f < r@[g].1.len() ==> views_of(rels@).contains(
                    #[trigger] r@[g].1[f],
                ) && crate::pathutil::is_photo_spec(r@[g].1[f]),
            flat_rels(r@).len() == views_of(rels@).subrange(0, i as int).filter(pred).len(),
        decreases rels@.len() - i,
    {
        proof {
            lemma_filter_push(views_of(rels@).subrange(0, i as int), rels@[i as int]@, pred);
            assert(views_of(rels@).subrange(0, i as int + 1) =~= views_of(rels@).subrange(
                0,
                i as int,
            ).push(rels@[i as int]@));
        }
        let rel = &rels[i];
        if crate::pathutil::is_photo(rel.as_str()) {
            let ghost before = r@;
            r.insert_rel(rel.clone());
            proof {
                broadcast use vstd::seq_lib::group_to_multiset_ensures;

                lemma_insert_keeps_members(before, r@, rel@);
                assert(views_of(rels@)[i as int] == rels@[i as int]@);
                assert forall|g: int, f: int|
                    0 <= g < r@.len() && 0 <= f < r@[g].1.len() implies views_of(rels@).contains(
                    #[trigger] r@[g].1[f],
                ) && crate::pathutil::is_photo_spec(r@[g].1[f]) by {
                    if idx_contains(before, r@[g].1[f]) {
                        let (bg, bf) = choose|bg: int, bf: int|
                            0 <= bg < before.len() && 0 <= bf < before[bg].1.len()
                                && before[bg].1[bf] == r@[g].1[f];
                    } else {
                        assert(r@[g].1[f] == rel@);
                    }
                }
                match year_of_spec(rel@) {
                    None => {
                        assert(!pred(rel@));
                        assert(flat_rels(r@).len() == flat_rels(before).len());
                    },
                    Some(y) => {
                        assert(pred(rel@));
                        let g = key_idx(before, y);
                        lemma_key_idx(before, y);
                        if g >= 0 {
                            broadcast use vstd::multiset::group_multiset_axioms;

                            assert(r@[g].1.to_multiset().len() == before[g].1.to_multiset().len()
                                + 1);
                            assert(r@[g].1.len() == before[g].1.len() + 1);
                            lemma_flat_upto_grown(before, r@, g, before.len() as int);
                            assert(flat_rels(r@).len() == flat_rels(before).len() + 1);
                        } else {
                            let p = choose|p: int|
                                0 <= p <= before.len() && r@ == before.insert(
                                    p,
                                    (y, seq![rel@]),
                                );
                            lemma_flat_upto_insert(
                                before,
                                p,
                                (y, seq![rel@]),
                                before.len() as int + 1,
                            );
                            assert(flat_rels(r@).len() == flat_rels(before).len() + 1);
                        }
                    },
                }
            }
        } else {
            proof {
                assert(!pred(rels@[i as int]@));
            }
        }
        i = i + 1;
    }
    proof {
        assert(views_of(rels@).subrange(0, rels@.len() as int) =~= views_of(rels@));
    }
    r
}

/// After an insertion, every old member is still there, the new path is
/// there when it has a year, and every member is old or the new path.
proof fn lemma_insert_keeps_members(before: IndexModel, after: IndexModel, rel: Seq<char>)
    requires
        idx_wf(before),
        match year_of_spec(rel) {
            None => after == before,
            Some(y) => {
                let g = key_idx(before, y);
                if g >= 0 {
                    after.len() == before.len() && after[g].0 == y && after[g].1.to_multiset()
                        == before[g].1.to_multiset().insert(rel) && sorted_le(after[g].1) && forall|
                        j: int,
                    |
                        0 <= j < before.len() && j != g ==> after[j] == before[j]
                } else {
                    exists|p: int|
                        0 <= p <= before.len() && after == before.insert(p, (y, seq![rel]))
                }
            },
        },
    ensures
        forall|x: Seq<char>| idx_contains(before, x) ==> idx_contains(after, x),
        year_of_spec(rel) is Some ==> idx_contains(after, rel),
        forall|x: Seq<char>| idx_contains(after, x) ==> idx_contains(before, x) || x == rel,
{
    broadcast use vstd::seq_lib::group_to_multiset_ensures;

    match year_of_spec(rel) {
        None => {},
        Some(y) => {
            let g = key_idx(before, y);
            lemma_key_idx(before, y);
            if g >= 0 {
                assert forall|x: Seq<char>| idx_contains(before, x) implies idx_contains(
                    after,
                    x,
                ) by {
                    let (bg, bf) = choose|bg: int, bf: int|
                        0 <= bg < before.len() && 0 <= bf < before[bg].1.len() && before[bg].1[bf]
                            == x;
                    if bg != g {
                        assert(after[bg].1[bf] == x);
                    } else {
                        assert(before[g].1.to_multiset().contains(x));
                        assert(after[g].1.to_multiset().contains(x));
                        assert(after[g].1.contains(x));
                        let w = choose|w: int| 0 <= w < after[g].1.len() && after[g].1[w] == x;
                    }
                }
                assert(after[g].1.to_multiset().contains(rel));
                assert(after[g].1.contains(rel));
                let w = choose|w: int| 0 <= w < after[g].1.len() && after[g].1[w] == rel;
                assert(idx_contains(after, rel)) by {
                    assert(0 <= g < after.len() && 0 <= w < after[g].1.len() && after[g].1[w]
                        == rel);
                }
                assert forall|x: Seq<char>| idx_contains(after, x) implies idx_contains(before, x)
                    || x == rel by {
                    let (ag, af) = choose|ag: int, af: int|
                        0 <= ag < after.len() && 0 <= af < after[ag].1.len() && after[ag].1[af]
                            == x;
                    if ag != g {
                        assert(before[ag].1[af] == x);
                    } else if x != rel {
                        assert(after[g].1.to_multiset().contains(x));
                        assert(before[g].1.to_multiset().contains(x));
                        assert(before[g].1.contains(x));
                        let w2 = choose|w2: int|
                            0 <= w2 < before[g].1.len() && before[g].1[w2] == x;
                    }
                }
            } else {
                let p = choose|p: int|
                    0 <= p <= before.len() && after == before.insert(p, (y, seq![rel]));
                assert forall|x: Seq<char>| idx_contains(before, x) implies idx_contains(
                    after,
                    x,
                ) by {
                    let (bg, bf) = choose|bg: int, bf: int|
                        0 <= bg < before.len() && 0 <= bf < before[bg].1.len() && before[bg].1[bf]
                            == x;
                    let ag = if bg < p {
                        bg
                    } else {
                        bg + 1
                    };
                    assert(after[ag] == before[bg]);
                    assert(after[ag].1[bf] == x);
                }
                assert(after[p].1[0] == rel);
                assert forall|x: Seq<char>| idx_contains(after, x) implies idx_contains(before, x)
                    || x == rel by {
                    let (ag, af) = choose|ag: int, af: int|
                        0 <= ag < after.len() && 0 <= af < after[ag].1.len() && after[ag].1[af]
                            == x;
                    if ag == p {
                        assert(x == rel);
                    } else {
                        let bg = if ag < p {
                            ag
                        } else {
                            ag - 1
                        };
                        assert(after[ag] == before[bg]);
                        assert(before[bg].1[af] == x);
                    }
                }
            }
        },
    }
}


// ---------------------------------------------------------------------------
// Gallery HTML rendering
// ---------------------------------------------------------------------------

/// The document up to the tag filter bar.
pub open spec fn tpl_head() -> Seq<char> {
    r#"<!DOCTYPE html>
<html lang="fr">
<head>
<meta charset="utf-8">
<meta name="viewport" content="width=device-width,initial-scale=1">
<title>photo-sort gallery</title>
<style>
*{margin:0;padding:0;box-sizing:border-box}
body{background:#0a0a0a;color:#e0e0e0;font-family:-apple-system,BlinkMacSystemFont,"Segoe UI",Roboto,sans-serif;overflow-x:hidden}
header{position:sticky;top:0;z-index:100;background:rgba(10,10,10,.95);backdrop-filter:blur(12px);padding:1rem 2rem;display:flex;justify-content:space-between;align-items:center;border-bottom:1px solid #222}
header h1{font-size:1.2rem;font-weight:600;color:#4fc3f7}
.controls{display:flex;gap:.5rem;align-items:center}
.controls button,.controls .badge{background:#1a1a1a;color:#ccc;border:1px solid #333;padding:.4rem .8rem;border-radius:6px;cursor:pointer;font-size:.85rem;transition:all .2s}
.controls button:hover,.controls button.active{background:#4fc3f7;color:#000;border-color:#4fc3f7}
.controls button.save-btn{background:#1a3a1a;color:#6f6;border-color:#363}
.controls button.save-btn:hover{background:#2a5a2a}
.controls button.save-btn.has-changes{animation:pulse 2s infinite}
@keyframes pulse{0%,100%{opacity:1}50%{opacity:.6}}
.controls button.export-btn{background:#3a1a1a;color:#f96;border-color:#633}
.controls button.export-btn:hover{background:#5a2a2a}
.filter-bar{padding:.8rem 2rem;background:#111;border-bottom:1px solid #1a1a1a;display:flex;gap:1.5rem;align-items:center;flex-wrap:wrap}
.filter-group{display:flex;gap:.5rem;align-items:center}
.filter-label{font-size:.75rem;text-transform:uppercase;color:#666;letter-spacing:.05em}
.filter-tags{display:flex;gap:.3rem;flex-wrap:wrap}
.tag-btn{background:#1a1a1a;color:#aaa;border:1px solid #2a2a2a;padding:.25rem .6rem;border-radius:12px;cursor:pointer;font-size:.8rem;transition:all .2s}
.tag-btn:hover,.tag-btn.active{background:#4fc3f7;color:#000;border-color:#4fc3f7}
.rating-filter{display:flex;gap:.2rem;align-items:center}
.rating-filter button{background:none;border:none;font-size:1.2rem;cursor:pointer;color:#444;transition:color .2s}
.rating-filter button.active,.rating-filter button:hover{color:#ffd700}
main{padding:1rem 2rem 4rem}
.year-header{margin:2rem 0 1rem;font-size:1.5rem;font-weight:300;color:#4fc3f7}
.year-header .count{font-size:.9rem;color:#555}
.grid{display:grid;grid-template-columns:repeat(auto-fill,minmax(200px,1fr));gap:6px}
.thumb{position:relative;aspect-ratio:1;overflow:hidden;border-radius:4px;cursor:pointer;transition:transform .2s}
.thumb:hover{transform:scale(1.03);z-index:1}
.thumb img{width:100%;height:100%;object-fit:cover}
.thumb .info{position:absolute;bottom:0;left:0;right:0;padding:.3rem .5rem;background:linear-gradient(transparent,rgba(0,0,0,.8));font-size:.7rem;color:#ccc;opacity:0;transition:opacity .2s}
.thumb:hover .info{opacity:1}
.thumb.hidden{display:none}
.thumb .thumb-stars{position:absolute;top:.3rem;right:.3rem;color:#ffd700;font-size:.7rem;text-shadow:0 1px 3px rgba(0,0,0,.8)}

/* Lightbox */
.lightbox{display:none;position:fixed;inset:0;z-index:1000;background:rgba(0,0,0,.97);flex-direction:column;align-items:center;justify-content:center}
.lightbox.open{display:flex}
.lightbox img#lb-img{max-width:90vw;max-height:70vh;object-fit:contain;border-radius:4px;user-select:none}
.lb-top-bar{position:absolute;top:0;left:0;right:0;display:flex;justify-content:space-between;align-items:center;padding:.8rem 1.5rem;z-index:1002}
.lb-close{font-size:2rem;color:#888;cursor:pointer;transition:color .2s}
.lb-close:hover{color:#fff}
.lb-download{color:#888;cursor:pointer;font-size:.85rem;text-decoration:none;padding:.3rem .6rem;border:1px solid #444;border-radius:6px;transition:all .2s}
.lb-download:hover{color:#fff;border-color:#888}
.lb-nav{position:absolute;top:50%;transform:translateY(-50%);font-size:3rem;color:#555;cursor:pointer;user-select:none;padding:1rem;transition:color .2s;z-index:1001}
.lb-nav:hover{color:#fff}
.lb-prev{left:1rem}
.lb-next{right:1rem}
.lb-panel{margin-top:.8rem;text-align:center;color:#999;font-size:.9rem;max-width:600px;width:90vw}
.lb-panel .lb-name{color:#e0e0e0;font-weight:500;margin-bottom:.5rem}
.lb-stars{display:flex;justify-content:center;gap:.15rem;margin:.4rem 0}
.lb-stars span{font-size:1.6rem;cursor:pointer;color:#444;transition:color .15s}
.lb-stars span.filled{color:#ffd700}
.lb-stars span:hover,.lb-stars span.hover{color:#ffed80}
.lb-edit-tags{display:flex;flex-wrap:wrap;justify-content:center;gap:.3rem;margin:.4rem 0;align-items:center}
.lb-edit-tags .tag-badge{background:#1a2a3a;color:#4fc3f7;padding:.2rem .5rem;border-radius:10px;font-size:.8rem;display:inline-flex;align-items:center;gap:.3rem}
.lb-edit-tags .tag-badge .tag-remove{cursor:pointer;color:#f66;font-weight:bold;font-size:.9rem}
.lb-edit-tags .tag-badge .tag-remove:hover{color:#f00}
.lb-tag-form{display:inline-flex;gap:.3rem;align-items:center}
.lb-tag-form input{background:#1a1a1a;border:1px solid #333;color:#e0e0e0;padding:.2rem .5rem;border-radius:10px;font-size:.8rem;width:100px;outline:none}
.lb-tag-form input:focus{border-color:#4fc3f7}
.lb-tag-form button{background:#4fc3f7;color:#000;border:none;padding:.2rem .5rem;border-radius:10px;font-size:.8rem;cursor:pointer}
.tag-suggestions{display:flex;flex-wrap:wrap;justify-content:center;gap:.25rem;margin:.3rem 0}
.tag-suggestions .tag-sug{background:#1a1a1a;color:#888;border:1px dashed #333;padding:.15rem .5rem;border-radius:10px;font-size:.75rem;cursor:pointer;transition:all .2s}
.tag-suggestions .tag-sug:hover{color:#4fc3f7;border-color:#4fc3f7}
.lb-slideshow-bar{position:absolute;bottom:0;left:0;height:3px;background:#4fc3f7;transition:width linear}

/* Slideshow controls */
.slideshow-controls{position:absolute;bottom:1.5rem;display:flex;gap:.5rem;z-index:1002}
.slideshow-controls button{background:rgba(255,255,255,.1);color:#ccc;border:1px solid #444;padding:.4rem .8rem;border-radius:6px;cursor:pointer;font-size:.85rem;transition:all .2s}
.slideshow-controls button:hover,.slideshow-controls button.active{background:#4fc3f7;color:#000;border-color:#4fc3f7}

/* Toast */
.toast{position:fixed;bottom:2rem;left:50%;transform:translateX(-50%);background:#2a2a2a;color:#fff;padding:.6rem 1.2rem;border-radius:8px;font-size:.85rem;z-index:2000;opacity:0;transition:opacity .3s;pointer-events:none}
.toast.show{opacity:1}

@media(max-width:600px){
  .grid{grid-template-columns:repeat(auto-fill,minmax(120px,1fr));gap:3px}
  header{padding:.8rem 1rem}
  main{padding:.5rem 1rem}
}
</style>
</head>
<body>
<header>
  <h1>photo-sort gallery</h1>
  <div class="controls">
    <button id="btn-slideshow">Diaporama</button>
    <button id="btn-random">Aléatoire</button>
    <button id="btn-export" class="export-btn">Exporter filtré</button>
    <button id="btn-save" class="save-btn">Sauvegarder</button>
  </div>
</header>
<div class="filter-bar">
  "#@
}

/// The document between the tag filter bar and the year grids.
pub open spec fn tpl_mid1() -> Seq<char> {
    r#"
  <div class="filter-group">
    <span class="filter-label">Note min</span>
    <div class="rating-filter" id="rating-filter">
      <button data-rating="0" class="active">&#x2715;</button>
      <button data-rating="1">&#9733;</button>
      <button data-rating="2">&#9733;</button>
      <button data-rating="3">&#9733;</button>
      <button data-rating="4">&#9733;</button>
      <button data-rating="5">&#9733;</button>
    </div>
  </div>
</div>
<main>
"#@
}

/// The document between the year grids and the photos array.
pub open spec fn tpl_mid2() -> Seq<char> {
    r#"
</main>

<div class="lightbox" id="lightbox">
  <div class="lb-top-bar">
    <a class="lb-download" id="lb-download" download>Télécharger</a>
    <span class="lb-close" id="lb-close">&times;</span>
  </div>
  <span class="lb-nav lb-prev" id="lb-prev">&#8249;</span>
  <span class="lb-nav lb-next" id="lb-next">&#8250;</span>
  <img id="lb-img" src="" alt="">
  <div class="lb-panel">
    <div class="lb-name" id="lb-name"></div>
    <div class="lb-stars" id="lb-stars">
      <span data-star="1">&#9733;</span>
      <span data-star="2">&#9733;</span>
      <span data-star="3">&#9733;</span>
      <span data-star="4">&#9733;</span>
      <span data-star="5">&#9733;</span>
    </div>
    <div class="lb-edit-tags" id="lb-edit-tags"></div>
    <div class="tag-suggestions" id="tag-suggestions"></div>
  </div>
  <div class="lb-slideshow-bar" id="lb-bar" style="width:0%"></div>
  <div class="slideshow-controls">
    <button id="ss-prev">&#9664; Préc</button>
    <button id="ss-playpause">Pause</button>
    <button id="ss-next">Suiv &#9654;</button>
    <button id="ss-random-toggle">Aléatoire</button>
    <button id="ss-speed-down">-</button>
    <span id="ss-speed" style="color:#ccc;font-size:.85rem">5s</span>
    <button id="ss-speed-up">+</button>
  </div>
</div>

<div class="toast" id="toast"></div>

<script>
const ALL_PHOTOS="#@
}

/// The document after the photos array.
pub open spec fn tpl_tail() -> Seq<char> {
    r#";
let filtered=ALL_PHOTOS.slice();
let currentIdx=0;
let slideshowInterval=null;
let slideshowDelay=5000;
let slideshowRandom=false;
let activeTag="";
let minRating=0;
let hasChanges=false;

function toast(msg){
  const t=document.getElementById('toast');
  t.textContent=msg;t.classList.add('show');
  setTimeout(()=>t.classList.remove('show'),2000);
}

function markDirty(){
  hasChanges=true;
  document.getElementById('btn-save').classList.add('has-changes');
}

function refreshFilterBar(){
  const allTags=new Set();
  ALL_PHOTOS.forEach(p=>p.tags.forEach(t=>allTags.add(t)));
  const container=document.getElementById('filter-tags-container');
  if(!container)return;
  container.innerHTML='<button class="tag-btn'+(activeTag?'':' active')+'" data-tag="">Tous</button>';
  [...allTags].sort().forEach(tag=>{
    const btn=document.createElement('button');
    btn.className='tag-btn'+(activeTag===tag?' active':'');
    btn.dataset.tag=tag;btn.textContent=tag;
    container.appendChild(btn);
  });
  container.querySelectorAll('.tag-btn').forEach(btn=>{
    btn.addEventListener('click',()=>{
      container.querySelectorAll('.tag-btn').forEach(b=>b.classList.remove('active'));
      btn.classList.add('active');
      activeTag=btn.dataset.tag;
      applyFilters();
    });
  });
}

function applyFilters(){
  filtered=ALL_PHOTOS.filter(p=>{
    if(activeTag&&!p.tags.includes(activeTag))return false;
    if(minRating>0&&p.rating<minRating)return false;
    return true;
  });
  document.querySelectorAll('.thumb').forEach(el=>{
    const src=el.querySelector('img').getAttribute('src');
    const photo=ALL_PHOTOS.find(p=>p.src===src);
    const match=filtered.some(p=>p.src===src);
    el.classList.toggle('hidden',!match);
    // Update thumbnail stars
    const starsEl=el.querySelector('.thumb-stars');
    if(starsEl&&photo)starsEl.textContent=photo.rating?'★'.repeat(photo.rating):'';
  });
  document.querySelectorAll('.year-header').forEach(h=>{
    const year=h.dataset.year;
    const count=filtered.filter(p=>p.year===year).length;
    h.querySelector('.count').textContent=count;
    h.style.display=count?'':'none';
    const grid=document.querySelector(`.grid[data-year="${year}"]`);
    if(grid)grid.style.display=count?'':'none';
  });
}

// Tag filter
document.querySelectorAll('.tag-btn').forEach(btn=>{
  btn.addEventListener('click',()=>{
    document.querySelectorAll('.tag-btn').forEach(b=>b.classList.remove('active'));
    btn.classList.add('active');
    activeTag=btn.dataset.tag;
    applyFilters();
  });
});

// Rating filter
document.querySelectorAll('#rating-filter button').forEach(btn=>{
  btn.addEventListener('click',()=>{
    document.querySelectorAll('#rating-filter button').forEach(b=>b.classList.remove('active'));
    btn.classList.add('active');
    minRating=parseInt(btn.dataset.rating);
    applyFilters();
  });
});

// Lightbox
const lb=document.getElementById('lightbox');
const lbImg=document.getElementById('lb-img');
const lbName=document.getElementById('lb-name');
const lbBar=document.getElementById('lb-bar');

function renderLbStars(rating){
  document.querySelectorAll('#lb-stars span').forEach(s=>{
    s.classList.toggle('filled',parseInt(s.dataset.star)<=rating);
  });
}

function renderLbTags(photo){
  const container=document.getElementById('lb-edit-tags');
  container.innerHTML='';
  photo.tags.forEach(tag=>{
    const badge=document.createElement('span');
    badge.className='tag-badge';
    badge.innerHTML=tag+' <span class="tag-remove" data-tag="'+tag+'">&times;</span>';
    container.appendChild(badge);
  });
  // Add tag form
  const form=document.createElement('span');
  form.className='lb-tag-form';
  form.innerHTML='<input type="text" id="lb-tag-input" placeholder="tag...">'
    +'<button id="lb-tag-add">+</button>';
  container.appendChild(form);
  // Event: remove tag
  container.querySelectorAll('.tag-remove').forEach(btn=>{
    btn.addEventListener('click',()=>removeTag(photo,btn.dataset.tag));
  });
  // Event: add tag
  const addBtn=document.getElementById('lb-tag-add');
  const input=document.getElementById('lb-tag-input');
  addBtn.addEventListener('click',()=>addTag(photo,input.value.trim()));
  input.addEventListener('keydown',e=>{if(e.key==='Enter'){e.preventDefault();addTag(photo,input.value.trim());}});
  renderTagSuggestions(photo);
}

function renderTagSuggestions(photo){
  const container=document.getElementById('tag-suggestions');
  container.innerHTML='';
  const allTags=new Set();
  ALL_PHOTOS.forEach(p=>p.tags.forEach(t=>allTags.add(t)));
  const suggestions=[...allTags].filter(t=>!photo.tags.includes(t)).sort();
  suggestions.forEach(tag=>{
    const chip=document.createElement('span');
    chip.className='tag-sug';
    chip.textContent=tag;
    chip.addEventListener('click',()=>addTag(photo,tag));
    container.appendChild(chip);
  });
}

function addTag(photo,tag){
  if(!tag||photo.tags.includes(tag))return;
  photo.tags.push(tag);
  markDirty();
  renderLbTags(photo);
  refreshFilterBar();
  applyFilters();
  toast('Tag «'+tag+'» ajouté');
}

function removeTag(photo,tag){
  photo.tags=photo.tags.filter(t=>t!==tag);
  markDirty();
  renderLbTags(photo);
  refreshFilterBar();
  applyFilters();
  toast('Tag «'+tag+'» retiré');
}

function setRating(photo,rating){
  photo.rating=(photo.rating===rating)?0:rating;
  markDirty();
  renderLbStars(photo.rating);
  applyFilters();
  toast(photo.rating?'Note : '+photo.rating+'/5':'Note supprimée');
}

function showPhoto(idx){
  if(filtered.length===0)return;
  currentIdx=((idx%filtered.length)+filtered.length)%filtered.length;
  const p=filtered[currentIdx];
  lbImg.src=p.src;
  lbName.textContent=p.name+' ('+p.year+')';
  renderLbStars(p.rating);
  renderLbTags(p);
  document.getElementById('lb-download').href=p.src;
}

// Star click
document.querySelectorAll('#lb-stars span').forEach(star=>{
  star.addEventListener('click',()=>{
    if(filtered.length===0)return;
    setRating(filtered[currentIdx],parseInt(star.dataset.star));
  });
  star.addEventListener('mouseenter',()=>{
    const v=parseInt(star.dataset.star);
    document.querySelectorAll('#lb-stars span').forEach(s=>{
      s.classList.toggle('hover',parseInt(s.dataset.star)<=v);
    });
  });
  star.addEventListener('mouseleave',()=>{
    document.querySelectorAll('#lb-stars span').forEach(s=>s.classList.remove('hover'));
  });
});

function openLightbox(idx){
  showPhoto(idx);
  lb.classList.add('open');
  document.body.style.overflow='hidden';
}

function closeLightbox(){
  lb.classList.remove('open');
  document.body.style.overflow='';
  stopSlideshow();
}

document.getElementById('lb-close').addEventListener('click',closeLightbox);
document.getElementById('lb-prev').addEventListener('click',()=>{showPhoto(currentIdx-1);resetSlideshowTimer();});
document.getElementById('lb-next').addEventListener('click',()=>{showPhoto(currentIdx+1);resetSlideshowTimer();});

document.querySelectorAll('.thumb').forEach(el=>{
  el.addEventListener('click',()=>{
    const src=el.querySelector('img').getAttribute('src');
    const idx=filtered.findIndex(p=>p.src===src);
    if(idx>=0)openLightbox(idx);
  });
});

document.addEventListener('keydown',e=>{
  if(!lb.classList.contains('open'))return;
  if(e.key==='Escape')closeLightbox();
  if(e.key==='ArrowLeft'){showPhoto(currentIdx-1);resetSlideshowTimer();}
  if(e.key==='ArrowRight'){showPhoto(currentIdx+1);resetSlideshowTimer();}
  if(e.key>='1'&&e.key<='5')setRating(filtered[currentIdx],parseInt(e.key));
  if(e.key==='0')setRating(filtered[currentIdx],0);
});

// Slideshow
function startSlideshow(random){
  slideshowRandom=random;
  if(filtered.length===0)return;
  if(!lb.classList.contains('open'))openLightbox(random?Math.floor(Math.random()*filtered.length):0);
  document.getElementById('ss-random-toggle').classList.toggle('active',slideshowRandom);
  document.getElementById('ss-playpause').textContent='Pause';
  document.querySelector('.slideshow-controls').style.display='flex';
  runSlideshowTick();
}

function runSlideshowTick(){
  clearInterval(slideshowInterval);
  lbBar.style.transition='none';lbBar.style.width='0%';
  requestAnimationFrame(()=>{requestAnimationFrame(()=>{
    lbBar.style.transition='width '+slideshowDelay+'ms linear';lbBar.style.width='100%';
  })});
  slideshowInterval=setTimeout(()=>{
    if(slideshowRandom)showPhoto(Math.floor(Math.random()*filtered.length));
    else showPhoto(currentIdx+1);
    runSlideshowTick();
  },slideshowDelay);
}

function resetSlideshowTimer(){if(slideshowInterval)runSlideshowTick();}

function stopSlideshow(){
  clearInterval(slideshowInterval);slideshowInterval=null;
  lbBar.style.width='0%';
  document.querySelector('.slideshow-controls').style.display='none';
  document.getElementById('ss-playpause').textContent='Pause';
}

document.getElementById('btn-slideshow').addEventListener('click',()=>startSlideshow(false));
document.getElementById('btn-random').addEventListener('click',()=>startSlideshow(true));

document.getElementById('ss-playpause').addEventListener('click',()=>{
  const btn=document.getElementById('ss-playpause');
  if(slideshowInterval){clearInterval(slideshowInterval);slideshowInterval=null;lbBar.style.transition='none';btn.textContent='Reprendre';}
  else{btn.textContent='Pause';runSlideshowTick();}
});

document.getElementById('ss-prev').addEventListener('click',()=>{showPhoto(currentIdx-1);resetSlideshowTimer();});
document.getElementById('ss-next').addEventListener('click',()=>{showPhoto(currentIdx+1);resetSlideshowTimer();});

document.getElementById('ss-random-toggle').addEventListener('click',()=>{
  slideshowRandom=!slideshowRandom;
  document.getElementById('ss-random-toggle').classList.toggle('active',slideshowRandom);
});

document.getElementById('ss-speed-down').addEventListener('click',()=>{
  slideshowDelay=Math.min(slideshowDelay+1000,15000);
  document.getElementById('ss-speed').textContent=(slideshowDelay/1000)+'s';
  if(slideshowInterval)runSlideshowTick();
});

document.getElementById('ss-speed-up').addEventListener('click',()=>{
  slideshowDelay=Math.max(slideshowDelay-1000,1000);
  document.getElementById('ss-speed').textContent=(slideshowDelay/1000)+'s';
  if(slideshowInterval)runSlideshowTick();
});

// Save metadata
function saveMetadata(){
  const meta={files:{}};
  ALL_PHOTOS.forEach(p=>{
    if(p.tags.length||p.rating){
      const entry={};
      if(p.tags.length)entry.tags=p.tags;
      if(p.rating)entry.rating=p.rating;
      meta.files[p.src]=entry;
    }
  });
  const json=JSON.stringify(meta,null,2);
  const blob=new Blob([json],{type:'application/json'});
  const a=document.createElement('a');
  a.href=URL.createObjectURL(blob);
  a.download='.photo_sort_metadata.json';
  a.click();
  URL.revokeObjectURL(a.href);
  hasChanges=false;
  document.getElementById('btn-save').classList.remove('has-changes');
  toast('Metadata sauvegardé');
}

document.getElementById('btn-save').addEventListener('click',saveMetadata);

// Export filtered
function exportFiltered(){
  if(filtered.length===0){toast('Aucune photo à exporter');return;}
  const list=filtered.map(p=>p.src).join('\n');
  const blob=new Blob([list],{type:'text/plain'});
  const a=document.createElement('a');
  a.href=URL.createObjectURL(blob);
  a.download='export_list.txt';
  a.click();
  URL.revokeObjectURL(a.href);
  toast(filtered.length+' fichiers dans export_list.txt');
}

document.getElementById('btn-export').addEventListener('click',exportFiltered);

// Warn on unsaved changes
window.addEventListener('beforeunload',e=>{
  if(hasChanges){e.preventDefault();e.returnValue='';}
});

// Init
document.querySelector('.slideshow-controls').style.display='none';
</script>
</body>
</html>"#@
}

/// HTML attribute escaping of one character.
pub open spec fn html_escape_char(c: char) -> Seq<char> {
    if c == '&' {
        "&amp;"@
    } else if c == '<' {
        "&lt;"@
    } else if c == '>' {
        "&gt;"@
    } else if c == '"' {
        "&quot;"@
    } else {
        seq![c]
    }
}

/// HTML attribute escaping: `& < > "` become entities.
pub open spec fn escape_html_spec(s: Seq<char>) -> Seq<char>
    decreases s.len(),
{
    if s.len() == 0 {
        Seq::empty()
    } else {
        escape_html_spec(s.drop_last()) + html_escape_char(s.last())
    }
}

/// JSON string escaping of one character.
pub open spec fn js_escape_char(c: char) -> Seq<char> {
    if c == '\\' {
        "\\\\"@
    } else if c == '"' {
        "\\\""@
    } else if c == '\n' {
        "\\n"@
    } else {
        seq![c]
    }
}

/// JSON string escaping: backslash, quote and newline get a backslash.
pub open spec fn escape_js_spec(s: Seq<char>) -> Seq<char>
    decreases s.len(),
{
    if s.len() == 0 {
        Seq::empty()
    } else {
        escape_js_spec(s.drop_last()) + js_escape_char(s.last())
    }
}

/// Escape a string for an HTML attribute value.
pub fn escape_html(s: &str) -> (r: String)
    ensures
        r@ == escape_html_spec(s@),
{
    let v = chars_of(s);
    let mut out = String::new();
    let mut i: usize = 0;
    while i < v.len()
        invariant
            i <= v@.len(),
            v@ == s@,
            out@ == escape_html_spec(s@.subrange(0, i as int)),
        decreases v@.len() - i,
    {
        let c = v[i];
        if c == '&' {
            out.append("&amp;");
        } else if c == '<' {
            out.append("&lt;");
        } else if c == '>' {
            out.append("&gt;");
        } else if c == '"' {
            out.append("&quot;");
        } else {
            push_char(&mut out, c);
        }
        i = i + 1;
        proof {
            assert(s@.subrange(0, i as int).drop_last() =~= s@.subrange(0, i as int - 1));
            assert(s@.subrange(0, i as int).last() == s@[i as int - 1]);
        }
    }
    proof {
        assert(s@.subrange(0, s@.len() as int) =~= s@);
    }
    out
}

/// Escape a string for a JSON string literal inside a script.
pub fn escape_js(s: &str) -> (r: String)
    ensures
        r@ == escape_js_spec(s@),
{
    let v = chars_of(s);
    let mut out = String::new();
    let mut i: usize = 0;
    while i < v.len()
        invariant
            i <= v@.len(),
            v@ == s@,
            out@ == escape_js_spec(s@.subrange(0, i as int)),
        decreases v@.len() - i,
    {
        let c = v[i];
        if c == '\\' {
            out.append("\\\\");
        } else if c == '"' {
            out.append("\\\"");
        } else if c == '\n' {
            out.append("\\n");
        } else {
            push_char(&mut out, c);
        }
        i = i + 1;
        proof {
            assert(s@.subrange(0, i as int).drop_last() =~= s@.subrange(0, i as int - 1));
            assert(s@.subrange(0, i as int).last() == s@[i as int - 1]);
        }
    }
    proof {
        assert(s@.subrange(0, s@.len() as int) =~= s@);
    }
    out
}

/// The parts joined with commas.
pub open spec fn join_comma(parts: Seq<Seq<char>>) -> Seq<char>
    decreases parts.len(),
{
    if parts.len() == 0 {
        Seq::empty()
    } else if parts.len() == 1 {
        parts[0]
    } else {
        join_comma(parts.drop_last()) + ","@ + parts.last()
    }
}

/// Join the strings with commas.
pub fn join_comma_strings(v: &Vec<String>) -> (r: String)
    ensures
        r@ == join_comma(views_of(v@)),
{
    let mut out = String::new();
    let mut i: usize = 0;
    while i < v.len()
        invariant
            i <= v@.len(),
            out@ == join_comma(views_of(v@).subrange(0, i as int)),
        decreases v@.len() - i,
    {
        if i > 0 {
            out.append(",");
        }
        out.append(v[i].as_str());
        i = i + 1;
        proof {
            let pre = views_of(v@).subrange(0, i as int);
            assert(pre.drop_last() =~= views_of(v@).subrange(0, i as int - 1));
            assert(pre.last() == v@[i as int - 1]@);
            if i == 1 {
                assert(out@ =~= join_comma(pre));
            }
        }
    }
    proof {
        assert(views_of(v@).subrange(0, views_of(v@).len() as int) =~= views_of(v@));
    }
    out
}

/// Does any record of the store carry this tag?
pub open spec fn meta_has_tag(m: MetaModel, t: Seq<char>) -> bool {
    exists|i: int| 0 <= i < m.len() && #[trigger] m[i].1.tags.contains(t)
}

/// Every tag of the store, each once, in ascending order.
fn collect_tags(meta: &Metadata) -> (r: Vec<String>)
    ensures
        sorted_le(views_of(r@)),
        views_of(r@).no_duplicates(),
        forall|t: Seq<char>| #[trigger] views_of(r@).contains(t) <==> meta_has_tag(meta@, t),
{
    broadcast use vstd::seq_lib::group_to_multiset_ensures;

    let entries = meta.entries_plain();
    let mut all: Vec<String> = Vec::new();
    let mut i: usize = 0;
    while i < entries.len()
        invariant
            i <= entries@.len(),
            entries@.len() == meta@.len(),
            forall|e: int|
                0 <= e < meta@.len() ==> views_of((#[trigger] entries@[e]).1@) == meta@[e].1.tags,
            views_of(all@).no_duplicates(),
            forall|t: Seq<char>| #[trigger] views_of(all@).contains(t) ==> meta_has_tag(meta@, t),
            forall|e: int, k: int|
                0 <= e < i && 0 <= k < meta@[e].1.tags.len() ==> views_of(all@).contains(
                    #[trigger] meta@[e].1.tags[k],
                ),
        decreases entries@.len() - i,
    {
        let tags = &entries[i].1;
        let mut k: usize = 0;
        while k < tags.len()
            invariant
                k <= tags@.len(),
                i < entries@.len(),
                entries@.len() == meta@.len(),
                views_of(tags@) == meta@[i as int].1.tags,
                forall|e: int|
                    0 <= e < meta@.len() ==> views_of((#[trigger] entries@[e]).1@)
                        == meta@[e].1.tags,
                views_of(all@).no_duplicates(),
                forall|t: Seq<char>| #[trigger] views_of(all@).contains(t) ==> meta_has_tag(
                    meta@,
                    t,
                ),
                forall|e: int, k2: int|
                    0 <= e < i && 0 <= k2 < meta@[e].1.tags.len() ==> views_of(all@).contains(
                        #[trigger] meta@[e].1.tags[k2],
                    ),
                forall|k2: int|
                    0 <= k2 < k ==> views_of(all@).contains(#[trigger] meta@[i as int].1.tags[k2]),
            decreases tags@.len() - k,
        {
            let ghost before = all@;
            if !contains_string(&all, tags[k].as_str()) {
                all.push(tags[k].clone());
                proof {
                    assert(views_of(all@) =~= views_of(before).push(tags@[k as int]@));
                    assert forall|t: Seq<char>|
                        views_of(before).contains(t) implies views_of(all@).contains(t) by {
                        let w = choose|w: int|
                            0 <= w < views_of(before).len() && views_of(before)[w] == t;
                        assert(views_of(all@)[w] == t);
                    }
                    assert forall|t: Seq<char>| #[trigger]
                        views_of(all@).contains(t) implies meta_has_tag(meta@, t) by {
                        if t != tags@[k as int]@ {
                            let w = choose|w: int|
                                0 <= w < views_of(all@).len() && views_of(all@)[w] == t;
                            assert(views_of(before)[w] == t);
                            assert(views_of(before).contains(t));
                        } else {
                            assert(views_of(tags@)[k as int] == t);
                            assert(meta@[i as int].1.tags.contains(t));
                        }
                    }
                    assert(views_of(all@)[views_of(all@).len() - 1] == tags@[k as int]@);
                    assert(views_of(all@).contains(tags@[k as int]@));
                    assert forall|p: int, q: int|
                        0 <= p < q < views_of(all@).len() implies views_of(all@)[p] != views_of(
                        all@,
                    )[q] by {
                        if q == views_of(all@).len() - 1 {
                            assert(views_of(before)[p] == views_of(all@)[p]);
                            if views_of(all@)[p] == tags@[k as int]@ {
                                assert(views_of(before).contains(tags@[k as int]@));
                            }
                        }
                    }
                }
            }
            proof {
                assert(views_of(tags@)[k as int] == tags@[k as int]@);
                assert(views_of(all@).contains(tags@[k as int]@));
                assert(views_of(all@).contains(meta@[i as int].1.tags[k as int]));
            }
            k = k + 1;
        }
        i = i + 1;
    }
    let sorted = sort_strings(all);
    proof {
        let sv = views_of(sorted@);
        let av = views_of(all@);
        assert(sv.to_multiset() =~= av.to_multiset()) by {
            lemma_views_multiset(sorted@, all@);
        }
        assert forall|t: Seq<char>| #[trigger] sv.contains(t) implies av.contains(t) by {
            assert(sv.to_multiset().count(t) > 0);
            assert(av.to_multiset().count(t) > 0);
            assert(av.contains(t));
        }
        assert forall|t: Seq<char>| #[trigger] av.contains(t) implies sv.contains(t) by {
            assert(av.to_multiset().count(t) > 0);
            assert(sv.to_multiset().count(t) > 0);
            assert(sv.contains(t));
        }
        av.lemma_multiset_has_no_duplicates();
        assert forall|p: int, q: int| 0 <= p < q < sv.len() implies sv[p] != sv[q] by {
            if sv[p] == sv[q] {
                lemma_dup_count(sv, p, q);
                assert(av.to_multiset().count(sv[p]) >= 2);
                assert(av.contains(sv[p]));
            }
        }
        sv.lemma_multiset_has_no_duplicates_conv();
        assert forall|t: Seq<char>| #[trigger] sv.contains(t) implies meta_has_tag(
            meta@,
            t,
        ) by {}
        assert forall|t: Seq<char>| meta_has_tag(meta@, t) implies sv.contains(t) by {
            let e = choose|e: int| 0 <= e < meta@.len() && #[trigger] meta@[e].1.tags.contains(t);
            let k = choose|k: int|
                0 <= k < meta@[e].1.tags.len() && meta@[e].1.tags[k] == t;
            assert(av.contains(meta@[e].1.tags[k]));
        }
    }
    sorted
}

/// String sequences with the same multiset have views with the same
/// multiset.
proof fn lemma_views_multiset(a: Seq<String>, b: Seq<String>)
    requires
        a.to_multiset() == b.to_multiset(),
    ensures
        views_of(a).to_multiset() =~= views_of(b).to_multiset(),
    decreases a.len(),
{
    broadcast use vstd::seq_lib::group_to_multiset_ensures;

    if a.len() == 0 {
        assert(b.to_multiset().len() == 0);
        assert(b.len() == 0);
        assert(views_of(a) =~= views_of(b));
    } else {
        let x = a.last();
        let a1 = a.drop_last();
        assert(a =~= a1.push(x));
        assert(a.to_multiset().count(x) > 0) by {
            assert(a.contains(x));
        }
        assert(b.to_multiset().count(x) > 0);
        assert(b.contains(x));
        let j = choose|j: int| 0 <= j < b.len() && b[j] == x;
        let b1 = b.remove(j);
        assert(b1.to_multiset() =~= b.to_multiset().remove(x));
        assert(a1.to_multiset() =~= a.to_multiset().remove(x));
        lemma_views_multiset(a1, b1);
        assert(views_of(a) =~= views_of(a1).push(x@));
        assert(views_of(a).to_multiset() =~= views_of(a1).to_multiset().insert(x@));
        assert(views_of(b) =~= views_of(b1).insert(j, x@));
        crate::strutil::lemma_to_multiset_seq_insert(views_of(b1), j, x@);
        assert(views_of(b).to_multiset() =~= views_of(b1).to_multiset().insert(x@));
    }
}

/// A sequence holding an element at two positions counts it at least twice.
proof fn lemma_dup_count(s: Seq<Seq<char>>, p: int, q: int)
    requires
        0 <= p < q < s.len(),
        s[p] == s[q],
    ensures
        s.to_multiset().count(s[p]) >= 2,
{
    broadcast use vstd::seq_lib::group_to_multiset_ensures;

    let r = s.remove(q);
    assert(r.to_multiset() =~= s.to_multiset().remove(s[q]));
    assert(r[p] == s[p]);
    assert(r.contains(s[p]));
    assert(r.to_multiset().count(s[p]) > 0);
}


/// The tags of `file` in the store, empty when unknown.
pub open spec fn meta_tags_of(m: MetaModel, file: Seq<char>) -> Seq<Seq<char>> {
    match meta_find(m, file) {
        Some(info) => info.tags,
        None => Seq::empty(),
    }
}

/// The rating of `file` in the store, zero when unknown or unrated.
pub open spec fn meta_rating_of(m: MetaModel, file: Seq<char>) -> int {
    match meta_find(m, file) {
        Some(info) => match info.rating {
            Some(r) => r as int,
            None => 0,
        },
        None => 0,
    }
}

/// A tag as a quoted, escaped JSON string literal.
pub open spec fn quote_js() -> spec_fn(Seq<char>) -> Seq<char> {
    |t: Seq<char>| "\""@ + escape_js_spec(t) + "\""@
}

/// The JSON array body of a tag list.
pub open spec fn tags_json_spec(tags: Seq<Seq<char>>) -> Seq<char> {
    join_comma(tags.map_values(quote_js()))
}

/// One photo entry of the inline JSON array.
pub open spec fn entry_json_spec(file: Seq<char>, year: Seq<char>, m: MetaModel) -> Seq<char> {
    "{\"src\":\""@ + escape_js_spec(file) + "\",\"year\":\""@ + escape_js_spec(year)
        + "\",\"name\":\""@ + escape_js_spec(crate::pathutil::file_name_of(file))
        + "\",\"tags\":["@ + tags_json_spec(meta_tags_of(m, file)) + "],\"rating\":"@ + dec_str(
        meta_rating_of(m, file),
    ) + "}"@
}

/// One thumbnail cell of a year grid.
pub open spec fn thumb_div_spec(i: int, file: Seq<char>, m: MetaModel) -> Seq<char> {
    "  <div class=\"thumb\" data-idx=\""@ + dec_str(i) + "\" data-tags=\""@ + escape_html_spec(
        join_comma(meta_tags_of(m, file)),
    ) + "\" data-rating=\""@ + dec_str(meta_rating_of(m, file)) + "\"><img src=\""@
        + escape_html_spec(file) + "\" alt=\""@ + escape_html_spec(
        crate::pathutil::file_name_of(file),
    ) + "\" loading=\"lazy\"><div class=\"thumb-stars\">"@ + repeat_char(
        '\u{2605}',
        meta_rating_of(m, file),
    ) + "</div><div class=\"info\">"@ + escape_html_spec(crate::pathutil::file_name_of(file))
        + "</div></div>\n"@
}

/// The heading and opening of one year's grid.
pub open spec fn year_header_spec(y: Seq<char>, count: int) -> Seq<char> {
    "<h2 class=\"year-header\" data-year=\""@ + y + "\">"@ + y + " <span class=\"count\">"@
        + dec_str(count) + "</span></h2>\n<div class=\"grid\" data-year=\""@ + y + "\">\n"@
}

/// The first `fi` thumbnail cells of a year's grid.
pub open spec fn thumbs_upto(files: Seq<Seq<char>>, m: MetaModel, fi: int) -> Seq<char>
    decreases fi,
{
    if fi <= 0 {
        Seq::empty()
    } else {
        thumbs_upto(files, m, fi - 1) + thumb_div_spec(fi - 1, files[fi - 1], m)
    }
}

/// One year's grid section.
pub open spec fn grid_group_spec(y: Seq<char>, files: Seq<Seq<char>>, m: MetaModel) -> Seq<char> {
    year_header_spec(y, files.len() as int) + thumbs_upto(files, m, files.len() as int)
        + "</div>\n"@
}

/// The grid sections of the first `gi` years.
pub open spec fn grids_upto(ix: IndexModel, m: MetaModel, gi: int) -> Seq<char>
    decreases gi,
{
    if gi <= 0 {
        Seq::empty()
    } else {
        grids_upto(ix, m, gi - 1) + grid_group_spec(ix[gi - 1].0, ix[gi - 1].1, m)
    }
}

/// The JSON entries of the first `fi` files of one year.
pub open spec fn group_jsons(y: Seq<char>, files: Seq<Seq<char>>, m: MetaModel, fi: int) -> Seq<
    Seq<char>,
>
    decreases fi,
{
    if fi <= 0 {
        Seq::empty()
    } else {
        group_jsons(y, files, m, fi - 1).push(entry_json_spec(files[fi - 1], y, m))
    }
}

/// The JSON entries of the first `gi` years.
pub open spec fn all_jsons(ix: IndexModel, m: MetaModel, gi: int) -> Seq<Seq<char>>
    decreases gi,
{
    if gi <= 0 {
        Seq::empty()
    } else {
        all_jsons(ix, m, gi - 1) + group_jsons(ix[gi - 1].0, ix[gi - 1].1, m, ix[gi - 1].1.len() as int)
    }
}

/// The inline JSON array of all photos.
pub open spec fn photos_json_spec(ix: IndexModel, m: MetaModel) -> Seq<char> {
    "["@ + join_comma(all_jsons(ix, m, ix.len() as int)) + "]"@
}

/// The filter buttons of the first `ti` tags.
pub open spec fn tag_buttons_upto(tags: Seq<Seq<char>>, ti: int) -> Seq<char>
    decreases ti,
{
    if ti <= 0 {
        Seq::empty()
    } else {
        tag_buttons_upto(tags, ti - 1) + "<button class=\"tag-btn\" data-tag=\""@
            + escape_html_spec(tags[ti - 1]) + "\">"@ + escape_html_spec(tags[ti - 1])
            + "</button>"@
    }
}

/// The tag filter bar: absent without tags, else one button per tag after
/// the catch-all button.
pub open spec fn tags_filter_spec(tags: Seq<Seq<char>>) -> Seq<char> {
    if tags.len() == 0 {
        Seq::empty()
    } else {
        "<div class=\"filter-group\"><span class=\"filter-label\">Tags</span><div class=\"filter-tags\" id=\"filter-tags-container\">"@
            + "<button class=\"tag-btn active\" data-tag=\"\">Tous</button>"@ + tag_buttons_upto(
            tags,
            tags.len() as int,
        ) + "</div></div>"@
    }
}

/// The whole gallery document for an index, a metadata store and a tag list.
pub open spec fn gallery_html_spec(ix: IndexModel, m: MetaModel, tags: Seq<Seq<char>>) -> Seq<
    char,
> {
    tpl_head() + tags_filter_spec(tags) + tpl_mid1() + grids_upto(ix, m, ix.len() as int)
        + tpl_mid2() + photos_json_spec(ix, m) + tpl_tail()
}

/// One photo entry of the inline JSON array.
fn entry_json(file: &str, year: &str, meta: &Metadata) -> (r: String)
    ensures
        r@ == entry_json_spec(file@, year@, meta@),
{
    let tags = meta.get_tags(file);
    let rating: u8 = match meta.get_rating(file) {
        Some(rt) => rt,
        None => 0,
    };
    let mut quoted: Vec<String> = Vec::new();
    let mut j: usize = 0;
    while j < tags.len()
        invariant
            j <= tags@.len(),
            views_of(quoted@) == views_of(tags@).subrange(0, j as int).map_values(quote_js()),
        decreases tags@.len() - j,
    {
        let mut q = String::new();
        q.append("\"");
        let e = escape_js(tags[j].as_str());
        q.append(e.as_str());
        q.append("\"");
        proof {
            assert(q@ =~= quote_js()(tags@[j as int]@));
        }
        let ghost old_q = quoted@;
        let ghost qv = q@;
        quoted.push(q);
        j = j + 1;
        proof {
            assert(views_of(quoted@) =~= views_of(old_q).push(qv));
            assert(views_of(tags@).subrange(0, j as int) =~= views_of(tags@).subrange(
                0,
                j as int - 1,
            ).push(tags@[j as int - 1]@));
            assert(views_of(quoted@) =~= views_of(tags@).subrange(0, j as int).map_values(
                quote_js(),
            ));
        }
    }
    proof {
        assert(views_of(tags@).subrange(0, tags@.len() as int) =~= views_of(tags@));
    }
    let tags_body = join_comma_strings(&quoted);
    let name = crate::pathutil::file_name(file);
    let mut out = String::new();
    out.append("{\"src\":\"");
    let ef = escape_js(file);
    out.append(ef.as_str());
    out.append("\",\"year\":\"");
    let ey = escape_js(year);
    out.append(ey.as_str());
    out.append("\",\"name\":\"");
    let en = escape_js(name.as_str());
    out.append(en.as_str());
    out.append("\",\"tags\":[");
    out.append(tags_body.as_str());
    out.append("],\"rating\":");
    let dr = dec_string(rating as u64);
    out.append(dr.as_str());
    out.append("}");
    proof {
        assert(out@ =~= entry_json_spec(file@, year@, meta@));
    }
    out
}

/// One thumbnail cell of a year grid.
fn thumb_div(i: usize, file: &str, meta: &Metadata) -> (r: String)
    ensures
        r@ == thumb_div_spec(i as int, file@, meta@),
{
    let tags = meta.get_tags(file);
    let rating: u8 = match meta.get_rating(file) {
        Some(rt) => rt,
        None => 0,
    };
    let tags_attr = join_comma_strings(&tags);
    let name = crate::pathutil::file_name(file);
    let mut stars: Vec<char> = Vec::new();
    push_repeat(&mut stars, '\u{2605}', rating as u64);
    let stars_str = string_from_chars(&stars);
    let mut out = String::new();
    out.append("  <div class=\"thumb\" data-idx=\"");
    let di = dec_string(i as u64);
    out.append(di.as_str());
    out.append("\" data-tags=\"");
    let et = escape_html(tags_attr.as_str());
    out.append(et.as_str());
    out.append("\" data-rating=\"");
    let dr = dec_string(rating as u64);
    out.append(dr.as_str());
    out.append("\"><img src=\"");
    let ef = escape_html(file);
    out.append(ef.as_str());
    out.append("\" alt=\"");
    let en = escape_html(name.as_str());
    out.append(en.as_str());
    out.append("\" loading=\"lazy\"><div class=\"thumb-stars\">");
    out.append(stars_str.as_str());
    out.append("</div><div class=\"info\">");
    out.append(en.as_str());
    out.append("</div></div>\n");
    proof {
        assert(out@ =~= thumb_div_spec(i as int, file@, meta@));
    }
    out
}

/// Render the gallery document: the fixed template with the tag filter bar,
/// one grid section per year, and the inline JSON photo array filled in. The
/// filter bar enumerates each tag of the store exactly once, in ascending
/// order.
pub fn generate_html(index: &PhotoIndex, metadata: &Metadata) -> (r: String)
    ensures
        exists|tags: Seq<Seq<char>>|
            sorted_le(tags) && tags.no_duplicates() && (forall|t: Seq<char>| #[trigger]
                tags.contains(t) <==> meta_has_tag(metadata@, t)) && r@ == gallery_html_spec(
                index@,
                metadata@,
                tags,
            ),
{
    let tag_list = collect_tags(metadata);
    let ghost tagsv = views_of(tag_list@);
    let mut tags_filter = String::new();
    if tag_list.len() > 0 {
        tags_filter.append(
            "<div class=\"filter-group\"><span class=\"filter-label\">Tags</span><div class=\"filter-tags\" id=\"filter-tags-container\">",
        );
        tags_filter.append("<button class=\"tag-btn active\" data-tag=\"\">Tous</button>");
        let ghost head = tags_filter@;
        let mut ti: usize = 0;
        while ti < tag_list.len()
            invariant
                ti <= tag_list@.len(),
                tagsv == views_of(tag_list@),
                tags_filter@ == head + tag_buttons_upto(tagsv, ti as int),
            decreases tag_list@.len() - ti,
        {
            let e = escape_html(tag_list[ti].as_str());
            tags_filter.append("<button class=\"tag-btn\" data-tag=\"");
            tags_filter.append(e.as_str());
            tags_filter.append("\">");
            tags_filter.append(e.as_str());
            tags_filter.append("</button>");
            ti = ti + 1;
            proof {
                assert(tagsv[ti as int - 1] == tag_list@[ti as int - 1]@);
                assert(tags_filter@ =~= head + tag_buttons_upto(tagsv, ti as int));
            }
        }
        tags_filter.append("</div></div>");
        proof {
            assert(tags_filter@ =~= tags_filter_spec(tagsv));
        }
    } else {
        proof {
            assert(tags_filter@ =~= tags_filter_spec(tagsv));
        }
    }
    let mut entries: Vec<String> = Vec::new();
    let mut g: usize = 0;
    while g < index.years.len()
        invariant
            g <= index@.len(),
            index@.len() == index.years@.len(),
            forall|j: int|
                0 <= j < index@.len() ==> index@[j] == (
                    index.years@[j].0@,
                    views_of(index.years@[j].1@),
                ),
            views_of(entries@) == all_jsons(index@, metadata@, g as int),
        decreases index@.len() - g,
    {
        let y = &index.years[g].0;
        let files = &index.years[g].1;
        let mut f: usize = 0;
        while f < files.len()
            invariant
                f <= files@.len(),
                g < index@.len(),
                views_of(files@) == index@[g as int].1,
                y@ == index@[g as int].0,
                views_of(entries@) == all_jsons(index@, metadata@, g as int) + group_jsons(
                    y@,
                    views_of(files@),
                    metadata@,
                    f as int,
                ),
            decreases files@.len() - f,
        {
            let ej = entry_json(files[f].as_str(), y.as_str(), metadata);
            let ghost ejv = ej@;
            let ghost old_e = entries@;
            entries.push(ej);
            f = f + 1;
            proof {
                assert(views_of(entries@) =~= views_of(old_e).push(ejv));
                assert(views_of(files@)[f as int - 1] == files@[f as int - 1]@);
                assert(ejv == entry_json_spec(views_of(files@)[f as int - 1], y@, metadata@));
                assert(views_of(entries@) =~= all_jsons(index@, metadata@, g as int)
                    + group_jsons(y@, views_of(files@), metadata@, f as int));
            }
        }
        proof {
            assert(f as int == views_of(files@).len() as int);
            assert(group_jsons(y@, views_of(files@), metadata@, f as int) == group_jsons(
                index@[g as int].0,
                index@[g as int].1,
                metadata@,
                index@[g as int].1.len() as int,
            ));
        }
        g = g + 1;
        proof {
            assert(views_of(entries@) =~= all_jsons(index@, metadata@, g as int));
        }
    }
    let json_body = join_comma_strings(&entries);
    let mut photos_json = String::new();
    photos_json.append("[");
    photos_json.append(json_body.as_str());
    photos_json.append("]");
    proof {
        assert(photos_json@ =~= photos_json_spec(index@, metadata@));
    }
    let mut grid = String::new();
    let mut g2: usize = 0;
    while g2 < index.years.len()
        invariant
            g2 <= index@.len(),
            index@.len() == index.years@.len(),
            forall|j: int|
                0 <= j < index@.len() ==> index@[j] == (
                    index.years@[j].0@,
                    views_of(index.years@[j].1@),
                ),
            grid@ == grids_upto(index@, metadata@, g2 as int),
        decreases index@.len() - g2,
    {
        let y = &index.years[g2].0;
        let files = &index.years[g2].1;
        grid.append("<h2 class=\"year-header\" data-year=\"");
        grid.append(y.as_str());
        grid.append("\">");
        grid.append(y.as_str());
        grid.append(" <span class=\"count\">");
        let dc = dec_string(files.len() as u64);
        grid.append(dc.as_str());
        grid.append("</span></h2>\n<div class=\"grid\" data-year=\"");
        grid.append(y.as_str());
        grid.append("\">\n");
        let ghost header_done = grid@;
        proof {
            assert(header_done =~= grids_upto(index@, metadata@, g2 as int) + year_header_spec(
                y@,
                views_of(files@).len() as int,
            ));
        }
        let mut f: usize = 0;
        while f < files.len()
            invariant
                f <= files@.len(),
                g2 < index@.len(),
                views_of(files@) == index@[g2 as int].1,
                y@ == index@[g2 as int].0,
                header_done == grids_upto(index@, metadata@, g2 as int) + year_header_spec(
                    y@,
                    views_of(files@).len() as int,
                ),
                grid@ == header_done + thumbs_upto(views_of(files@), metadata@, f as int),
            decreases files@.len() - f,
        {
            let d = thumb_div(f, files[f].as_str(), metadata);
            grid.append(d.as_str());
            f = f + 1;
            proof {
                assert(views_of(files@)[f as int - 1] == files@[f as int - 1]@);
                assert(grid@ =~= header_done + thumbs_upto(views_of(files@), metadata@, f as int));
            }
        }
        grid.append("</div>\n");
        g2 = g2 + 1;
        proof {
            assert(views_of(files@).subrange(0, files@.len() as int) =~= views_of(files@));
            assert(grid@ =~= grids_upto(index@, metadata@, g2 as int));
        }
    }
    let mut out = String::new();
    out.append(r#"<!DOCTYPE html>
<html lang="fr">
<head>
<meta charset="utf-8">
<meta name="viewport" content="width=device-width,initial-scale=1">
<title>photo-sort gallery</title>
<style>
*{margin:0;padding:0;box-sizing:border-box}
body{background:#0a0a0a;color:#e0e0e0;font-family:-apple-system,BlinkMacSystemFont,"Segoe UI",Roboto,sans-serif;overflow-x:hidden}
header{position:sticky;top:0;z-index:100;background:rgba(10,10,10,.95);backdrop-filter:blur(12px);padding:1rem 2rem;display:flex;justify-content:space-between;align-items:center;border-bottom:1px solid #222}
header h1{font-size:1.2rem;font-weight:600;color:#4fc3f7}
.controls{display:flex;gap:.5rem;align-items:center}
.controls button,.controls .badge{background:#1a1a1a;color:#ccc;border:1px solid #333;padding:.4rem .8rem;border-radius:6px;cursor:pointer;font-size:.85rem;transition:all .2s}
.controls button:hover,.controls button.active{background:#4fc3f7;color:#000;border-color:#4fc3f7}
.controls button.save-btn{background:#1a3a1a;color:#6f6;border-color:#363}
.controls button.save-btn:hover{background:#2a5a2a}
.controls button.save-btn.has-changes{animation:pulse 2s infinite}
@keyframes pulse{0%,100%{opacity:1}50%{opacity:.6}}
.controls button.export-btn{background:#3a1a1a;color:#f96;border-color:#633}
.controls button.export-btn:hover{background:#5a2a2a}
.filter-bar{padding:.8rem 2rem;background:#111;border-bottom:1px solid #1a1a1a;display:flex;gap:1.5rem;align-items:center;flex-wrap:wrap}
.filter-group{display:flex;gap:.5rem;align-items:center}
.filter-label{font-size:.75rem;text-transform:uppercase;color:#666;letter-spacing:.05em}
.filter-tags{display:flex;gap:.3rem;flex-wrap:wrap}
.tag-btn{background:#1a1a1a;color:#aaa;border:1px solid #2a2a2a;padding:.25rem .6rem;border-radius:12px;cursor:pointer;font-size:.8rem;transition:all .2s}
.tag-btn:hover,.tag-btn.active{background:#4fc3f7;color:#000;border-color:#4fc3f7}
.rating-filter{display:flex;gap:.2rem;align-items:center}
.rating-filter button{background:none;border:none;font-size:1.2rem;cursor:pointer;color:#444;transition:color .2s}
.rating-filter button.active,.rating-filter button:hover{color:#ffd700}
main{padding:1rem 2rem 4rem}
.year-header{margin:2rem 0 1rem;font-size:1.5rem;font-weight:300;color:#4fc3f7}
.year-header .count{font-size:.9rem;color:#555}
.grid{display:grid;grid-template-columns:repeat(auto-fill,minmax(200px,1fr));gap:6px}
.thumb{position:relative;aspect-ratio:1;overflow:hidden;border-radius:4px;cursor:pointer;transition:transform .2s}
.thumb:hover{transform:scale(1.03);z-index:1}
.thumb img{width:100%;height:100%;object-fit:cover}
.thumb .info{position:absolute;bottom:0;left:0;right:0;padding:.3rem .5rem;background:linear-gradient(transparent,rgba(0,0,0,.8));font-size:.7rem;color:#ccc;opacity:0;transition:opacity .2s}
.thumb:hover .info{opacity:1}
.thumb.hidden{display:none}
.thumb .thumb-stars{position:absolute;top:.3rem;right:.3rem;color:#ffd700;font-size:.7rem;text-shadow:0 1px 3px rgba(0,0,0,.8)}

/* Lightbox */
.lightbox{display:none;position:fixed;inset:0;z-index:1000;background:rgba(0,0,0,.97);flex-direction:column;align-items:center;justify-content:center}
.lightbox.open{display:flex}
.lightbox img#lb-img{max-width:90vw;max-height:70vh;object-fit:contain;border-radius:4px;user-select:none}
.lb-top-bar{position:absolute;top:0;left:0;right:0;display:flex;justify-content:space-between;align-items:center;padding:.8rem 1.5rem;z-index:1002}
.lb-close{font-size:2rem;color:#888;cursor:pointer;transition:color .2s}
.lb-close:hover{color:#fff}
.lb-download{color:#888;cursor:pointer;font-size:.85rem;text-decoration:none;padding:.3rem .6rem;border:1px solid #444;border-radius:6px;transition:all .2s}
.lb-download:hover{color:#fff;border-color:#888}
.lb-nav{position:absolute;top:50%;transform:translateY(-50%);font-size:3rem;color:#555;cursor:pointer;user-select:none;padding:1rem;transition:color .2s;z-index:1001}
.lb-nav:hover{color:#fff}
.lb-prev{left:1rem}
.lb-next{right:1rem}
.lb-panel{margin-top:.8rem;text-align:center;color:#999;font-size:.9rem;max-width:600px;width:90vw}
.lb-panel .lb-name{color:#e0e0e0;font-weight:500;margin-bottom:.5rem}
.lb-stars{display:flex;justify-content:center;gap:.15rem;margin:.4rem 0}
.lb-stars span{font-size:1.6rem;cursor:pointer;color:#444;transition:color .15s}
.lb-stars span.filled{color:#ffd700}
.lb-stars span:hover,.lb-stars span.hover{color:#ffed80}
.lb-edit-tags{display:flex;flex-wrap:wrap;justify-content:center;gap:.3rem;margin:.4rem 0;align-items:center}
.lb-edit-tags .tag-badge{background:#1a2a3a;color:#4fc3f7;padding:.2rem .5rem;border-radius:10px;font-size:.8rem;display:inline-flex;align-items:center;gap:.3rem}
.lb-edit-tags .tag-badge .tag-remove{cursor:pointer;color:#f66;font-weight:bold;font-size:.9rem}
.lb-edit-tags .tag-badge .tag-remove:hover{color:#f00}
.lb-tag-form{display:inline-flex;gap:.3rem;align-items:center}
.lb-tag-form input{background:#1a1a1a;border:1px solid #333;color:#e0e0e0;padding:.2rem .5rem;border-radius:10px;font-size:.8rem;width:100px;outline:none}
.lb-tag-form input:focus{border-color:#4fc3f7}
.lb-tag-form button{background:#4fc3f7;color:#000;border:none;padding:.2rem .5rem;border-radius:10px;font-size:.8rem;cursor:pointer}
.tag-suggestions{display:flex;flex-wrap:wrap;justify-content:center;gap:.25rem;margin:.3rem 0}
.tag-suggestions .tag-sug{background:#1a1a1a;color:#888;border:1px dashed #333;padding:.15rem .5rem;border-radius:10px;font-size:.75rem;cursor:pointer;transition:all .2s}
.tag-suggestions .tag-sug:hover{color:#4fc3f7;border-color:#4fc3f7}
.lb-slideshow-bar{position:absolute;bottom:0;left:0;height:3px;background:#4fc3f7;transition:width linear}

/* Slideshow controls */
.slideshow-controls{position:absolute;bottom:1.5rem;display:flex;gap:.5rem;z-index:1002}
.slideshow-controls button{background:rgba(255,255,255,.1);color:#ccc;border:1px solid #444;padding:.4rem .8rem;border-radius:6px;cursor:pointer;font-size:.85rem;transition:all .2s}
.slideshow-controls button:hover,.slideshow-controls button.active{background:#4fc3f7;color:#000;border-color:#4fc3f7}

/* Toast */
.toast{position:fixed;bottom:2rem;left:50%;transform:translateX(-50%);background:#2a2a2a;color:#fff;padding:.6rem 1.2rem;border-radius:8px;font-size:.85rem;z-index:2000;opacity:0;transition:opacity .3s;pointer-events:none}
.toast.show{opacity:1}

@media(max-width:600px){
  .grid{grid-template-columns:repeat(auto-fill,minmax(120px,1fr));gap:3px}
  header{padding:.8rem 1rem}
  main{padding:.5rem 1rem}
}
</style>
</head>
<body>
<header>
  <h1>photo-sort gallery</h1>
  <div class="controls">
    <button id="btn-slideshow">Diaporama</button>
    <button id="btn-random">Aléatoire</button>
    <button id="btn-export" class="export-btn">Exporter filtré</button>
    <button id="btn-save" class="save-btn">Sauvegarder</button>
  </div>
</header>
<div class="filter-bar">
  "#);
    out.append(tags_filter.as_str());
    out.append(r#"
  <div class="filter-group">
    <span class="filter-label">Note min</span>
    <div class="rating-filter" id="rating-filter">
      <button data-rating="0" class="active">&#x2715;</button>
      <button data-rating="1">&#9733;</button>
      <button data-rating="2">&#9733;</button>
      <button data-rating="3">&#9733;</button>
      <button data-rating="4">&#9733;</button>
      <button data-rating="5">&#9733;</button>
    </div>
  </div>
</div>
<main>
"#);
    out.append(grid.as_str());
    out.append(r#"
</main>

<div class="lightbox" id="lightbox">
  <div class="lb-top-bar">
    <a class="lb-download" id="lb-download" download>Télécharger</a>
    <span class="lb-close" id="lb-close">&times;</span>
  </div>
  <span class="lb-nav lb-prev" id="lb-prev">&#8249;</span>
  <span class="lb-nav lb-next" id="lb-next">&#8250;</span>
  <img id="lb-img" src="" alt="">
  <div class="lb-panel">
    <div class="lb-name" id="lb-name"></div>
    <div class="lb-stars" id="lb-stars">
      <span data-star="1">&#9733;</span>
      <span data-star="2">&#9733;</span>
      <span data-star="3">&#9733;</span>
      <span data-star="4">&#9733;</span>
      <span data-star="5">&#9733;</span>
    </div>
    <div class="lb-edit-tags" id="lb-edit-tags"></div>
    <div class="tag-suggestions" id="tag-suggestions"></div>
  </div>
  <div class="lb-slideshow-bar" id="lb-bar" style="width:0%"></div>
  <div class="slideshow-controls">
    <button id="ss-prev">&#9664; Préc</button>
    <button id="ss-playpause">Pause</button>
    <button id="ss-next">Suiv &#9654;</button>
    <button id="ss-random-toggle">Aléatoire</button>
    <button id="ss-speed-down">-</button>
    <span id="ss-speed" style="color:#ccc;font-size:.85rem">5s</span>
    <button id="ss-speed-up">+</button>
  </div>
</div>

<div class="toast" id="toast"></div>

<script>
const ALL_PHOTOS="#);
    out.append(photos_json.as_str());
    out.append(r#";
let filtered=ALL_PHOTOS.slice();
let currentIdx=0;
let slideshowInterval=null;
let slideshowDelay=5000;
let slideshowRandom=false;
let activeTag="";
let minRating=0;
let hasChanges=false;

function toast(msg){
  const t=document.getElementById('toast');
  t.textContent=msg;t.classList.add('show');
  setTimeout(()=>t.classList.remove('show'),2000);
}

function markDirty(){
  hasChanges=true;
  document.getElementById('btn-save').classList.add('has-changes');
}

function refreshFilterBar(){
  const allTags=new Set();
  ALL_PHOTOS.forEach(p=>p.tags.forEach(t=>allTags.add(t)));
  const container=document.getElementById('filter-tags-container');
  if(!container)return;
  container.innerHTML='<button class="tag-btn'+(activeTag?'':' active')+'" data-tag="">Tous</button>';
  [...allTags].sort().forEach(tag=>{
    const btn=document.createElement('button');
    btn.className='tag-btn'+(activeTag===tag?' active':'');
    btn.dataset.tag=tag;btn.textContent=tag;
    container.appendChild(btn);
  });
  container.querySelectorAll('.tag-btn').forEach(btn=>{
    btn.addEventListener('click',()=>{
      container.querySelectorAll('.tag-btn').forEach(b=>b.classList.remove('active'));
      btn.classList.add('active');
      activeTag=btn.dataset.tag;
      applyFilters();
    });
  });
}

function applyFilters(){
  filtered=ALL_PHOTOS.filter(p=>{
    if(activeTag&&!p.tags.includes(activeTag))return false;
    if(minRating>0&&p.rating<minRating)return false;
    return true;
  });
  document.querySelectorAll('.thumb').forEach(el=>{
    const src=el.querySelector('img').getAttribute('src');
    const photo=ALL_PHOTOS.find(p=>p.src===src);
    const match=filtered.some(p=>p.src===src);
    el.classList.toggle('hidden',!match);
    // Update thumbnail stars
    const starsEl=el.querySelector('.thumb-stars');
    if(starsEl&&photo)starsEl.textContent=photo.rating?'★'.repeat(photo.rating):'';
  });
  document.querySelectorAll('.year-header').forEach(h=>{
    const year=h.dataset.year;
    const count=filtered.filter(p=>p.year===year).length;
    h.querySelector('.count').textContent=count;
    h.style.display=count?'':'none';
    const grid=document.querySelector(`.grid[data-year="${year}"]`);
    if(grid)grid.style.display=count?'':'none';
  });
}

// Tag filter
document.querySelectorAll('.tag-btn').forEach(btn=>{
  btn.addEventListener('click',()=>{
    document.querySelectorAll('.tag-btn').forEach(b=>b.classList.remove('active'));
    btn.classList.add('active');
    activeTag=btn.dataset.tag;
    applyFilters();
  });
});

// Rating filter
document.querySelectorAll('#rating-filter button').forEach(btn=>{
  btn.addEventListener('click',()=>{
    document.querySelectorAll('#rating-filter button').forEach(b=>b.classList.remove('active'));
    btn.classList.add('active');
    minRating=parseInt(btn.dataset.rating);
    applyFilters();
  });
});

// Lightbox
const lb=document.getElementById('lightbox');
const lbImg=document.getElementById('lb-img');
const lbName=document.getElementById('lb-name');
const lbBar=document.getElementById('lb-bar');

function renderLbStars(rating){
  document.querySelectorAll('#lb-stars span').forEach(s=>{
    s.classList.toggle('filled',parseInt(s.dataset.star)<=rating);
  });
}

function renderLbTags(photo){
  const container=document.getElementById('lb-edit-tags');
  container.innerHTML='';
  photo.tags.forEach(tag=>{
    const badge=document.createElement('span');
    badge.className='tag-badge';
    badge.innerHTML=tag+' <span class="tag-remove" data-tag="'+tag+'">&times;</span>';
    container.appendChild(badge);
  });
  // Add tag form
  const form=document.createElement('span');
  form.className='lb-tag-form';
  form.innerHTML='<input type="text" id="lb-tag-input" placeholder="tag...">'
    +'<button id="lb-tag-add">+</button>';
  container.appendChild(form);
  // Event: remove tag
  container.querySelectorAll('.tag-remove').forEach(btn=>{
    btn.addEventListener('click',()=>removeTag(photo,btn.dataset.tag));
  });
  // Event: add tag
  const addBtn=document.getElementById('lb-tag-add');
  const input=document.getElementById('lb-tag-input');
  addBtn.addEventListener('click',()=>addTag(photo,input.value.trim()));
  input.addEventListener('keydown',e=>{if(e.key==='Enter'){e.preventDefault();addTag(photo,input.value.trim());}});
  renderTagSuggestions(photo);
}

function renderTagSuggestions(photo){
  const container=document.getElementById('tag-suggestions');
  container.innerHTML='';
  const allTags=new Set();
  ALL_PHOTOS.forEach(p=>p.tags.forEach(t=>allTags.add(t)));
  const suggestions=[...allTags].filter(t=>!photo.tags.includes(t)).sort();
  suggestions.forEach(tag=>{
    const chip=document.createElement('span');
    chip.className='tag-sug';
    chip.textContent=tag;
    chip.addEventListener('click',()=>addTag(photo,tag));
    container.appendChild(chip);
  });
}

function addTag(photo,tag){
  if(!tag||photo.tags.includes(tag))return;
  photo.tags.push(tag);
  markDirty();
  renderLbTags(photo);
  refreshFilterBar();
  applyFilters();
  toast('Tag «'+tag+'» ajouté');
}

function removeTag(photo,tag){
  photo.tags=photo.tags.filter(t=>t!==tag);
  markDirty();
  renderLbTags(photo);
  refreshFilterBar();
  applyFilters();
  toast('Tag «'+tag+'» retiré');
}

function setRating(photo,rating){
  photo.rating=(photo.rating===rating)?0:rating;
  markDirty();
  renderLbStars(photo.rating);
  applyFilters();
  toast(photo.rating?'Note : '+photo.rating+'/5':'Note supprimée');
}

function showPhoto(idx){
  if(filtered.length===0)return;
  currentIdx=((idx%filtered.length)+filtered.length)%filtered.length;
  const p=filtered[currentIdx];
  lbImg.src=p.src;
  lbName.textContent=p.name+' ('+p.year+')';
  renderLbStars(p.rating);
  renderLbTags(p);
  document.getElementById('lb-download').href=p.src;
}

// Star click
document.querySelectorAll('#lb-stars span').forEach(star=>{
  star.addEventListener('click',()=>{
    if(filtered.length===0)return;
    setRating(filtered[currentIdx],parseInt(star.dataset.star));
  });
  star.addEventListener('mouseenter',()=>{
    const v=parseInt(star.dataset.star);
    document.querySelectorAll('#lb-stars span').forEach(s=>{
      s.classList.toggle('hover',parseInt(s.dataset.star)<=v);
    });
  });
  star.addEventListener('mouseleave',()=>{
    document.querySelectorAll('#lb-stars span').forEach(s=>s.classList.remove('hover'));
  });
});

function openLightbox(idx){
  showPhoto(idx);
  lb.classList.add('open');
  document.body.style.overflow='hidden';
}

function closeLightbox(){
  lb.classList.remove('open');
  document.body.style.overflow='';
  stopSlideshow();
}

document.getElementById('lb-close').addEventListener('click',closeLightbox);
document.getElementById('lb-prev').addEventListener('click',()=>{showPhoto(currentIdx-1);resetSlideshowTimer();});
document.getElementById('lb-next').addEventListener('click',()=>{showPhoto(currentIdx+1);resetSlideshowTimer();});

document.querySelectorAll('.thumb').forEach(el=>{
  el.addEventListener('click',()=>{
    const src=el.querySelector('img').getAttribute('src');
    const idx=filtered.findIndex(p=>p.src===src);
    if(idx>=0)openLightbox(idx);
  });
});

document.addEventListener('keydown',e=>{
  if(!lb.classList.contains('open'))return;
  if(e.key==='Escape')closeLightbox();
  if(e.key==='ArrowLeft'){showPhoto(currentIdx-1);resetSlideshowTimer();}
  if(e.key==='ArrowRight'){showPhoto(currentIdx+1);resetSlideshowTimer();}
  if(e.key>='1'&&e.key<='5')setRating(filtered[currentIdx],parseInt(e.key));
  if(e.key==='0')setRating(filtered[currentIdx],0);
});

// Slideshow
function startSlideshow(random){
  slideshowRandom=random;
  if(filtered.length===0)return;
  if(!lb.classList.contains('open'))openLightbox(random?Math.floor(Math.random()*filtered.length):0);
  document.getElementById('ss-random-toggle').classList.toggle('active',slideshowRandom);
  document.getElementById('ss-playpause').textContent='Pause';
  document.querySelector('.slideshow-controls').style.display='flex';
  runSlideshowTick();
}

function runSlideshowTick(){
  clearInterval(slideshowInterval);
  lbBar.style.transition='none';lbBar.style.width='0%';
  requestAnimationFrame(()=>{requestAnimationFrame(()=>{
    lbBar.style.transition='width '+slideshowDelay+'ms linear';lbBar.style.width='100%';
  })});
  slideshowInterval=setTimeout(()=>{
    if(slideshowRandom)showPhoto(Math.floor(Math.random()*filtered.length));
    else showPhoto(currentIdx+1);
    runSlideshowTick();
  },slideshowDelay);
}

function resetSlideshowTimer(){if(slideshowInterval)runSlideshowTick();}

function stopSlideshow(){
  clearInterval(slideshowInterval);slideshowInterval=null;
  lbBar.style.width='0%';
  document.querySelector('.slideshow-controls').style.display='none';
  document.getElementById('ss-playpause').textContent='Pause';
}

document.getElementById('btn-slideshow').addEventListener('click',()=>startSlideshow(false));
document.getElementById('btn-random').addEventListener('click',()=>startSlideshow(true));

document.getElementById('ss-playpause').addEventListener('click',()=>{
  const btn=document.getElementById('ss-playpause');
  if(slideshowInterval){clearInterval(slideshowInterval);slideshowInterval=null;lbBar.style.transition='none';btn.textContent='Reprendre';}
  else{btn.textContent='Pause';runSlideshowTick();}
});

document.getElementById('ss-prev').addEventListener('click',()=>{showPhoto(currentIdx-1);resetSlideshowTimer();});
document.getElementById('ss-next').addEventListener('click',()=>{showPhoto(currentIdx+1);resetSlideshowTimer();});

document.getElementById('ss-random-toggle').addEventListener('click',()=>{
  slideshowRandom=!slideshowRandom;
  document.getElementById('ss-random-toggle').classList.toggle('active',slideshowRandom);
});

document.getElementById('ss-speed-down').addEventListener('click',()=>{
  slideshowDelay=Math.min(slideshowDelay+1000,15000);
  document.getElementById('ss-speed').textContent=(slideshowDelay/1000)+'s';
  if(slideshowInterval)runSlideshowTick();
});

document.getElementById('ss-speed-up').addEventListener('click',()=>{
  slideshowDelay=Math.max(slideshowDelay-1000,1000);
  document.getElementById('ss-speed').textContent=(slideshowDelay/1000)+'s';
  if(slideshowInterval)runSlideshowTick();
});

// Save metadata
function saveMetadata(){
  const meta={files:{}};
  ALL_PHOTOS.forEach(p=>{
    if(p.tags.length||p.rating){
      const entry={};
      if(p.tags.length)entry.tags=p.tags;
      if(p.rating)entry.rating=p.rating;
      meta.files[p.src]=entry;
    }
  });
  const json=JSON.stringify(meta,null,2);
  const blob=new Blob([json],{type:'application/json'});
  const a=document.createElement('a');
  a.href=URL.createObjectURL(blob);
  a.download='.photo_sort_metadata.json';
  a.click();
  URL.revokeObjectURL(a.href);
  hasChanges=false;
  document.getElementById('btn-save').classList.remove('has-changes');
  toast('Metadata sauvegardé');
}

document.getElementById('btn-save').addEventListener('click',saveMetadata);

// Export filtered
function exportFiltered(){
  if(filtered.length===0){toast('Aucune photo à exporter');return;}
  const list=filtered.map(p=>p.src).join('\n');
  const blob=new Blob([list],{type:'text/plain'});
  const a=document.createElement('a');
  a.href=URL.createObjectURL(blob);
  a.download='export_list.txt';
  a.click();
  URL.revokeObjectURL(a.href);
  toast(filtered.length+' fichiers dans export_list.txt');
}

document.getElementById('btn-export').addEventListener('click',exportFiltered);

// Warn on unsaved changes
window.addEventListener('beforeunload',e=>{
  if(hasChanges){e.preventDefault();e.returnValue='';}
});

// Init
document.querySelector('.slideshow-controls').style.display='none';
</script>
</body>
</html>"#);
    proof {
        assert(out@ =~= gallery_html_spec(index@, metadata@, tagsv));
    }
    out
}

} // verus!
