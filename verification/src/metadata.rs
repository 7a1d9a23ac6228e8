//! Per-photo metadata: an ordered association from relative photo paths to
//! tag lists and ratings. Keys are unique and each entry's tags are unique;
//! tag insertion order is preserved.

use vstd::prelude::*;
use crate::strutil::{contains_string, str_eq, views_of};

verus! {

/// Tags and rating of one photograph.
#[derive(Clone, Debug, PartialEq)]
pub struct FileInfo {
    pub tags: Vec<String>,
    pub rating: Option<u8>,
}

/// The mathematical content of a `FileInfo`.
#[verifier::ext_equal]
pub struct FileInfoV {
    pub tags: Seq<Seq<char>>,
    pub rating: Option<u8>,
}

impl View for FileInfo {
    type V = FileInfoV;

    open spec fn view(&self) -> FileInfoV {
        FileInfoV { tags: views_of(self.tags@), rating: self.rating }
    }
}

/// The store's model: entries in insertion order.
pub type MetaModel = Seq<(Seq<char>, FileInfoV)>;

/// Index of the first entry with key `k`, or `-1` when absent.
pub open spec fn key_idx<V>(m: Seq<(Seq<char>, V)>, k: Seq<char>) -> int
    decreases m.len(),
{
    if m.len() == 0 {
        -1
    } else if m[0].0 == k {
        0
    } else if key_idx(m.drop_first(), k) == -1 {
        -1
    } else {
        key_idx(m.drop_first(), k) + 1
    }
}

/// What `key_idx` returns: the least index bearing `k`, or `-1` when no
/// entry bears it.
pub proof fn lemma_key_idx<V>(m: Seq<(Seq<char>, V)>, k: Seq<char>)
    ensures
        -1 <= key_idx(m, k) < m.len(),
        key_idx(m, k) >= 0 ==> m[key_idx(m, k)].0 == k,
        forall|j: int| 0 <= j < key_idx(m, k) ==> m[j].0 != k,
        key_idx(m, k) == -1 ==> forall|j: int| 0 <= j < m.len() ==> m[j].0 != k,
    decreases m.len(),
{
    if m.len() > 0 && m[0].0 != k {
        let rest = m.drop_first();
        lemma_key_idx(rest, k);
        assert(forall|j: int| 0 <= j < rest.len() ==> rest[j] == m[j + 1]);
        let f = key_idx(m, k);
        if key_idx(rest, k) == -1 {
            assert forall|j: int| 0 <= j < m.len() implies m[j].0 != k by {
                if j > 0 {
                    assert(rest[j - 1].0 != k);
                }
            }
        } else {
            assert forall|j: int| 0 <= j < f implies m[j].0 != k by {
                if j > 0 {
                    assert(rest[j - 1].0 != k);
                }
            }
        }
    }
}

/// The record under key `k`, when one exists.
pub open spec fn meta_find(m: MetaModel, k: Seq<char>) -> Option<FileInfoV> {
    if key_idx(m, k) >= 0 {
        Some(m[key_idx(m, k)].1)
    } else {
        None
    }
}

/// No two elements of `s` are equal.
pub open spec fn unique_seq(s: Seq<Seq<char>>) -> bool {
    forall|p: int, q: int| 0 <= p < q < s.len() ==> s[p] != s[q]
}

/// The predicate that keeps every tag but `t`.
pub open spec fn keep_other_tags(t: Seq<char>) -> spec_fn(Seq<char>) -> bool {
    |x: Seq<char>| x != t
}

/// The predicate holding of entries that carry tag `t`.
pub open spec fn has_tag_pred(t: Seq<char>) -> spec_fn((Seq<char>, FileInfoV)) -> bool {
    |p: (Seq<char>, FileInfoV)| p.1.tags.contains(t)
}

/// The predicate holding of entries rated at least `min`.
pub open spec fn min_rating_pred(min: u8) -> spec_fn((Seq<char>, FileInfoV)) -> bool {
    |p: (Seq<char>, FileInfoV)| p.1.rating is Some && p.1.rating->0 >= min
}

/// The key of an entry.
pub open spec fn entry_key() -> spec_fn((Seq<char>, FileInfoV)) -> Seq<char> {
    |p: (Seq<char>, FileInfoV)| p.0
}

/// Well-formed store: unique keys, and unique tags within each entry.
pub open spec fn meta_wf(m: MetaModel) -> bool {
    &&& forall|i: int, j: int| 0 <= i < j < m.len() ==> m[i].0 != m[j].0
    &&& forall|i: int| 0 <= i < m.len() ==> unique_seq(#[trigger] m[i].1.tags)
}

/// What `add_tag` does: create the entry when absent; append the tag when
/// new; change nothing when the tag is already there.
pub open spec fn add_tag_model(m: MetaModel, f: Seq<char>, t: Seq<char>) -> MetaModel {
    let i = key_idx(m, f);
    if i == -1 {
        m.push((f, FileInfoV { tags: seq![t], rating: None }))
    } else if m[i].1.tags.contains(t) {
        m
    } else {
        m.update(i, (f, FileInfoV { tags: m[i].1.tags.push(t), rating: m[i].1.rating }))
    }
}

/// What `remove_tag` does: drop the tag from the entry when both exist;
/// change nothing otherwise.
pub open spec fn remove_tag_model(m: MetaModel, f: Seq<char>, t: Seq<char>) -> MetaModel {
    let i = key_idx(m, f);
    if i == -1 {
        m
    } else {
        m.update(
            i,
            (f, FileInfoV { tags: m[i].1.tags.filter(keep_other_tags(t)), rating: m[i].1.rating }),
        )
    }
}

/// What `set_rating` does: create the entry when absent; overwrite its
/// rating otherwise.
pub open spec fn set_rating_model(m: MetaModel, f: Seq<char>, r: Option<u8>) -> MetaModel {
    let i = key_idx(m, f);
    if i == -1 {
        m.push((f, FileInfoV { tags: Seq::empty(), rating: r }))
    } else {
        m.update(i, (f, FileInfoV { tags: m[i].1.tags, rating: r }))
    }
}

/// What `remove_file` does: drop the entry when present.
pub open spec fn remove_file_model(m: MetaModel, f: Seq<char>) -> MetaModel {
    let i = key_idx(m, f);
    if i == -1 {
        m
    } else {
        m.remove(i)
    }
}

/// What `rename_file` does: re-key the entry, overwriting any entry that
/// already bears the new key.
pub open spec fn rename_file_model(m: MetaModel, f: Seq<char>, g: Seq<char>) -> MetaModel {
    let i = key_idx(m, f);
    if i == -1 {
        m
    } else {
        let info = m[i].1;
        let m1 = m.remove(i);
        let j = key_idx(m1, g);
        if j == -1 {
            m1.push((g, info))
        } else {
            m1.update(j, (g, info))
        }
    }
}

/// The metadata store.
#[derive(Debug)]
pub struct Metadata {
    files: Vec<(String, FileInfo)>,
}

impl View for Metadata {
    type V = MetaModel;

    closed spec fn view(&self) -> MetaModel {
        self.files@.map_values(|p: (String, FileInfo)| (p.0@, p.1@))
    }
}

impl Default for Metadata {
    /// The empty store.
    fn default() -> (r: Self)
        ensures
            r@.len() == 0,
    {
        Metadata { files: Vec::new() }
    }
}

impl Metadata {
    /// The empty store.
    pub fn new() -> (r: Self)
        ensures
            r@.len() == 0,
            meta_wf(r@),
    {
        Metadata { files: Vec::new() }
    }

    /// How many photographs have a record.
    pub fn len(&self) -> (r: usize)
        ensures
            r == self@.len(),
    {
        self.files.len()
    }

    /// Is the store empty?
    pub fn is_empty(&self) -> (r: bool)
        ensures
            r == (self@.len() == 0),
    {
        self.files.is_empty()
    }

    /// Index of the entry for `file`, when one exists.
    fn find_idx(&self, file: &str) -> (r: Option<usize>)
        ensures
            match r {
                Some(i) => i < self@.len() && i as int == key_idx(self@, file@)
                    && self@[i as int].0 == file@,
                None => key_idx(self@, file@) == -1,
            },
    {
        proof {
            lemma_key_idx(self@, file@);
        }
        let mut i: usize = 0;
        while i < self.files.len()
            invariant
                i <= self@.len(),
                self@.len() == self.files@.len(),
                forall|j: int| 0 <= j < i ==> self@[j].0 != file@,
                forall|j: int|
                    0 <= j < self@.len() ==> self@[j] == (self.files@[j].0@, self.files@[j].1@),
            decreases self@.len() - i,
        {
            if str_eq(self.files[i].0.as_str(), file) {
                proof {
                    assert(self@[i as int].0 == file@);
                    lemma_key_idx(self@, file@);
                }
                return Some(i);
            }
            i = i + 1;
        }
        proof {
            lemma_key_idx(self@, file@);
        }
        None
    }

    /// The tags of `file`, in insertion order; empty for an unknown file.
    pub fn get_tags(&self, file: &str) -> (r: Vec<String>)
        ensures
            views_of(r@) == match meta_find(self@, file@) {
                Some(info) => info.tags,
                None => Seq::<Seq<char>>::empty(),
            },
    {
        match self.find_idx(file) {
            Some(i) => clone_strings(&self.files[i].1.tags),
            None => {
                let r: Vec<String> = Vec::new();
                proof {
                    assert(views_of(r@) =~= Seq::<Seq<char>>::empty());
                }
                r
            },
        }
    }

    /// The rating of `file`; nothing for an unknown or unrated file.
    pub fn get_rating(&self, file: &str) -> (r: Option<u8>)
        ensures
            r == match meta_find(self@, file@) {
                Some(info) => info.rating,
                None => None::<u8>,
            },
    {
        match self.find_idx(file) {
            Some(i) => self.files[i].1.rating,
            None => None,
        }
    }

    /// Add a tag to a file's record, creating the record if need be; a tag
    /// already present is not added again.
    pub fn add_tag(&mut self, file: &str, tag: &str)
        requires
            meta_wf(old(self)@),
        ensures
            final(self)@ == add_tag_model(old(self)@, file@, tag@),
            meta_wf(final(self)@),
    {
        proof {
            lemma_key_idx(self@, file@);
        }
        match self.find_idx(file) {
            None => {
                let mut tags: Vec<String> = Vec::new();
                tags.push(tag.to_owned());
                proof {
                    assert(views_of(tags@) =~= seq![tag@]);
                }
                let info = FileInfo { tags, rating: None };
                self.files.push((file.to_owned(), info));
                proof {
                    assert(self@ =~= add_tag_model(old(self)@, file@, tag@));
                    lemma_key_idx(old(self)@, file@);
                    assert forall|i: int, j: int|
                        0 <= i < j < self@.len() implies self@[i].0 != self@[j].0 by {
                        if j == self@.len() - 1 {
                            assert(old(self)@[i].0 != file@);
                        }
                    }
                    assert(meta_wf(self@));
                }
            },
            Some(i) => {
                if contains_string(&self.files[i].1.tags, tag) {
                    proof {
                        assert(self@ =~= old(self)@);
                    }
                } else {
                    let ghost oldm = self@;
                    let ghost gi = i as int;
                    let key = self.files[i].0.clone();
                    let mut tags = clone_strings(&self.files[i].1.tags);
                    proof {
                        assert(oldm[gi] == (self.files@[gi].0@, self.files@[gi].1@));
                        assert(views_of(tags@) == oldm[gi].1.tags);
                        assert(key@ == file@);
                        assert(!oldm[gi].1.tags.contains(tag@));
                    }
                    tags.push(tag.to_owned());
                    let ghost tv = views_of(tags@);
                    proof {
                        assert(tv =~= oldm[gi].1.tags.push(tag@));
                    }
                    let rating = self.files[i].1.rating;
                    self.files[i] = (key, FileInfo { tags, rating });
                    proof {
                        assert(rating == oldm[gi].1.rating);
                        assert(self@[gi] == (file@, FileInfoV { tags: tv, rating: oldm[gi].1.rating }));
                        assert(self@ =~~= add_tag_model(oldm, file@, tag@));
                        assert forall|a: int, b: int|
                            0 <= a < b < self@.len() implies self@[a].0 != self@[b].0 by {
                            assert(oldm[a].0 == self@[a].0);
                            assert(oldm[b].0 == self@[b].0);
                        }
                        assert forall|a: int|
                            0 <= a < self@.len() implies unique_seq(
                            #[trigger] self@[a].1.tags,
                        ) by {
                            if a == gi {
                                let newtags = self@[a].1.tags;
                                assert(newtags =~= oldm[gi].1.tags.push(tag@));
                                assert(unique_seq(oldm[gi].1.tags));
                                assert(!oldm[gi].1.tags.contains(tag@));
                                assert forall|p: int, q: int|
                                    0 <= p < q < newtags.len() implies newtags[p] != newtags[q] by {
                                    if q == newtags.len() - 1 {
                                        assert(oldm[gi].1.tags[p] == newtags[p]);
                                        if newtags[p] == tag@ {
                                            assert(oldm[gi].1.tags.contains(tag@));
                                        }
                                    }
                                }
                            } else {
                                assert(self@[a].1.tags == oldm[a].1.tags);
                            }
                        }
                    }
                }
            },
        }
    }

    /// Drop a tag from a file's record; a missing file or tag changes
    /// nothing.
    pub fn remove_tag(&mut self, file: &str, tag: &str)
        requires
            meta_wf(old(self)@),
        ensures
            final(self)@ == remove_tag_model(old(self)@, file@, tag@),
            meta_wf(final(self)@),
    {
        match self.find_idx(file) {
            None => {
                proof {
                    assert(self@ =~= remove_tag_model(old(self)@, file@, tag@));
                }
            },
            Some(i) => {
                let ghost oldm = self@;
                let ghost gi = i as int;
                let ghost pred = keep_other_tags(tag@);
                let old_tags = &self.files[i].1.tags;
                let mut kept: Vec<String> = Vec::new();
                let mut j: usize = 0;
                while j < old_tags.len()
                    invariant
                        j <= old_tags@.len(),
                        pred == keep_other_tags(tag@),
                        views_of(kept@) == views_of(old_tags@).subrange(0, j as int).filter(pred),
                    decreases old_tags@.len() - j,
                {
                    proof {
                        lemma_filter_push(
                            views_of(old_tags@).subrange(0, j as int),
                            old_tags@[j as int]@,
                            pred,
                        );
                        assert(views_of(old_tags@).subrange(0, j as int + 1) =~= views_of(
                            old_tags@,
                        ).subrange(0, j as int).push(old_tags@[j as int]@));
                    }
                    if !str_eq(old_tags[j].as_str(), tag) {
                        kept.push(old_tags[j].clone());
                        proof {
                            assert(views_of(kept@) =~= views_of(old_tags@).subrange(
                                0,
                                j as int + 1,
                            ).filter(pred));
                        }
                    } else {
                        proof {
                            assert(views_of(kept@) =~= views_of(old_tags@).subrange(
                                0,
                                j as int + 1,
                            ).filter(pred));
                        }
                    }
                    j = j + 1;
                }
                proof {
                    assert(views_of(old_tags@).subrange(0, old_tags@.len() as int) =~= views_of(
                        old_tags@,
                    ));
                }
                let elem = &mut self.files[i];
                elem.1.tags = kept;
                proof {
                    assert(self@ =~= remove_tag_model(oldm, file@, tag@));
                    lemma_filter_unique(oldm[gi].1.tags, keep_other_tags(tag@));
                    assert forall|a: int, b: int|
                        0 <= a < b < self@.len() implies self@[a].0 != self@[b].0 by {
                        assert(oldm[a].0 == self@[a].0);
                        assert(oldm[b].0 == self@[b].0);
                    }
                    assert forall|a: int|
                        0 <= a < self@.len() implies unique_seq(
                        #[trigger] self@[a].1.tags,
                    ) by {
                        if a != gi {
                            assert(self@[a].1.tags == oldm[a].1.tags);
                        }
                    }
                }
            },
        }
    }

    /// Set or clear a file's rating, creating the record if need be.
    pub fn set_rating(&mut self, file: &str, rating: Option<u8>)
        requires
            meta_wf(old(self)@),
        ensures
            final(self)@ == set_rating_model(old(self)@, file@, rating),
            meta_wf(final(self)@),
    {
        match self.find_idx(file) {
            None => {
                let info = FileInfo { tags: Vec::new(), rating };
                self.files.push((file.to_owned(), info));
                proof {
                    assert(views_of(Seq::<String>::empty()) =~= Seq::<Seq<char>>::empty());
                    assert(self@ =~= set_rating_model(old(self)@, file@, rating));
                    lemma_key_idx(old(self)@, file@);
                    assert forall|a: int, b: int|
                        0 <= a < b < self@.len() implies self@[a].0 != self@[b].0 by {
                        if b == self@.len() - 1 {
                            assert(old(self)@[a].0 != file@);
                        }
                    }
                    assert forall|a: int|
                        0 <= a < self@.len() implies unique_seq(
                        #[trigger] self@[a].1.tags,
                    ) by {
                        if a < self@.len() - 1 {
                            assert(self@[a].1.tags == old(self)@[a].1.tags);
                        }
                    }
                }
            },
            Some(i) => {
                let ghost oldm = self@;
                let ghost gi = i as int;
                let elem = &mut self.files[i];
                elem.1.rating = rating;
                proof {
                    assert(self@ =~= set_rating_model(oldm, file@, rating));
                    assert forall|a: int, b: int|
                        0 <= a < b < self@.len() implies self@[a].0 != self@[b].0 by {
                        assert(oldm[a].0 == self@[a].0);
                        assert(oldm[b].0 == self@[b].0);
                    }
                    assert forall|a: int|
                        0 <= a < self@.len() implies unique_seq(
                        #[trigger] self@[a].1.tags,
                    ) by {
                        if a != gi {
                            assert(self@[a].1.tags == oldm[a].1.tags);
                        } else {
                            assert(self@[a].1.tags == oldm[a].1.tags);
                        }
                    }
                }
            },
        }
    }

    /// Drop the record of `file`, if any.
    pub fn remove_file(&mut self, file: &str)
        requires
            meta_wf(old(self)@),
        ensures
            final(self)@ == remove_file_model(old(self)@, file@),
            meta_wf(final(self)@),
    {
        match self.find_idx(file) {
            None => {
                proof {
                    assert(self@ =~= remove_file_model(old(self)@, file@));
                }
            },
            Some(i) => {
                let ghost oldm = self@;
                self.files.remove(i);
                proof {
                    assert(self@ =~= remove_file_model(oldm, file@));
                    lemma_wf_remove(oldm, i as int);
                }
            },
        }
    }

    /// Move the record of `from` under the key `to`, overwriting any record
    /// already there; a missing `from` changes nothing.
    pub fn rename_file(&mut self, from: &str, to: &str)
        requires
            meta_wf(old(self)@),
        ensures
            final(self)@ == rename_file_model(old(self)@, from@, to@),
            meta_wf(final(self)@),
    {
        match self.find_idx(from) {
            None => {
                proof {
                    assert(self@ =~= rename_file_model(old(self)@, from@, to@));
                }
            },
            Some(i) => {
                let ghost oldm = self@;
                let pair = self.files.remove(i);
                let info = pair.1;
                let ghost mid = self@;
                proof {
                    assert(mid =~= oldm.remove(i as int));
                    lemma_wf_remove(oldm, i as int);
                }
                match self.find_idx(to) {
                    None => {
                        self.files.push((to.to_owned(), info));
                        proof {
                            assert(self@ =~= rename_file_model(oldm, from@, to@));
                            lemma_key_idx(mid, to@);
                            assert forall|a: int, b: int|
                                0 <= a < b < self@.len() implies self@[a].0 != self@[b].0 by {
                                if b == self@.len() - 1 {
                                    assert(mid[a].0 != to@);
                                }
                            }
                            assert forall|a: int|
                                0 <= a < self@.len() implies unique_seq(
                                #[trigger] self@[a].1.tags,
                            ) by {
                                if a < self@.len() - 1 {
                                    assert(self@[a].1.tags == mid[a].1.tags);
                                } else {
                                    assert(self@[a].1.tags == oldm[i as int].1.tags);
                                }
                            }
                        }
                    },
                    Some(j) => {
                        let ghost gj = j as int;
                        let elem = &mut self.files[j];
                        elem.0 = to.to_owned();
                        elem.1 = info;
                        proof {
                            assert(self@ =~= rename_file_model(oldm, from@, to@));
                            lemma_key_idx(mid, to@);
                            assert forall|a: int, b: int|
                                0 <= a < b < self@.len() implies self@[a].0 != self@[b].0 by {
                                if a != gj && b != gj {
                                    assert(self@[a].0 == mid[a].0);
                                    assert(self@[b].0 == mid[b].0);
                                } else if a == gj {
                                    assert(mid[gj].0 == to@);
                                    assert(self@[b].0 == mid[b].0);
                                } else {
                                    assert(mid[gj].0 == to@);
                                    assert(self@[a].0 == mid[a].0);
                                }
                            }
                            assert forall|a: int|
                                0 <= a < self@.len() implies unique_seq(
                                #[trigger] self@[a].1.tags,
                            ) by {
                                if a != gj {
                                    assert(self@[a].1.tags == mid[a].1.tags);
                                } else {
                                    assert(self@[a].1.tags == oldm[i as int].1.tags);
                                }
                            }
                        }
                    },
                }
            },
        }
    }

    /// The files whose record holds `tag`, in store order.
    pub fn files_with_tag(&self, tag: &str) -> (r: Vec<String>)
        ensures
            views_of(r@) == self@.filter(has_tag_pred(tag@)).map_values(entry_key()),
    {
        let ghost pred = has_tag_pred(tag@);
        let mut r: Vec<String> = Vec::new();
        let mut i: usize = 0;
        while i < self.files.len()
            invariant
                i <= self@.len(),
                self@.len() == self.files@.len(),
                forall|j: int|
                    0 <= j < self@.len() ==> self@[j] == (self.files@[j].0@, self.files@[j].1@),
                views_of(r@) == self@.subrange(0, i as int).filter(pred).map_values(entry_key()),
                pred == has_tag_pred(tag@),
            decreases self@.len() - i,
        {
            proof {
                lemma_filter_push_entry(self@.subrange(0, i as int), self@[i as int], pred);
                assert(self@.subrange(0, i as int + 1) =~= self@.subrange(0, i as int).push(
                    self@[i as int],
                ));
            }
            let keep = contains_string(&self.files[i].1.tags, tag);
            proof {
                assert(self@[i as int] == (self.files@[i as int].0@, self.files@[i as int].1@));
                assert(keep == pred(self@[i as int]));
            }
            if keep {
                r.push(self.files[i].0.clone());
                proof {
                    let ghost f = self@.subrange(0, i as int).filter(pred);
                    assert(self@.subrange(0, i as int + 1).filter(pred) == f.push(
                        self@[i as int],
                    ));
                    assert(views_of(r@) =~~= f.map_values(entry_key()).push(self@[i as int].0));
                    assert((f.push(self@[i as int])).map_values(entry_key()) =~~= f.map_values(
                        entry_key(),
                    ).push(self@[i as int].0));
                    assert(views_of(r@) =~~= self@.subrange(0, i as int + 1).filter(
                        pred,
                    ).map_values(entry_key()));
                }
            } else {
                proof {
                    assert(self@.subrange(0, i as int + 1).filter(pred) == self@.subrange(
                        0,
                        i as int,
                    ).filter(pred));
                    assert(views_of(r@) =~~= self@.subrange(0, i as int + 1).filter(
                        pred,
                    ).map_values(entry_key()));
                }
            }
            i = i + 1;
        }
        proof {
            assert(self@.subrange(0, self@.len() as int) =~= self@);
        }
        r
    }

    /// The files rated at least `min`, in store order.
    pub fn files_with_min_rating(&self, min: u8) -> (r: Vec<String>)
        ensures
            views_of(r@) == self@.filter(min_rating_pred(min)).map_values(entry_key()),
    {
        let ghost pred = min_rating_pred(min);
        let mut r: Vec<String> = Vec::new();
        let mut i: usize = 0;
        while i < self.files.len()
            invariant
                i <= self@.len(),
                self@.len() == self.files@.len(),
                forall|j: int|
                    0 <= j < self@.len() ==> self@[j] == (self.files@[j].0@, self.files@[j].1@),
                views_of(r@) == self@.subrange(0, i as int).filter(pred).map_values(entry_key()),
                pred == min_rating_pred(min),
            decreases self@.len() - i,
        {
            proof {
                lemma_filter_push_entry(self@.subrange(0, i as int), self@[i as int], pred);
                assert(self@.subrange(0, i as int + 1) =~= self@.subrange(0, i as int).push(
                    self@[i as int],
                ));
            }
            let keep = match self.files[i].1.rating {
                Some(x) => x >= min,
                None => false,
            };
            proof {
                assert(self@[i as int] == (self.files@[i as int].0@, self.files@[i as int].1@));
                assert(keep == pred(self@[i as int]));
            }
            if keep {
                r.push(self.files[i].0.clone());
                proof {
                    let ghost f = self@.subrange(0, i as int).filter(pred);
                    assert(self@.subrange(0, i as int + 1).filter(pred) == f.push(
                        self@[i as int],
                    ));
                    assert(views_of(r@) =~~= f.map_values(entry_key()).push(self@[i as int].0));
                    assert((f.push(self@[i as int])).map_values(entry_key()) =~~= f.map_values(
                        entry_key(),
                    ).push(self@[i as int].0));
                    assert(views_of(r@) =~~= self@.subrange(0, i as int + 1).filter(
                        pred,
                    ).map_values(entry_key()));
                }
            } else {
                proof {
                    assert(self@.subrange(0, i as int + 1).filter(pred) == self@.subrange(
                        0,
                        i as int,
                    ).filter(pred));
                    assert(views_of(r@) =~~= self@.subrange(0, i as int + 1).filter(
                        pred,
                    ).map_values(entry_key()));
                }
            }
            i = i + 1;
        }
        proof {
            assert(self@.subrange(0, self@.len() as int) =~= self@);
        }
        r
    }

    /// Every entry, flattened to plain values: path, tags, rating.
    pub fn entries_plain(&self) -> (r: Vec<(String, Vec<String>, Option<u8>)>)
        ensures
            r@.len() == self@.len(),
            forall|i: int|
                0 <= i < r@.len() ==> (#[trigger] r@[i]).0@ == self@[i].0 && views_of(r@[i].1@)
                    == self@[i].1.tags && r@[i].2 == self@[i].1.rating,
    {
        let mut r: Vec<(String, Vec<String>, Option<u8>)> = Vec::new();
        let mut i: usize = 0;
        while i < self.files.len()
            invariant
                i <= self@.len(),
                self@.len() == self.files@.len(),
                forall|j: int|
                    0 <= j < self@.len() ==> self@[j] == (self.files@[j].0@, self.files@[j].1@),
                r@.len() == i,
                forall|j: int|
                    0 <= j < i ==> (#[trigger] r@[j]).0@ == self@[j].0 && views_of(r@[j].1@)
                        == self@[j].1.tags && r@[j].2 == self@[j].1.rating,
            decreases self@.len() - i,
        {
            let key = self.files[i].0.clone();
            let tags = clone_strings(&self.files[i].1.tags);
            let rating = self.files[i].1.rating;
            r.push((key, tags, rating));
            i = i + 1;
        }
        r
    }
}

/// Clone a vector of strings, value for value.
pub fn clone_strings(v: &Vec<String>) -> (r: Vec<String>)
    ensures
        r@ == v@,
{
    let mut r: Vec<String> = Vec::new();
    let mut i: usize = 0;
    while i < v.len()
        invariant
            i <= v@.len(),
            r@ == v@.subrange(0, i as int),
        decreases v@.len() - i,
    {
        r.push(v[i].clone());
        i = i + 1;
        proof {
            assert(r@ =~= v@.subrange(0, i as int));
        }
    }
    proof {
        assert(r@ =~= v@);
    }
    r
}

/// Removing an entry keeps a store well formed.
proof fn lemma_wf_remove(m: MetaModel, i: int)
    requires
        meta_wf(m),
        0 <= i < m.len(),
    ensures
        meta_wf(m.remove(i)),
{
    let r = m.remove(i);
    assert(r.len() == m.len() - 1);
    assert forall|a: int| 0 <= a < r.len() implies r[a] == if a < i {
        m[a]
    } else {
        m[a + 1]
    } by {}
    assert forall|a: int, b: int| 0 <= a < b < r.len() implies r[a].0 != r[b].0 by {
        let ma = if a < i {
            a
        } else {
            a + 1
        };
        let mb = if b < i {
            b
        } else {
            b + 1
        };
        assert(r[a] == m[ma]);
        assert(r[b] == m[mb]);
    }
    assert forall|a: int| 0 <= a < r.len() implies unique_seq(#[trigger] r[a].1.tags) by {
        let ma = if a < i {
            a
        } else {
            a + 1
        };
        assert(r[a] == m[ma]);
        assert(unique_seq(m[ma].1.tags));
    }
}

/// One step of `Seq::filter`: filtering a pushed sequence keeps the new
/// element exactly when the predicate holds of it.
pub proof fn lemma_filter_push<A>(s: Seq<A>, x: A, pred: spec_fn(A) -> bool)
    ensures
        (s.push(x)).filter(pred) == if pred(x) {
            s.filter(pred).push(x)
        } else {
            s.filter(pred)
        },
{
    reveal(Seq::filter);
    assert((s.push(x)).drop_last() =~= s);
    assert((s.push(x)).last() == x);
}

/// One step of `Seq::filter` on entry sequences.
pub proof fn lemma_filter_push_entry(
    s: MetaModel,
    x: (Seq<char>, FileInfoV),
    pred: spec_fn((Seq<char>, FileInfoV)) -> bool,
)
    ensures
        (s.push(x)).filter(pred) == if pred(x) {
            s.filter(pred).push(x)
        } else {
            s.filter(pred)
        },
{
    reveal(Seq::filter);
    assert((s.push(x)).drop_last() =~= s);
    assert((s.push(x)).last() == x);
}

/// Filtering keeps a unique sequence unique.
proof fn lemma_filter_unique(s: Seq<Seq<char>>, pred: spec_fn(Seq<char>) -> bool)
    requires
        unique_seq(s),
    ensures
        unique_seq(s.filter(pred)),
    decreases s.len(),
{
    if s.len() > 0 {
        let prefix = s.drop_last();
        assert(unique_seq(prefix));
        lemma_filter_unique(prefix, pred);
        assert(s =~= prefix.push(s.last()));
        lemma_filter_push(prefix, s.last(), pred);
        let fp = prefix.filter(pred);
        if pred(s.last()) {
            assert(s.filter(pred) == fp.push(s.last()));
            assert forall|p: int, q: int|
                0 <= p < q < s.filter(pred).len() implies s.filter(pred)[p] != s.filter(
                pred,
            )[q] by {
                if q == s.filter(pred).len() - 1 {
                    assert(fp.contains(fp[p]));
                    lemma_filter_member(prefix, pred, fp[p]);
                    let w = choose|w: int| 0 <= w < prefix.len() && prefix[w] == fp[p];
                    assert(prefix[w] != s.last());
                }
            }
        } else {
            assert(s.filter(pred) == fp);
        }
    }
}

/// A filtered sequence's elements come from the original.
pub proof fn lemma_filter_member(s: Seq<Seq<char>>, pred: spec_fn(Seq<char>) -> bool, x: Seq<char>)
    requires
        s.filter(pred).contains(x),
    ensures
        exists|w: int| 0 <= w < s.len() && s[w] == x,
    decreases s.len(),
{
    if s.len() > 0 {
        let prefix = s.drop_last();
        assert(s =~= prefix.push(s.last()));
        lemma_filter_push(prefix, s.last(), pred);
        if pred(s.last()) && x == s.last() {
            assert(s[s.len() - 1] == x);
        } else {
            if pred(s.last()) {
                assert(s.filter(pred) == prefix.filter(pred).push(s.last()));
                assert(prefix.filter(pred).contains(x));
            } else {
                assert(s.filter(pred) == prefix.filter(pred));
            }
            lemma_filter_member(prefix, pred, x);
            let w = choose|w: int| 0 <= w < prefix.len() && prefix[w] == x;
            assert(s[w] == x);
        }
    } else {
        reveal(Seq::filter);
    }
}

/// How pushing an entry moves `key_idx`: an existing key keeps its index;
/// a fresh key is found at the end exactly when the new entry bears it.
pub proof fn lemma_key_idx_push<V>(m: Seq<(Seq<char>, V)>, e: (Seq<char>, V), k: Seq<char>)
    ensures
        key_idx(m.push(e), k) == if key_idx(m, k) >= 0 {
            key_idx(m, k)
        } else if e.0 == k {
            m.len() as int
        } else {
            -1
        },
    decreases m.len(),
{
    let p = m.push(e);
    if m.len() == 0 {
        assert(p[0] == e);
        assert(p.drop_first() =~= Seq::<(Seq<char>, V)>::empty());
        assert(key_idx(p.drop_first(), k) == -1);
        if e.0 == k {
            assert(key_idx(p, k) == 0);
        } else {
            assert(key_idx(p, k) == -1);
        }
    } else {
        assert(p[0] == m[0]);
        assert(p.drop_first() =~= m.drop_first().push(e));
        lemma_key_idx_push(m.drop_first(), e, k);
        let rest = m.drop_first();
        if m[0].0 == k {
            assert(key_idx(p, k) == 0);
            assert(key_idx(m, k) == 0);
        } else {
            assert(key_idx(p, k) == if key_idx(p.drop_first(), k) == -1 {
                -1int
            } else {
                key_idx(p.drop_first(), k) + 1
            });
            assert(key_idx(m, k) == if key_idx(rest, k) == -1 {
                -1int
            } else {
                key_idx(rest, k) + 1
            });
        }
    }
}

/// Updating an entry without changing its key leaves `key_idx` unchanged.
pub proof fn lemma_key_idx_update<V>(m: Seq<(Seq<char>, V)>, i: int, e: (Seq<char>, V), k: Seq<char>)
    requires
        0 <= i < m.len(),
        e.0 == m[i].0,
    ensures
        key_idx(m.update(i, e), k) == key_idx(m, k),
    decreases m.len(),
{
    if i == 0 {
        assert(m.update(0, e).drop_first() =~= m.drop_first());
        assert(m.update(0, e)[0].0 == m[0].0);
    } else {
        assert(m.update(i, e)[0] == m[0]);
        assert(m.update(i, e).drop_first() =~= m.drop_first().update(i - 1, e));
        lemma_key_idx_update(m.drop_first(), i - 1, e, k);
    }
}

/// A filter that keeps every element of `s` leaves `s` unchanged.
proof fn lemma_filter_no_change(s: Seq<Seq<char>>, pred: spec_fn(Seq<char>) -> bool)
    requires
        forall|j: int| 0 <= j < s.len() ==> pred(#[trigger] s[j]),
    ensures
        s.filter(pred) == s,
    decreases s.len(),
{
    reveal(Seq::filter);
    if s.len() > 0 {
        let prefix = s.drop_last();
        lemma_filter_no_change(prefix, pred);
        assert(s =~= prefix.push(s.last()));
        lemma_filter_push(prefix, s.last(), pred);
        assert(s.filter(pred) =~= s);
    }
}

/// Adding the same tag twice is the same as adding it once.
pub proof fn lemma_add_tag_idempotent(m: MetaModel, f: Seq<char>, t: Seq<char>)
    requires
        meta_wf(m),
    ensures
        add_tag_model(add_tag_model(m, f, t), f, t) == add_tag_model(m, f, t),
{
    let m1 = add_tag_model(m, f, t);
    lemma_key_idx(m, f);
    let i = key_idx(m, f);
    if i == -1 {
        let e = (f, FileInfoV { tags: seq![t], rating: None });
        lemma_key_idx_push(m, e, f);
        assert(key_idx(m1, f) == m.len() as int);
        assert(m1[m.len() as int].1.tags.contains(t)) by {
            assert(m1[m.len() as int].1.tags[0] == t);
        }
        assert(add_tag_model(m1, f, t) == m1);
    } else if m[i].1.tags.contains(t) {
        assert(m1 == m);
    } else {
        let e = (f, FileInfoV { tags: m[i].1.tags.push(t), rating: m[i].1.rating });
        assert(e.0 == m[i].0);
        lemma_key_idx_update(m, i, e, f);
        assert(key_idx(m1, f) == i);
        assert(m1[i].1.tags.contains(t)) by {
            assert(m1[i].1.tags.last() == t);
        }
        assert(add_tag_model(m1, f, t) == m1);
    }
}

/// Removing a tag that a file does not carry, or from a file without a
/// record, changes nothing.
pub proof fn lemma_remove_absent_tag(m: MetaModel, f: Seq<char>, t: Seq<char>)
    requires
        meta_wf(m),
        match meta_find(m, f) {
            Some(info) => !info.tags.contains(t),
            None => true,
        },
    ensures
        remove_tag_model(m, f, t) == m,
{
    let i = key_idx(m, f);
    lemma_key_idx(m, f);
    if i >= 0 {
        let tags = m[i].1.tags;
        assert forall|j: int| 0 <= j < tags.len() implies keep_other_tags(t)(#[trigger] tags[j]) by {
            if tags[j] == t {
                assert(tags.contains(t));
            }
        }
        lemma_filter_no_change(tags, keep_other_tags(t));
        assert(m[i].0 == f);
        assert(remove_tag_model(m, f, t) =~~= m);
    }
}


/// Each of `tags[0..ti)` added in order.
pub open spec fn add_tags_model(m: MetaModel, f: Seq<char>, tags: Seq<Seq<char>>, ti: int) -> MetaModel
    decreases ti,
{
    if ti <= 0 {
        m
    } else {
        add_tag_model(add_tags_model(m, f, tags, ti - 1), f, tags[ti - 1])
    }
}

/// A store rebuilt from its first `i` entries, in order: each record is
/// created with its rating, then its tags are added one by one. This is the
/// shape in which the store comes back from its persisted form.
pub open spec fn rebuild_model(entries: MetaModel, i: int) -> MetaModel
    decreases i,
{
    if i <= 0 {
        Seq::empty()
    } else {
        let prev = rebuild_model(entries, i - 1);
        let e = entries[i - 1];
        add_tags_model(
            set_rating_model(prev, e.0, e.1.rating),
            e.0,
            e.1.tags,
            e.1.tags.len() as int,
        )
    }
}

/// Adding fresh tags to the just-created record extends its tag list in
/// order.
proof fn lemma_add_tags_at_end(
    base: MetaModel,
    f: Seq<char>,
    tags: Seq<Seq<char>>,
    r: Option<u8>,
    ti: int,
)
    requires
        0 <= ti <= tags.len(),
        key_idx(base, f) == -1,
        unique_seq(tags),
    ensures
        add_tags_model(base.push((f, FileInfoV { tags: Seq::empty(), rating: r })), f, tags, ti)
            == base.push((f, FileInfoV { tags: tags.subrange(0, ti), rating: r })),
    decreases ti,
{
    let e0 = (f, FileInfoV { tags: Seq::<Seq<char>>::empty(), rating: r });
    let s0 = base.push(e0);
    if ti <= 0 {
        assert(tags.subrange(0, 0) =~= Seq::<Seq<char>>::empty());
        assert(add_tags_model(s0, f, tags, 0) == s0);
        assert(s0 =~~= base.push((f, FileInfoV { tags: tags.subrange(0, ti), rating: r })));
    } else {
        lemma_add_tags_at_end(base, f, tags, r, ti - 1);
        let x = base.push((f, FileInfoV { tags: tags.subrange(0, ti - 1), rating: r }));
        let t = tags[ti - 1];
        lemma_key_idx_push(base, (f, FileInfoV { tags: tags.subrange(0, ti - 1), rating: r }), f);
        assert(key_idx(x, f) == base.len() as int);
        assert(x[base.len() as int].1.tags == tags.subrange(0, ti - 1));
        if tags.subrange(0, ti - 1).contains(t) {
            let w = choose|w: int|
                0 <= w < ti - 1 && #[trigger] tags.subrange(0, ti - 1)[w] == t;
            assert(tags[w] == tags[ti - 1]);
            assert(false);
        }
        assert(add_tag_model(x, f, t) == x.update(
            base.len() as int,
            (f, FileInfoV { tags: tags.subrange(0, ti - 1).push(t), rating: r }),
        ));
        assert(tags.subrange(0, ti - 1).push(t) =~= tags.subrange(0, ti));
        assert(x.update(
            base.len() as int,
            (f, FileInfoV { tags: tags.subrange(0, ti), rating: r }),
        ) =~~= base.push((f, FileInfoV { tags: tags.subrange(0, ti), rating: r })));
    }
}

/// Round trip through the persisted form: a well-formed store, flattened to
/// its entries and rebuilt entry by entry, comes back equal.
pub proof fn lemma_entries_rebuild(m: MetaModel)
    requires
        meta_wf(m),
    ensures
        rebuild_model(m, m.len() as int) == m,
{
    lemma_entries_rebuild_prefix(m, m.len() as int);
    assert(m.subrange(0, m.len() as int) =~= m);
}

proof fn lemma_entries_rebuild_prefix(m: MetaModel, i: int)
    requires
        meta_wf(m),
        0 <= i <= m.len(),
    ensures
        rebuild_model(m, i) == m.subrange(0, i),
    decreases i,
{
    if i <= 0 {
        assert(rebuild_model(m, 0) =~= m.subrange(0, 0));
    } else {
        lemma_entries_rebuild_prefix(m, i - 1);
        let prev = m.subrange(0, i - 1);
        let e = m[i - 1];
        lemma_key_idx(prev, e.0);
        if key_idx(prev, e.0) >= 0 {
            let k = key_idx(prev, e.0);
            assert(prev[k].0 == e.0);
            assert(m[k].0 == m[i - 1].0);
            assert(false);
        }
        assert(set_rating_model(prev, e.0, e.1.rating) == prev.push(
            (e.0, FileInfoV { tags: Seq::empty(), rating: e.1.rating }),
        ));
        assert(unique_seq(e.1.tags));
        lemma_add_tags_at_end(prev, e.0, e.1.tags, e.1.rating, e.1.tags.len() as int);
        assert(e.1.tags.subrange(0, e.1.tags.len() as int) =~= e.1.tags);
        assert(FileInfoV { tags: e.1.tags, rating: e.1.rating } =~~= e.1);
        assert(prev.push((e.0, FileInfoV { tags: e.1.tags, rating: e.1.rating })) =~~= m.subrange(
            0,
            i,
        ));
    }
}

} // verus!
