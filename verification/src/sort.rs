//! The sort engine's journal: processed entries, the source-to-size index
//! used for resume decisions, the set of known content hashes used for
//! deduplication, and the laws that make an interrupted run resumable.

use vstd::prelude::*;
use crate::datetime::{basename_spec, Timestamp};
use crate::naming::{name_candidate, pick_free_name};
use crate::strutil::{chars_of, push_pad4, str_eq, string_from_chars, views_of};

verus! {

/// The stem of every destination path for timestamp `t` under `output`:
/// `output/YYYY/YYYY-MM-DD_hh-mm-ss`.
pub open spec fn dest_stem_spec(output: Seq<char>, t: Timestamp) -> Seq<char> {
    output + seq!['/'] + crate::strutil::pad4(t.year as int) + seq!['/'] + basename_spec(t)
}

/// The `k`-th destination candidate for timestamp `t` and extension `ext`.
pub open spec fn dest_candidate(output: Seq<char>, t: Timestamp, ext: Seq<char>, k: int) -> Seq<
    char,
> {
    name_candidate(
        dest_stem_spec(output, t) + seq!['.'] + ext,
        dest_stem_spec(output, t),
        ext,
        k,
    )
}

/// The destination path for a photograph dated `t` with extension `ext`:
/// `output/YYYY/YYYY-MM-DD_hh-mm-ss.ext`, or, when that name is in use, the
/// same with the smallest numeric suffix whose name is free. `taken` holds
/// the destination paths already in use; the result is never among them.
pub fn build_dest_path(output: &str, t: &Timestamp, ext: &str, taken: &Vec<String>) -> (r: String)
    requires
        t.year <= 9999,
        t.month <= 99,
        t.day <= 99,
        t.hour <= 99,
        t.minute <= 99,
        t.second <= 99,
        taken@.len() < usize::MAX - 1,
    ensures
        !views_of(taken@).contains(r@),
        exists|k: int|
            0 <= k && r@ == dest_candidate(output@, *t, ext@, k) && !views_of(taken@).contains(
                #[trigger] dest_candidate(output@, *t, ext@, k),
            ) && forall|j: int|
                0 <= j < k ==> views_of(taken@).contains(
                    #[trigger] dest_candidate(output@, *t, ext@, j),
                ),
{
    let mut stem: Vec<char> = chars_of(output);
    stem.push('/');
    push_pad4(&mut stem, t.year as u64);
    stem.push('/');
    let base = crate::datetime::format_basename(t);
    let base_chars = chars_of(base.as_str());
    let mut bi: usize = 0;
    let ghost stem_pre = stem@;
    while bi < base_chars.len()
        invariant
            bi <= base_chars@.len(),
            stem@ == stem_pre + base_chars@.subrange(0, bi as int),
        decreases base_chars@.len() - bi,
    {
        let c = base_chars[bi];
        stem.push(c);
        bi = bi + 1;
        proof {
            assert(stem@ =~= stem_pre + base_chars@.subrange(0, bi as int));
        }
    }
    proof {
        assert(base_chars@.subrange(0, base_chars@.len() as int) =~= base_chars@);
        assert(stem@ =~= dest_stem_spec(output@, *t));
    }
    let ext_chars = chars_of(ext);
    let mut first_chars: Vec<char> = crate::pathutil::copy_range(&stem, 0, stem.len());
    first_chars.push('.');
    let mut fi: usize = 0;
    let ghost first_pre = first_chars@;
    while fi < ext_chars.len()
        invariant
            fi <= ext_chars@.len(),
            first_chars@ == first_pre + ext_chars@.subrange(0, fi as int),
        decreases ext_chars@.len() - fi,
    {
        let c = ext_chars[fi];
        first_chars.push(c);
        fi = fi + 1;
        proof {
            assert(first_chars@ =~= first_pre + ext_chars@.subrange(0, fi as int));
        }
    }
    proof {
        assert(ext_chars@.subrange(0, ext_chars@.len() as int) =~= ext_chars@);
        assert(first_chars@ =~= dest_stem_spec(output@, *t) + seq!['.'] + ext@);
    }
    let first = string_from_chars(&first_chars);
    let r = pick_free_name(first, &stem, &ext_chars, taken);
    proof {
        let k = choose|k: int|
            0 <= k && r@ == name_candidate(
                dest_stem_spec(output@, *t) + seq!['.'] + ext@,
                stem@,
                ext@,
                k,
            ) && !views_of(taken@).contains(
                #[trigger] name_candidate(
                    dest_stem_spec(output@, *t) + seq!['.'] + ext@,
                    stem@,
                    ext@,
                    k,
                ),
            ) && forall|j: int|
                0 <= j < k ==> views_of(taken@).contains(
                    #[trigger] name_candidate(
                        dest_stem_spec(output@, *t) + seq!['.'] + ext@,
                        stem@,
                        ext@,
                        j,
                    ),
                );
        assert(r@ == dest_candidate(output@, *t, ext@, k));
        assert forall|j: int| 0 <= j < k implies views_of(taken@).contains(
            #[trigger] dest_candidate(output@, *t, ext@, j),
        ) by {
            assert(views_of(taken@).contains(
                name_candidate(dest_stem_spec(output@, *t) + seq!['.'] + ext@, stem@, ext@, j),
            ));
        }
    }
    r
}

/// The mathematical content of a journal entry.
#[verifier::ext_equal]
pub struct EntryV {
    pub source: Seq<char>,
    pub dest: Seq<char>,
    pub size: u64,
    pub hash: Seq<char>,
    pub date_source: Seq<char>,
}

/// One processed photograph: where it came from, where it went, its size,
/// its content hash, and which probe dated it.
#[derive(Clone, Debug)]
pub struct ProcessedEntry {
    pub source: String,
    pub dest: String,
    pub size: u64,
    pub hash: String,
    pub date_source: String,
}

impl View for ProcessedEntry {
    type V = EntryV;

    open spec fn view(&self) -> EntryV {
        EntryV {
            source: self.source@,
            dest: self.dest@,
            size: self.size,
            hash: self.hash@,
            date_source: self.date_source@,
        }
    }
}

/// The progress journal: processed entries in the order they were recorded.
#[derive(Debug)]
pub struct Progress {
    pub processed: Vec<ProcessedEntry>,
}

impl View for Progress {
    type V = Seq<EntryV>;

    open spec fn view(&self) -> Seq<EntryV> {
        self.processed@.map_values(|e: ProcessedEntry| e@)
    }
}

/// The resume index of a journal: each source path maps to the size recorded
/// by its latest entry.
pub open spec fn journal_index(j: Seq<EntryV>) -> Map<Seq<char>, u64>
    decreases j.len(),
{
    if j.len() == 0 {
        Map::empty()
    } else {
        journal_index(j.drop_last()).insert(j.last().source, j.last().size)
    }
}

/// The content hashes a journal knows.
pub open spec fn journal_hashes(j: Seq<EntryV>) -> Set<Seq<char>>
    decreases j.len(),
{
    if j.len() == 0 {
        Set::empty()
    } else {
        journal_hashes(j.drop_last()).insert(j.last().hash)
    }
}

/// The index maps exactly the recorded sources, each to the size of its
/// latest entry.
pub proof fn lemma_journal_index(j: Seq<EntryV>, s: Seq<char>)
    ensures
        journal_index(j).contains_key(s) <==> exists|i: int| 0 <= i < j.len() && j[i].source == s,
        forall|i: int|
            0 <= i < j.len() && j[i].source == s && (forall|l: int|
                i < l < j.len() ==> j[l].source != s) ==> journal_index(j).contains_key(s)
                && journal_index(j)[s] == j[i].size,
    decreases j.len(),
{
    if j.len() > 0 {
        let prefix = j.drop_last();
        lemma_journal_index(prefix, s);
        assert(forall|i: int| 0 <= i < prefix.len() ==> prefix[i] == j[i]);
        if journal_index(j).contains_key(s) && j.last().source != s {
            let i = choose|i: int| 0 <= i < prefix.len() && prefix[i].source == s;
            assert(j[i].source == s);
        }
        assert forall|i: int|
            0 <= i < j.len() && j[i].source == s && (forall|l: int|
                i < l < j.len() ==> j[l].source != s) implies journal_index(j).contains_key(s)
            && journal_index(j)[s] == j[i].size by {
            if i == j.len() - 1 {
                assert(journal_index(j)[s] == j.last().size);
            } else {
                assert(j.last().source != s);
                assert(prefix[i].source == s);
                assert(forall|l: int| i < l < prefix.len() ==> prefix[l].source != s);
            }
        }
    }
}

/// The known hashes are exactly the recorded ones.
pub proof fn lemma_journal_hashes(j: Seq<EntryV>, h: Seq<char>)
    ensures
        journal_hashes(j).contains(h) <==> exists|i: int| 0 <= i < j.len() && j[i].hash == h,
    decreases j.len(),
{
    if j.len() > 0 {
        let prefix = j.drop_last();
        lemma_journal_hashes(prefix, h);
        assert(forall|i: int| 0 <= i < prefix.len() ==> prefix[i] == j[i]);
        if journal_hashes(j).contains(h) && j.last().hash != h {
            let i = choose|i: int| 0 <= i < prefix.len() && prefix[i].hash == h;
            assert(j[i].hash == h);
        }
        if exists|i: int| 0 <= i < j.len() && j[i].hash == h {
            let i = choose|i: int| 0 <= i < j.len() && j[i].hash == h;
            if i < prefix.len() {
                assert(prefix[i].hash == h);
            }
        }
    }
}

impl Progress {
    /// The empty journal.
    pub fn new() -> (r: Self)
        ensures
            r@.len() == 0,
    {
        Progress { processed: Vec::new() }
    }

    /// How many entries the journal holds.
    pub fn len(&self) -> (r: usize)
        ensures
            r == self@.len(),
    {
        self.processed.len()
    }

    /// Should this source be skipped without reading it? True exactly when
    /// the journal's latest entry for the source records the same size.
    pub fn resume_skip(&self, source: &str, size: u64) -> (r: bool)
        ensures
            r == (journal_index(self@).contains_key(source@) && journal_index(self@)[source@]
                == size),
    {
        proof {
            lemma_journal_index(self@, source@);
        }
        let n = self.processed.len();
        let mut i: usize = n;
        while i > 0
            invariant
                i <= n,
                n == self@.len(),
                forall|l: int| i <= l < n ==> self@[l].source != source@,
            decreases i,
        {
            i = i - 1;
            if str_eq(self.processed[i].source.as_str(), source) {
                proof {
                    assert(self@[i as int].source == source@);
                    lemma_journal_index(self@, source@);
                }
                return self.processed[i].size == size;
            }
        }
        proof {
            if journal_index(self@).contains_key(source@) {
                let w = choose|w: int| 0 <= w < self@.len() && self@[w].source == source@;
                assert(self@[w].source != source@);
            }
        }
        false
    }

    /// Has a file with this content hash already been kept?
    pub fn knows_hash(&self, hash: &str) -> (r: bool)
        ensures
            r == journal_hashes(self@).contains(hash@),
    {
        proof {
            lemma_journal_hashes(self@, hash@);
        }
        let n = self.processed.len();
        let mut i: usize = 0;
        while i < n
            invariant
                i <= n,
                n == self@.len(),
                forall|l: int| 0 <= l < i ==> self@[l].hash != hash@,
            decreases n - i,
        {
            if str_eq(self.processed[i].hash.as_str(), hash) {
                proof {
                    assert(self@[i as int].hash == hash@);
                    lemma_journal_hashes(self@, hash@);
                }
                return true;
            }
            i = i + 1;
        }
        proof {
            if journal_hashes(self@).contains(hash@) {
                let w = choose|w: int| 0 <= w < self@.len() && self@[w].hash == hash@;
                assert(self@[w].hash != hash@);
            }
        }
        false
    }

    /// Append one processed entry. The resume index gains the source at its
    /// new size and the hash set gains the content hash.
    pub fn record(&mut self, e: ProcessedEntry)
        ensures
            final(self)@ == old(self)@.push(e@),
            journal_index(final(self)@) == journal_index(old(self)@).insert(e.source@, e.size),
            journal_hashes(final(self)@) == journal_hashes(old(self)@).insert(e.hash@),
    {
        let ghost ev = e@;
        self.processed.push(e);
        proof {
            assert(self@ =~= old(self)@.push(ev));
            assert(self@.drop_last() =~= old(self)@);
            assert(self@.last() == ev);
        }
    }
}


/// Does the run skip this file without reading it? Exactly when the
/// journal's latest entry for its source records its size.
pub open spec fn step_skip(j: Seq<EntryV>, f: EntryV) -> bool {
    journal_index(j).contains_key(f.source) && journal_index(j)[f.source] == f.size
}

/// Is this file counted a duplicate? Exactly when it is not resume-skipped
/// and its content hash is already known.
pub open spec fn step_dup(j: Seq<EntryV>, f: EntryV) -> bool {
    !step_skip(j, f) && journal_hashes(j).contains(f.hash)
}

/// Is this file copied? Exactly when it is neither skipped nor a duplicate.
pub open spec fn step_copy(j: Seq<EntryV>, f: EntryV) -> bool {
    !step_skip(j, f) && !journal_hashes(j).contains(f.hash)
}

/// The journal after processing one file: recorded when copied, unchanged
/// otherwise.
pub open spec fn step_journal(j: Seq<EntryV>, f: EntryV) -> Seq<EntryV> {
    if step_copy(j, f) {
        j.push(f)
    } else {
        j
    }
}

/// The journal after processing the first `i` files of a run that started
/// from `j0`.
pub open spec fn journal_at(j0: Seq<EntryV>, files: Seq<EntryV>, i: int) -> Seq<EntryV>
    decreases i,
{
    if i <= 0 {
        j0
    } else {
        step_journal(journal_at(j0, files, i - 1), files[i - 1])
    }
}

/// How many of the first `i` files the run copies.
pub open spec fn copied_count(j0: Seq<EntryV>, files: Seq<EntryV>, i: int) -> int
    decreases i,
{
    if i <= 0 {
        0
    } else {
        copied_count(j0, files, i - 1) + if step_copy(journal_at(j0, files, i - 1), files[i - 1]) {
            1int
        } else {
            0int
        }
    }
}

/// How many of the first `i` files the run resume-skips.
pub open spec fn skipped_count(j0: Seq<EntryV>, files: Seq<EntryV>, i: int) -> int
    decreases i,
{
    if i <= 0 {
        0
    } else {
        skipped_count(j0, files, i - 1) + if step_skip(journal_at(j0, files, i - 1), files[i - 1]) {
            1int
        } else {
            0int
        }
    }
}

/// How many of the first `i` files the run counts as duplicates.
pub open spec fn dup_count(j0: Seq<EntryV>, files: Seq<EntryV>, i: int) -> int
    decreases i,
{
    if i <= 0 {
        0
    } else {
        dup_count(j0, files, i - 1) + if step_dup(journal_at(j0, files, i - 1), files[i - 1]) {
            1int
        } else {
            0int
        }
    }
}

/// Every file of a run is counted exactly once: copied, skipped or
/// duplicate.
pub proof fn lemma_counts_partition(j0: Seq<EntryV>, files: Seq<EntryV>, i: int)
    requires
        0 <= i <= files.len(),
    ensures
        copied_count(j0, files, i) + skipped_count(j0, files, i) + dup_count(j0, files, i) == i,
    decreases i,
{
    if i > 0 {
        lemma_counts_partition(j0, files, i - 1);
    }
}

/// No two files of the walk share a source path.
pub open spec fn distinct_sources(files: Seq<EntryV>) -> bool {
    forall|p: int, q: int| 0 <= p < q < files.len() ==> files[p].source != files[q].source
}

/// A file the run need not copy again: its source stands in the index at
/// its size, or its content hash is known.
pub open spec fn stable_in(j: Seq<EntryV>, f: EntryV) -> bool {
    (journal_index(j).contains_key(f.source) && journal_index(j)[f.source] == f.size)
        || journal_hashes(j).contains(f.hash)
}

/// One processing step keeps an index binding whose source is not the
/// processed file's.
proof fn lemma_step_index(j: Seq<EntryV>, f: EntryV, s: Seq<char>)
    requires
        f.source != s,
        journal_index(j).contains_key(s),
    ensures
        journal_index(step_journal(j, f)).contains_key(s),
        journal_index(step_journal(j, f))[s] == journal_index(j)[s],
{
    if step_copy(j, f) {
        assert(j.push(f).drop_last() =~= j);
        assert(j.push(f).last() == f);
    }
}

/// One processing step keeps every known hash known.
proof fn lemma_step_hash(j: Seq<EntryV>, f: EntryV, h: Seq<char>)
    requires
        journal_hashes(j).contains(h),
    ensures
        journal_hashes(step_journal(j, f)).contains(h),
{
    if step_copy(j, f) {
        assert(j.push(f).drop_last() =~= j);
    }
}

/// An index binding survives the rest of the run when no later file bears
/// its source.
proof fn lemma_index_preserved(
    j0: Seq<EntryV>,
    files: Seq<EntryV>,
    i: int,
    l: int,
    s: Seq<char>,
)
    requires
        0 <= i <= l <= files.len(),
        journal_index(journal_at(j0, files, i)).contains_key(s),
        forall|p: int| i <= p < l ==> files[p].source != s,
    ensures
        journal_index(journal_at(j0, files, l)).contains_key(s),
        journal_index(journal_at(j0, files, l))[s] == journal_index(journal_at(j0, files, i))[s],
    decreases l - i,
{
    if l > i {
        lemma_index_preserved(j0, files, i, l - 1, s);
        lemma_step_index(journal_at(j0, files, l - 1), files[l - 1], s);
    }
}

/// A known hash stays known for the rest of the run.
proof fn lemma_hash_preserved(j0: Seq<EntryV>, files: Seq<EntryV>, i: int, l: int, h: Seq<char>)
    requires
        0 <= i <= l <= files.len(),
        journal_hashes(journal_at(j0, files, i)).contains(h),
    ensures
        journal_hashes(journal_at(j0, files, l)).contains(h),
    decreases l - i,
{
    if l > i {
        lemma_hash_preserved(j0, files, i, l - 1, h);
        lemma_step_hash(journal_at(j0, files, l - 1), files[l - 1], h);
    }
}

/// After a run over files with distinct sources, every file of the run is
/// stable: the next run will not copy it.
pub proof fn lemma_run_stabilizes(j0: Seq<EntryV>, files: Seq<EntryV>, p: int)
    requires
        distinct_sources(files),
        0 <= p < files.len(),
    ensures
        stable_in(journal_at(j0, files, files.len() as int), files[p]),
{
    let jp = journal_at(j0, files, p);
    let f = files[p];
    if step_skip(jp, f) {
        assert(journal_at(j0, files, p + 1) == jp);
        lemma_index_preserved(j0, files, p + 1, files.len() as int, f.source);
    } else if step_dup(jp, f) {
        assert(journal_at(j0, files, p + 1) == jp);
        lemma_hash_preserved(j0, files, p + 1, files.len() as int, f.hash);
    } else {
        let jn = journal_at(j0, files, p + 1);
        assert(jn == jp.push(f));
        assert(jn.drop_last() =~= jp);
        assert(jn.last() == f);
        assert(journal_index(jn).contains_key(f.source));
        assert(journal_index(jn)[f.source] == f.size);
        lemma_index_preserved(j0, files, p + 1, files.len() as int, f.source);
    }
}

/// A run over files that are all stable in its starting journal changes
/// nothing and copies nothing.
proof fn lemma_rerun_prefix(j: Seq<EntryV>, files: Seq<EntryV>, i: int)
    requires
        0 <= i <= files.len(),
        forall|p: int| 0 <= p < files.len() ==> stable_in(j, #[trigger] files[p]),
    ensures
        journal_at(j, files, i) == j,
        copied_count(j, files, i) == 0,
    decreases i,
{
    if i > 0 {
        lemma_rerun_prefix(j, files, i - 1);
        assert(stable_in(j, files[i - 1]));
        assert(!step_copy(j, files[i - 1]));
    }
}

/// Running the sort a second time over the same files changes neither the
/// journal nor the archive: every file is skipped or counted a duplicate,
/// and none is copied.
pub proof fn lemma_second_run_idempotent(j0: Seq<EntryV>, files: Seq<EntryV>)
    requires
        distinct_sources(files),
    ensures
        ({
            let first = journal_at(j0, files, files.len() as int);
            journal_at(first, files, files.len() as int) == first && copied_count(
                first,
                files,
                files.len() as int,
            ) == 0 && skipped_count(first, files, files.len() as int) + dup_count(
                first,
                files,
                files.len() as int,
            ) == files.len()
        }),
{
    let first = journal_at(j0, files, files.len() as int);
    assert forall|p: int| 0 <= p < files.len() implies stable_in(first, #[trigger] files[p]) by {
        lemma_run_stabilizes(j0, files, p);
    }
    lemma_rerun_prefix(first, files, files.len() as int);
    lemma_counts_partition(first, files, files.len() as int);
}

/// Every source in a journal grown from empty was copied from an earlier
/// file of the run.
proof fn lemma_journal_sources(files: Seq<EntryV>, i: int, s: Seq<char>)
    requires
        0 <= i <= files.len(),
        journal_index(journal_at(Seq::empty(), files, i)).contains_key(s),
    ensures
        exists|p: int|
            0 <= p < i && (#[trigger] files[p]).source == s && step_copy(
                journal_at(Seq::empty(), files, p),
                files[p],
            ),
    decreases i,
{
    let j0 = Seq::<EntryV>::empty();
    if i > 0 {
        let prev = journal_at(j0, files, i - 1);
        let f = files[i - 1];
        if step_copy(prev, f) {
            assert(prev.push(f).drop_last() =~= prev);
            assert(prev.push(f).last() == f);
            if f.source == s {
                assert(files[i - 1].source == s && step_copy(journal_at(j0, files, i - 1), f));
            } else {
                lemma_journal_sources(files, i - 1, s);
            }
        } else {
            lemma_journal_sources(files, i - 1, s);
        }
    } else {
        assert(journal_at(j0, files, i) == j0);
        assert(!journal_index(j0).contains_key(s));
    }
}

/// Deduplication: when two files of a fresh run have the same content hash,
/// the later one is counted a duplicate, adds no journal entry, and the
/// journal never records its source.
pub proof fn lemma_dedup(files: Seq<EntryV>, p: int, q: int)
    requires
        distinct_sources(files),
        0 <= p < q < files.len(),
        files[p].hash == files[q].hash,
    ensures
        ({
            let j0 = Seq::<EntryV>::empty();
            step_dup(journal_at(j0, files, q), files[q]) && journal_at(j0, files, q + 1)
                == journal_at(j0, files, q) && !journal_index(
                journal_at(j0, files, files.len() as int),
            ).contains_key(files[q].source)
        }),
{
    let j0 = Seq::<EntryV>::empty();
    let jq = journal_at(j0, files, q);
    let jp = journal_at(j0, files, p);
    let f = files[p];
    let h = files[p].hash;
    // the earlier file cannot be resume-skipped in a fresh run
    if step_skip(jp, f) {
        lemma_journal_sources(files, p, f.source);
        let w = choose|w: int|
            0 <= w < p && (#[trigger] files[w]).source == f.source && step_copy(
                journal_at(j0, files, w),
                files[w],
            );
        assert(false);
    }
    // so its hash is known right after its step
    if step_dup(jp, f) {
        lemma_hash_preserved(j0, files, p, q, h);
    } else {
        assert(step_copy(jp, f));
        let jn = journal_at(j0, files, p + 1);
        assert(jn == jp.push(f));
        assert(jn.drop_last() =~= jp);
        assert(jn.last() == f);
        assert(journal_hashes(jn).contains(h));
        lemma_hash_preserved(j0, files, p + 1, q, h);
    }
    assert(journal_hashes(jq).contains(files[q].hash));
    // the later file cannot be resume-skipped either
    if step_skip(jq, files[q]) {
        lemma_journal_sources(files, q, files[q].source);
        let w = choose|w: int|
            0 <= w < q && (#[trigger] files[w]).source == files[q].source && step_copy(
                journal_at(j0, files, w),
                files[w],
            );
        assert(false);
    }
    assert(step_dup(jq, files[q]));
    // and the final journal never records its source
    if journal_index(journal_at(j0, files, files.len() as int)).contains_key(files[q].source) {
        lemma_journal_sources(files, files.len() as int, files[q].source);
        let w = choose|w: int|
            0 <= w < files.len() && (#[trigger] files[w]).source == files[q].source && step_copy(
                journal_at(j0, files, w),
                files[w],
            );
        assert(w == q);
        assert(false);
    }
}


/// A lowercase hexadecimal digit.
pub open spec fn is_hex_lower(c: char) -> bool {
    ('0' <= c && c <= '9') || ('a' <= c && c <= 'f')
}

/// What the content hash of a byte string is.
pub uninterp spec fn blake3_hex(data: Seq<u8>) -> Seq<char>;

/// Relies on `blake3::hash` and `Hash::to_hex`: the digest is a function of
/// the bytes alone, rendered as sixty-four lowercase hexadecimal characters.
#[verifier::external_body]
pub fn hash_bytes(data: &Vec<u8>) -> (r: String)
    ensures
        r@ == blake3_hex(data@),
        r@.len() == 64,
        forall|i: int| 0 <= i < 64 ==> is_hex_lower(#[trigger] r@[i]),
{
    blake3::hash(data).to_hex().to_string()
}

} // verus!
