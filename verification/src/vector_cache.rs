//! The resident index of quantized vectors, held to a budget of bytes.
//!
//! The vectors of a file are served only while the file is as it was when they were made. When
//! the budget is used up, the files that were asked for least recently go first.

use std::sync::Arc;
use vstd::prelude::*;

use crate::paths::{PathView, RepoPath};
use crate::quantizer::{vector_bytes, QuantizedVector};

verus! {

/// The budget of the index where none is set: 128 MiB.
pub const DEFAULT_MAX_BYTES: usize = 134_217_728;

/// The budget of the index: the one that is set, or the default.
pub fn budget(setting: Option<usize>) -> (r: usize)
    ensures
        r == (match setting {
            Some(n) => n,
            None => DEFAULT_MAX_BYTES,
        }),
{
    match setting {
        Some(n) => n,
        None => DEFAULT_MAX_BYTES,
    }
}

/// The vector of a range of a file's lines, counted from 1, both ends included.
pub struct EmbeddedChunk {
    pub start_line: usize,
    pub end_line: usize,
    pub vector: QuantizedVector,
}

/// How many bytes the vectors of `chunks` take.
pub open spec fn chunk_bytes(chunks: Seq<EmbeddedChunk>) -> nat
    decreases chunks.len(),
{
    if chunks.len() == 0 {
        0
    } else {
        chunk_bytes(chunks.drop_last()) + vector_bytes(chunks.last().vector@)
    }
}

/// The vectors of a file, with the modification time and length that the file had when they were
/// made, and the bytes that they take.
pub struct VectorEntry {
    pub path: RepoPath,
    pub mtime: i128,
    pub len: u64,
    pub chunks: Arc<Vec<EmbeddedChunk>>,
    pub bytes: usize,
}

/// What a `VectorEntry` stands for.
#[verifier::ext_equal]
pub struct VectorEntryView {
    pub path: PathView,
    pub mtime: i128,
    pub len: u64,
    pub chunks: Arc<Vec<EmbeddedChunk>>,
}

impl View for VectorEntry {
    type V = VectorEntryView;

    open spec fn view(&self) -> VectorEntryView {
        VectorEntryView {
            path: self.path@,
            mtime: self.mtime,
            len: self.len,
            chunks: self.chunks,
        }
    }
}

impl VectorEntryView {
    /// How many bytes the entry takes from the budget.
    pub open spec fn bytes(self) -> nat {
        chunk_bytes(self.chunks@)
    }
}

/// The views of a sequence of entries.
pub open spec fn entry_views(v: Seq<VectorEntry>) -> Seq<VectorEntryView> {
    Seq::new(v.len(), |i: int| v[i]@)
}

/// How many bytes `entries` take.
pub open spec fn total_bytes(entries: Seq<VectorEntryView>) -> nat
    decreases entries.len(),
{
    if entries.len() == 0 {
        0
    } else {
        total_bytes(entries.drop_last()) + entries.last().bytes()
    }
}

/// `entries` without those of the file at `path`.
pub open spec fn without(entries: Seq<VectorEntryView>, path: PathView) -> Seq<VectorEntryView>
    decreases entries.len(),
{
    if entries.len() == 0 {
        Seq::empty()
    } else if entries.last().path == path {
        without(entries.drop_last(), path)
    } else {
        without(entries.drop_last(), path).push(entries.last())
    }
}

/// The last of `entries` that take at most `room` bytes together.
pub open spec fn fit(entries: Seq<VectorEntryView>, room: int) -> Seq<VectorEntryView>
    decreases entries.len(),
{
    if entries.len() == 0 || total_bytes(entries) <= room {
        entries
    } else {
        fit(entries.drop_first(), room)
    }
}

/// Whether the vectors of the file at `path`, found with this modification time and length, are
/// the entry `e`.
pub open spec fn serves(e: VectorEntryView, path: PathView, mtime: i128, len: u64) -> bool {
    e.path == path && e.mtime == mtime && e.len == len
}

/// No file has two entries.
pub open spec fn distinct(entries: Seq<VectorEntryView>) -> bool {
    forall|i: int, j: int|
        0 <= i < j < entries.len() ==> (#[trigger] entries[i]).path != (#[trigger] entries[j]).path
}

/// What an index stands for: its budget, and its entries from the least to the most recently
/// used.
#[verifier::ext_equal]
pub struct VectorCacheView {
    pub max_bytes: nat,
    pub entries: Seq<VectorEntryView>,
}

impl VectorCacheView {
    /// No file has two entries, and the entries keep to the budget.
    pub open spec fn wf(self) -> bool {
        &&& total_bytes(self.entries) <= self.max_bytes
        &&& distinct(self.entries)
    }

    /// The index after an entry has been used: it becomes the most recent one.
    pub open spec fn used(self, e: VectorEntryView) -> VectorCacheView {
        VectorCacheView { entries: without(self.entries, e.path).push(e), ..self }
    }

    /// The index after an entry has been stored in place of the one of the same file. The least
    /// recently used entries make room for it. An entry over the whole budget is not kept.
    pub open spec fn stored(self, e: VectorEntryView) -> VectorCacheView {
        let rest = without(self.entries, e.path);
        if e.bytes() > self.max_bytes {
            VectorCacheView { entries: rest, ..self }
        } else {
            VectorCacheView { entries: fit(rest, self.max_bytes - e.bytes()).push(e), ..self }
        }
    }
}

/// The entries of one file, each found at most once, are taken out by position.
proof fn lemma_without_at(entries: Seq<VectorEntryView>, i: int)
    requires
        0 <= i < entries.len(),
        forall|j: int| 0 <= j < entries.len() && j != i ==> (#[trigger] entries[j]).path
            != entries[i].path,
    ensures
        without(entries, entries[i].path) == entries.remove(i),
    decreases entries.len(),
{
    let path = entries[i].path;
    let before = entries.drop_last();
    if i == entries.len() - 1 {
        assert forall|j: int| 0 <= j < before.len() implies (#[trigger] before[j]).path != path by {
            assert(before[j] == entries[j]);
        }
        lemma_without_absent(before, path);
        assert(entries.remove(i) =~= before);
    } else {
        assert(before[i] == entries[i]);
        assert forall|j: int| 0 <= j < before.len() && j != i implies (#[trigger] before[j]).path
            != before[i].path by {
            assert(before[j] == entries[j]);
        }
        lemma_without_at(before, i);
        assert(entries.last() == entries[entries.len() - 1]);
        assert(entries.remove(i) =~= before.remove(i).push(entries.last()));
    }
}

/// Nothing is taken out for a file without an entry.
proof fn lemma_without_absent(entries: Seq<VectorEntryView>, path: PathView)
    requires
        forall|j: int| 0 <= j < entries.len() ==> (#[trigger] entries[j]).path != path,
    ensures
        without(entries, path) == entries,
    decreases entries.len(),
{
    if entries.len() > 0 {
        let before = entries.drop_last();
        assert forall|j: int| 0 <= j < before.len() implies (#[trigger] before[j]).path != path by {
            assert(before[j] == entries[j]);
        }
        lemma_without_absent(before, path);
        assert(entries.last() == entries[entries.len() - 1]);
        assert(entries =~= before.push(entries.last()));
    } else {
        assert(without(entries, path) =~= entries);
    }
}

/// What taking one entry out does to the bytes in use.
proof fn lemma_total_remove(entries: Seq<VectorEntryView>, i: int)
    requires
        0 <= i < entries.len(),
    ensures
        total_bytes(entries.remove(i)) == total_bytes(entries) - entries[i].bytes(),
    decreases entries.len(),
{
    let before = entries.drop_last();
    if i == entries.len() - 1 {
        assert(entries.remove(i) =~= before);
    } else {
        lemma_total_remove(before, i);
        assert(entries.remove(i).drop_last() =~= before.remove(i));
        assert(entries.remove(i).last() == entries.last());
        assert(before[i] == entries[i]);
    }
}

/// What adding an entry does to the bytes in use.
proof fn lemma_total_push(entries: Seq<VectorEntryView>, e: VectorEntryView)
    ensures
        total_bytes(entries.push(e)) == total_bytes(entries) + e.bytes(),
{
    assert(entries.push(e).drop_last() =~= entries);
}

/// What is left without a file's entries has none of that file, and still no file twice.
proof fn lemma_without(entries: Seq<VectorEntryView>, path: PathView)
    requires
        distinct(entries),
    ensures
        distinct(without(entries, path)),
        forall|j: int|
            0 <= j < without(entries, path).len() ==> (#[trigger] without(entries, path)[j]).path
                != path,
        total_bytes(without(entries, path)) <= total_bytes(entries),
{
    if exists|i: int| 0 <= i < entries.len() && (#[trigger] entries[i]).path == path {
        let i = choose|i: int| 0 <= i < entries.len() && (#[trigger] entries[i]).path == path;
        lemma_without_at(entries, i);
        lemma_total_remove(entries, i);
    } else {
        lemma_without_absent(entries, path);
    }
}

/// What makes room is the least recently used part of the entries, and no more of it than has to
/// go.
pub proof fn law_least_recently_used_go_first(entries: Seq<VectorEntryView>, room: int)
    requires
        0 <= room,
    ensures
        ({
            let kept = fit(entries, room);
            let gone = entries.len() - kept.len();
            &&& 0 <= gone
            &&& kept == entries.skip(gone)
            &&& total_bytes(kept) <= room
            &&& gone > 0 ==> total_bytes(entries.skip(gone - 1)) > room
        }),
    decreases entries.len(),
{
    assert(entries.skip(0) =~= entries);
    if entries.len() > 0 && total_bytes(entries) > room {
        let rest = entries.drop_first();
        law_least_recently_used_go_first(rest, room);
        let gone = rest.len() - fit(rest, room).len();
        assert(rest.skip(gone) =~= entries.skip(gone + 1));
        if gone > 0 {
            assert(rest.skip(gone - 1) =~= entries.skip(gone));
        }
    }
}

/// An index stays in order when an entry of it is used or another is stored; what is stored is
/// the most recent entry, unless it is over the whole budget.
pub proof fn law_index_keeps_to_its_budget(cache: VectorCacheView, e: VectorEntryView)
    requires
        cache.wf(),
    ensures
        cache.stored(e).wf(),
        e.bytes() <= cache.max_bytes ==> cache.stored(e).entries.last() == e,
        cache.entries.contains(e) ==> cache.used(e).wf(),
{
    lemma_without(cache.entries, e.path);
    let rest = without(cache.entries, e.path);
    if e.bytes() <= cache.max_bytes {
        let room = cache.max_bytes - e.bytes();
        law_least_recently_used_go_first(rest, room);
        lemma_total_push(fit(rest, room), e);
    }
    if cache.entries.contains(e) {
        let i = choose|i: int| 0 <= i < cache.entries.len() && cache.entries[i] == e;
        lemma_without_at(cache.entries, i);
        lemma_total_remove(cache.entries, i);
        lemma_total_push(rest, e);
    }
}

/// The bytes that the vectors of `chunks` take, if they are within `limit`.
fn bytes_within(chunks: &Vec<EmbeddedChunk>, limit: usize) -> (r: Option<usize>)
    ensures
        match r {
            Some(b) => b == chunk_bytes(chunks@) && b <= limit,
            None => chunk_bytes(chunks@) > limit,
        },
{
    let n: usize = chunks.len();
    let mut sum: usize = 0;
    let mut i: usize = 0;
    while i < n
        invariant
            i <= n == chunks@.len(),
            sum <= limit,
            sum == chunk_bytes(chunks@.take(i as int)),
        decreases n - i,
    {
        let ghost next = chunks@.take(i + 1);
        assert(next.drop_last() =~= chunks@.take(i as int));
        assert(next.last() == chunks@[i as int]);
        let dim: usize = chunks[i].vector.dim();
        let left: usize = limit - sum;
        if left < 4 || dim > left - 4 {
            proof {
                lemma_chunk_bytes_grow(chunks@, i + 1);
            }
            return None;
        }
        sum = sum + chunks[i].vector.byte_size();
        i = i + 1;
    }
    assert(chunks@.take(n as int) =~= chunks@);
    Some(sum)
}

/// The first vectors take no more bytes than all of them.
proof fn lemma_chunk_bytes_grow(chunks: Seq<EmbeddedChunk>, n: int)
    requires
        0 <= n <= chunks.len(),
    ensures
        chunk_bytes(chunks.take(n)) <= chunk_bytes(chunks),
    decreases chunks.len(),
{
    if n == chunks.len() {
        assert(chunks.take(n) =~= chunks);
    } else {
        lemma_chunk_bytes_grow(chunks.drop_last(), n);
        assert(chunks.drop_last().take(n) =~= chunks.take(n));
    }
}

/// The resident index of quantized vectors.
pub struct VectorCache {
    max_bytes: usize,
    total: usize,
    entries: Vec<VectorEntry>,
}

impl View for VectorCache {
    type V = VectorCacheView;

    closed spec fn view(&self) -> VectorCacheView {
        VectorCacheView { max_bytes: self.max_bytes as nat, entries: entry_views(self.entries@) }
    }
}

impl VectorCache {
    /// The index is in order, and counts the bytes that it holds.
    pub closed spec fn wf(self) -> bool {
        &&& self@.wf()
        &&& self.total == total_bytes(self@.entries)
        &&& forall|i: int|
            0 <= i < self.entries@.len() ==> (#[trigger] self.entries@[i]).bytes
                == self.entries@[i]@.bytes()
    }

    /// The empty index, with a budget of `max_bytes`.
    pub fn new(max_bytes: usize) -> (r: VectorCache)
        ensures
            r.wf(),
            r@ == (VectorCacheView {
                max_bytes: max_bytes as nat,
                entries: Seq::<VectorEntryView>::empty(),
            }),
    {
        let r = VectorCache { max_bytes, total: 0, entries: Vec::new() };
        assert(r@.entries =~= Seq::<VectorEntryView>::empty());
        r
    }

    /// Where the entry of the file at `path` is.
    fn position(&self, path: &RepoPath) -> (r: Option<usize>)
        ensures
            match r {
                Some(i) => i < self.entries@.len() && self.entries@[i as int].path@ == path@,
                None => forall|j: int|
                    0 <= j < self.entries@.len() ==> (#[trigger] self.entries@[j]).path@ != path@,
            },
    {
        let n: usize = self.entries.len();
        let mut i: usize = 0;
        while i < n
            invariant
                i <= n == self.entries@.len(),
                forall|j: int| 0 <= j < i ==> (#[trigger] self.entries@[j]).path@ != path@,
            decreases n - i,
        {
            if self.entries[i].path.same(path) {
                return Some(i);
            }
            i = i + 1;
        }
        None
    }

    /// Takes out the entry at position `i`.
    fn take(&mut self, i: usize) -> (r: VectorEntry)
        requires
            old(self).wf(),
            i < old(self)@.entries.len(),
        ensures
            final(self).wf(),
            r@ == old(self)@.entries[i as int],
            r.bytes == r@.bytes(),
            final(self)@ == (VectorCacheView {
                entries: old(self)@.entries.remove(i as int),
                ..old(self)@
            }),
            final(self)@.entries == without(old(self)@.entries, r@.path),
    {
        let ghost before = self@.entries;
        let ghost vec_before = self.entries@;
        let e = self.entries.remove(i);
        assert(e@ == before[i as int]);
        assert(entry_views(self.entries@) =~= before.remove(i as int));
        proof {
            lemma_total_remove(before, i as int);
            lemma_without_at(before, i as int);
        }
        self.total = self.total - e.bytes;
        assert forall|k: int| 0 <= k < self.entries@.len() implies (
        #[trigger] self.entries@[k]).bytes == self.entries@[k]@.bytes() by {
            if k < i {
                assert(self.entries@[k] == vec_before[k]);
            } else {
                assert(self.entries@[k] == vec_before[k + 1]);
            }
        }
        e
    }

    /// Adds an entry as the most recent one.
    fn add_last(&mut self, e: VectorEntry)
        requires
            old(self).wf(),
            e.bytes == e@.bytes(),
            total_bytes(old(self)@.entries) + e.bytes <= old(self)@.max_bytes,
            forall|j: int|
                0 <= j < old(self)@.entries.len() ==> (#[trigger] old(self)@.entries[j]).path
                    != e@.path,
        ensures
            final(self).wf(),
            final(self)@ == (VectorCacheView {
                entries: old(self)@.entries.push(e@),
                ..old(self)@
            }),
    {
        let ghost before = self@.entries;
        proof {
            lemma_total_push(before, e@);
        }
        self.total = self.total + e.bytes;
        self.entries.push(e);
        assert(entry_views(self.entries@) =~= before.push(e@));
    }

    /// The vectors recorded for `path`, if they were recorded under this modification time and
    /// length. Their entry becomes the most recently used one.
    pub fn get_if_fresh(&mut self, path: &RepoPath, mtime: i128, len: u64) -> (r: Option<
        Arc<Vec<EmbeddedChunk>>,
    >)
        requires
            old(self).wf(),
        ensures
            final(self).wf(),
            match r {
                Some(chunks) => {
                    let e = VectorEntryView { path: path@, mtime, len, chunks };
                    old(self)@.entries.contains(e) && final(self)@ == old(self)@.used(e)
                },
                None => final(self)@ == old(self)@ && forall|i: int|
                    0 <= i < old(self)@.entries.len() ==> !serves(
                        #[trigger] old(self)@.entries[i],
                        path@,
                        mtime,
                        len,
                    ),
            },
    {
        let ghost before = self@;
        match self.position(path) {
            None => {
                assert forall|i: int| 0 <= i < before.entries.len() implies !serves(
                    #[trigger] before.entries[i],
                    path@,
                    mtime,
                    len,
                ) by {
                    assert(before.entries[i].path == self.entries@[i].path@);
                }
                None
            },
            Some(i) => {
                assert(before.entries[i as int] == self.entries@[i as int]@);
                if self.entries[i].mtime == mtime && self.entries[i].len == len {
                    let e = self.take(i);
                    let chunks = e.chunks.clone();
                    proof {
                        lemma_without(before.entries, path@);
                        lemma_total_remove(before.entries, i as int);
                        assert(before.entries.contains(e@));
                    }
                    self.add_last(e);
                    Some(chunks)
                } else {
                    None
                }
            },
        }
    }

    /// Records the vectors of the file at `path`, in place of those recorded before, as the most
    /// recently used ones. The least recently used entries go to make room for them.
    pub fn store(&mut self, path: &RepoPath, mtime: i128, len: u64, chunks: Arc<Vec<EmbeddedChunk>>)
        requires
            old(self).wf(),
        ensures
            final(self).wf(),
            final(self)@ == old(self)@.stored(
                (VectorEntryView { path: path@, mtime, len, chunks }),
            ),
    {
        let ghost before = self@;
        match self.position(path) {
            Some(i) => {
                assert(before.entries[i as int] == self.entries@[i as int]@);
                let _ = self.take(i);
            },
            None => {
                proof {
                    assert forall|j: int| 0 <= j < before.entries.len() implies (
                    #[trigger] before.entries[j]).path != path@ by {
                        assert(before.entries[j].path == self.entries@[j].path@);
                    }
                    lemma_without_absent(before.entries, path@);
                }
            },
        }
        let ghost rest = without(before.entries, path@);
        proof {
            lemma_without(before.entries, path@);
        }
        match bytes_within(&*chunks, self.max_bytes) {
            None => {},
            Some(bytes) => {
                let room: usize = self.max_bytes - bytes;
                while self.total > room
                    invariant
                        self.wf(),
                        self@.max_bytes == before.max_bytes,
                        fit(rest, room as int) == fit(self@.entries, room as int),
                        forall|j: int|
                            0 <= j < self@.entries.len() ==> (#[trigger] self@.entries[j]).path
                                != path@,
                    decreases self@.entries.len(),
                {
                    assert(self@.entries.len() > 0);
                    let ghost now = self@.entries;
                    let _ = self.take(0);
                    assert(now.remove(0) =~= now.drop_first());
                    assert forall|j: int| 0 <= j < self@.entries.len() implies (
                    #[trigger] self@.entries[j]).path != path@ by {
                        assert(self@.entries[j] == now[j + 1]);
                    }
                }
                let e = VectorEntry { path: path.copy(), mtime, len, chunks, bytes };
                self.add_last(e);
            },
        }
    }
}

/// Vectors that have been stored are found by a reader who finds the file with the modification
/// time and length that they were stored under, unless they are over the whole budget; a reader
/// who finds another time or length does not find them.
pub proof fn law_stored_vectors_are_found(cache: VectorCacheView, e: VectorEntryView)
    requires
        cache.wf(),
        e.bytes() <= cache.max_bytes,
    ensures
        cache.stored(e).entries.contains(e),
        forall|i: int, mtime: i128, len: u64|
            0 <= i < cache.stored(e).entries.len() && (mtime != e.mtime || len != e.len)
                ==> !#[trigger] serves(cache.stored(e).entries[i], e.path, mtime, len),
{
    law_index_keeps_to_its_budget(cache, e);
    let after = cache.stored(e).entries;
    assert(after[after.len() - 1] == e);
    assert forall|i: int, mtime: i128, len: u64|
        0 <= i < after.len() && (mtime != e.mtime || len != e.len) implies !#[trigger] serves(
        after[i],
        e.path,
        mtime,
        len,
    ) by {
        if i < after.len() - 1 {
            assert(after[i].path != after[after.len() - 1].path);
        }
    }
}

/// Using an entry of the index changes the order of the entries and nothing else.
pub proof fn lemma_used(cache: VectorCacheView, e: VectorEntryView)
    requires
        cache.wf(),
        cache.entries.contains(e),
    ensures
        cache.used(e).wf(),
        total_bytes(cache.used(e).entries) == total_bytes(cache.entries),
        forall|x: VectorEntryView| #[trigger]
            cache.used(e).entries.contains(x) == cache.entries.contains(x),
{
    law_index_keeps_to_its_budget(cache, e);
    let entries = cache.entries;
    let i = choose|i: int| 0 <= i < entries.len() && entries[i] == e;
    lemma_without_at(entries, i);
    lemma_total_remove(entries, i);
    lemma_total_push(entries.remove(i), e);
    let after = cache.used(e).entries;
    assert(after =~= entries.remove(i).push(e));
    assert forall|x: VectorEntryView| #[trigger] after.contains(x) == entries.contains(x) by {
        if entries.contains(x) {
            let k = choose|k: int| 0 <= k < entries.len() && entries[k] == x;
            if k < i {
                assert(after[k] == x);
            } else if k == i {
                assert(after[after.len() - 1] == x);
            } else {
                assert(after[k - 1] == x);
            }
        }
        if after.contains(x) {
            let k = choose|k: int| 0 <= k < after.len() && after[k] == x;
            if k < i {
                assert(entries[k] == x);
            } else if k < after.len() - 1 {
                assert(entries[k + 1] == x);
            } else {
                assert(entries[i] == x);
            }
        }
    }
}

/// What is left without a file's entries are the entries of all other files.
proof fn lemma_without_contains(entries: Seq<VectorEntryView>, path: PathView, x: VectorEntryView)
    ensures
        without(entries, path).contains(x) == (entries.contains(x) && x.path != path),
    decreases entries.len(),
{
    if entries.len() > 0 {
        let before = entries.drop_last();
        let last = entries.last();
        let less = without(before, path);
        let rest = without(entries, path);
        lemma_without_contains(before, path, x);
        if entries.contains(x) {
            let k = choose|k: int| 0 <= k < entries.len() && entries[k] == x;
            if k < before.len() {
                assert(before[k] == x);
            }
        }
        if before.contains(x) {
            let k = choose|k: int| 0 <= k < before.len() && before[k] == x;
            assert(entries[k] == x);
        }
        if less.contains(x) {
            let k = choose|k: int| 0 <= k < less.len() && less[k] == x;
            assert(rest[k] == x);
        }
        if x == last {
            assert(entries[entries.len() - 1] == x);
            if x.path != path {
                assert(rest[rest.len() - 1] == x);
            }
        }
        if rest.contains(x) {
            let k = choose|k: int| 0 <= k < rest.len() && rest[k] == x;
            if k < less.len() {
                assert(less[k] == x);
            }
        }
    }
}

/// Storing an entry makes up no other.
pub proof fn lemma_stored_adds_one(cache: VectorCacheView, e: VectorEntryView)
    requires
        cache.wf(),
    ensures
        forall|x: VectorEntryView| #[trigger]
            cache.stored(e).entries.contains(x) ==> x == e || cache.entries.contains(x),
{
    let rest = without(cache.entries, e.path);
    let after = cache.stored(e).entries;
    assert forall|x: VectorEntryView| #[trigger] after.contains(x) implies x == e
        || cache.entries.contains(x) by {
        lemma_without_contains(cache.entries, e.path, x);
        let k = choose|k: int| 0 <= k < after.len() && after[k] == x;
        if e.bytes() <= cache.max_bytes {
            let room = cache.max_bytes - e.bytes();
            law_least_recently_used_go_first(rest, room);
            let kept = fit(rest, room);
            if k < kept.len() {
                assert(rest[rest.len() - kept.len() + k] == x);
            }
        }
    }
}

/// The entries behind a place take at most what all of them take.
proof fn lemma_total_skip(entries: Seq<VectorEntryView>, t: int)
    requires
        0 <= t <= entries.len(),
    ensures
        total_bytes(entries.skip(t)) <= total_bytes(entries),
    decreases entries.len(),
{
    if t == entries.len() {
        assert(entries.skip(t) =~= Seq::<VectorEntryView>::empty());
    } else {
        let before = entries.drop_last();
        lemma_total_skip(before, t);
        assert(entries.skip(t).drop_last() =~= before.skip(t));
        assert(entries.skip(t).last() == entries.last());
    }
}

/// Taking the entries of a file out of two parts is taking them out of the whole.
proof fn lemma_without_concat(a: Seq<VectorEntryView>, b: Seq<VectorEntryView>, path: PathView)
    ensures
        without(a + b, path) == without(a, path) + without(b, path),
    decreases b.len(),
{
    if b.len() == 0 {
        assert(a + b =~= a);
        assert(without(a, path) + without(b, path) =~= without(a, path));
    } else {
        let rest = b.drop_last();
        lemma_without_concat(a, rest, path);
        assert((a + b).drop_last() =~= a + rest);
        assert((a + b).last() == b.last());
        assert(without(a + b, path) =~= without(a, path) + without(b, path));
    }
}

/// Whether the entries of `cache` behind the first `t` take at most `bytes`.
pub open spec fn recent_take(cache: VectorCacheView, t: int, bytes: nat) -> bool {
    0 <= t <= cache.entries.len() && total_bytes(cache.entries.skip(t)) <= bytes
}

/// Using an entry makes it one of the recent ones, and leaves the others of them.
pub proof fn lemma_used_is_recent(cache: VectorCacheView, e: VectorEntryView, t: int, bytes: nat) -> (
    u: int)
    requires
        cache.wf(),
        cache.entries.contains(e),
        recent_take(cache, t, bytes),
    ensures
        recent_take(cache.used(e), u, bytes + e.bytes()),
        cache.used(e).entries.skip(u).contains(e),
        forall|x: VectorEntryView| #[trigger]
            cache.entries.skip(t).contains(x) ==> cache.used(e).entries.skip(u).contains(x),
{
    let entries = cache.entries;
    let i = choose|i: int| 0 <= i < entries.len() && entries[i] == e;
    lemma_without_at(entries, i);
    let after = cache.used(e).entries;
    assert(after =~= entries.remove(i).push(e));
    let tail = entries.skip(t);
    let u = if i < t {
        t - 1
    } else {
        t
    };
    let recent = after.skip(u);
    if i < t {
        assert(recent =~= tail.push(e));
        lemma_total_push(tail, e);
    } else {
        assert(recent =~= tail.remove(i - t).push(e));
        assert(tail[i - t] == e);
        lemma_total_remove(tail, i - t);
        lemma_total_push(tail.remove(i - t), e);
    }
    assert(recent[recent.len() - 1] == e);
    assert forall|x: VectorEntryView| #[trigger] tail.contains(x) implies recent.contains(x) by {
        let k = choose|k: int| 0 <= k < tail.len() && tail[k] == x;
        if i < t || k < i - t {
            assert(recent[k] == x);
        } else if k > i - t {
            assert(recent[k - 1] == x);
        }
    }
    u
}

/// An entry that there is room for beside the recent ones becomes one of them, and leaves those of
/// other files.
pub proof fn lemma_stored_is_recent(
    cache: VectorCacheView,
    e: VectorEntryView,
    t: int,
    bytes: nat,
) -> (u: int)
    requires
        cache.wf(),
        recent_take(cache, t, bytes),
        bytes + e.bytes() <= cache.max_bytes,
    ensures
        recent_take(cache.stored(e), u, bytes + e.bytes()),
        cache.stored(e).entries.skip(u).contains(e),
        forall|x: VectorEntryView|
            x.path != e.path && #[trigger] cache.entries.skip(t).contains(x) ==> cache.stored(
                e,
            ).entries.skip(u).contains(x),
{
    let entries = cache.entries;
    let head = entries.take(t);
    let tail = entries.skip(t);
    assert(entries =~= head + tail);
    lemma_without_concat(head, tail, e.path);
    let rest = without(entries, e.path);
    let a = without(head, e.path).len() as int;
    let kept_tail = without(tail, e.path);
    assert(rest.skip(a) =~= kept_tail);
    assert forall|i: int, j: int| 0 <= i < j < tail.len() implies (#[trigger] tail[i]).path != (
    #[trigger] tail[j]).path by {
        assert(tail[i] == entries[t + i] && tail[j] == entries[t + j]);
    }
    lemma_without(tail, e.path);
    let room = cache.max_bytes - e.bytes();
    law_least_recently_used_go_first(rest, room);
    let kept = fit(rest, room);
    let gone = rest.len() - kept.len();
    if gone > a {
        assert(rest.skip(gone - 1) =~= kept_tail.skip(gone - 1 - a));
        lemma_total_skip(kept_tail, gone - 1 - a);
    }
    let after = cache.stored(e).entries;
    let u = a - gone;
    let recent = after.skip(u);
    assert(recent =~= kept_tail.push(e));
    lemma_total_push(kept_tail, e);
    assert(recent[recent.len() - 1] == e);
    assert forall|x: VectorEntryView|
        x.path != e.path && #[trigger] tail.contains(x) implies recent.contains(x) by {
        lemma_without_contains(tail, e.path, x);
        let k = choose|k: int| 0 <= k < kept_tail.len() && kept_tail[k] == x;
        assert(recent[k] == x);
    }
    u
}

} // verus!
