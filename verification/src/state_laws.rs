//! What the index, the registries, the vectors and the watcher give back and leave behind, call by
//! call.

use std::sync::Arc;
use vstd::prelude::*;

use crate::cache::FileCache;
use crate::dir_cache::DirCache;
use crate::extractors::{ExtractorRegistry, StructuralExtractor};
use crate::index_laws::{law_batches_forget_what_changed, law_paths_are_covered_by_a_root};
use crate::number_laws::{
    law_buckets_are_told_by_their_boundaries, law_the_order_is_that_of_the_values, value_of,
};
use crate::paths::{path_views, PathView, RepoPath};
use crate::quantizer::{
    at_most, is_finite, is_finite_number, is_nan, is_no_number, order_key_of, quantize_coordinate,
    QuantizedVector,
};
use crate::ranking::{
    comes_before, law_the_greatest_similarities_are_kept, ranked, scored_views, top_k, Scored,
};
use crate::search_backend::{SearchBackend, SearchBackendRegistry};
use crate::vector_cache::{serves, EmbeddedChunk, VectorCache, VectorEntryView};
use crate::watcher::{
    apply_batch, is_relevant, Drain, DrainEvent, DrainPhase, EventClass, RepoWatcher,
};

verus! {

/// Vectors are given back exactly if they were stored for the file as it is; their entry becomes
/// the most recent one. Else nothing changes.
pub proof fn law_the_index_gives_fresh_vectors(
    index: &mut VectorCache,
    path: &RepoPath,
    mtime: i128,
    len: u64,
    r: Option<Arc<Vec<EmbeddedChunk>>>,
)
    requires
        call_ensures(VectorCache::get_if_fresh, (index, path, mtime, len), r),
    ensures
        r is Some <==> exists|i: int|
            0 <= i < old(index)@.entries.len() && (#[trigger] old(index)@.entries[i]).path == path@
                && old(index)@.entries[i].mtime == mtime && old(index)@.entries[i].len == len,
        r matches Some(chunks) ==> old(index)@.entries.contains(
            VectorEntryView { path: path@, mtime, len, chunks },
        ) && final(index)@ == old(index)@.used(VectorEntryView { path: path@, mtime, len, chunks }),
        r is None ==> final(index)@ == old(index)@,
{
    let entries = old(index)@.entries;
    if let Some(chunks) = r {
        let e = VectorEntryView { path: path@, mtime, len, chunks };
        let i = choose|i: int| 0 <= i < entries.len() && entries[i] == e;
        assert(entries[i].path == path@);
    } else {
        assert forall|i: int| 0 <= i < entries.len() implies !((#[trigger] entries[i]).path == path@
            && entries[i].mtime == mtime && entries[i].len == len) by {
            assert(!serves(entries[i], path@, mtime, len));
        }
    }
}

/// Vectors are stored for the file as it is.
pub proof fn law_the_index_stores_vectors(
    index: &mut VectorCache,
    path: &RepoPath,
    mtime: i128,
    len: u64,
    chunks: Arc<Vec<EmbeddedChunk>>,
)
    requires
        call_ensures(VectorCache::store, (index, path, mtime, len, chunks), ()),
    ensures
        final(index)@ == old(index)@.stored(
            VectorEntryView { path: path@, mtime, len, chunks },
        ),
{
}

/// An index starts empty, with the budget that it is given.
pub proof fn law_an_index_starts_empty(max_bytes: usize, r: VectorCache)
    requires
        call_ensures(VectorCache::new, (max_bytes,), r),
    ensures
        r@.max_bytes == max_bytes,
        r@.entries.len() == 0,
{
}

/// What is registered is found by its name, and nothing else is.
pub proof fn law_what_is_registered_is_found(
    extractors: &ExtractorRegistry,
    backends: &SearchBackendRegistry,
    name: &str,
    extractor: Option<&Arc<dyn StructuralExtractor>>,
    backend: Option<&Arc<dyn SearchBackend>>,
)
    requires
        call_ensures(ExtractorRegistry::get, (extractors, name), extractor),
        call_ensures(SearchBackendRegistry::get, (backends, name), backend),
    ensures
        extractor is Some <==> extractors@.contains_key(name@),
        extractor matches Some(x) ==> *x == extractors@[name@],
        backend is Some <==> backends@.contains_key(name@),
        backend matches Some(x) ==> *x == backends@[name@],
{
}

/// A number is told to be finite, or to be none, by its exponent and its fraction.
pub proof fn law_telling_numbers(bits: u64, finite: bool, none: bool)
    requires
        call_ensures(is_finite_number, (bits,), finite),
        call_ensures(is_no_number, (bits,), none),
    ensures
        finite <==> (bits / 0x10_0000_0000_0000) % 0x800 != 0x7ff,
        none <==> (bits / 0x10_0000_0000_0000) % 0x800 == 0x7ff && bits % 0x10_0000_0000_0000 != 0,
{
}

/// The order of finite numbers is that of their values.
pub proof fn law_ordering_numbers(a: u64, b: u64, x: i64, y: i64)
    requires
        call_ensures(order_key_of, (a,), x),
        call_ensures(order_key_of, (b,), y),
        is_finite(a),
        is_finite(b),
    ensures
        x < y <==> value_of(a) < value_of(b),
        x == y <==> value_of(a) == value_of(b),
{
    law_the_order_is_that_of_the_values(a, b);
    law_the_order_is_that_of_the_values(b, a);
}

/// With ascending boundaries, the bucket of a number is behind the boundaries that are at most the
/// number, and before the others.
pub proof fn law_quantizing_a_coordinate(x: u64, boundaries: &Vec<u64>, r: u8, i: int)
    requires
        call_ensures(quantize_coordinate, (x, boundaries), r),
        forall|j: int| 0 <= j < boundaries@.len() ==> !is_nan(#[trigger] boundaries@[j]),
        forall|j: int, k: int|
            0 <= j < k < boundaries@.len() ==> at_most(
                #[trigger] boundaries@[j],
                #[trigger] boundaries@[k],
            ),
        0 <= i < boundaries@.len(),
        i < 255,
    ensures
        at_most(boundaries@[i], x) <==> i < r,
{
    law_buckets_are_told_by_their_boundaries(boundaries@, x, r as int, i);
}

/// Every coordinate of a vector is quantized by itself, and the factor starts at one.
pub proof fn law_quantizing_a_vector(
    rotated: &Vec<u64>,
    boundaries: &Vec<u64>,
    r: QuantizedVector,
    k: int,
    i: int,
)
    requires
        call_ensures(QuantizedVector::encode, (rotated, boundaries), r),
        forall|j: int| 0 <= j < boundaries@.len() ==> !is_nan(#[trigger] boundaries@[j]),
        forall|j: int, l: int|
            0 <= j < l < boundaries@.len() ==> at_most(
                #[trigger] boundaries@[j],
                #[trigger] boundaries@[l],
            ),
        0 <= k < rotated@.len(),
        0 <= i < boundaries@.len(),
        i < 255,
    ensures
        r@.correction == 0x3f80_0000,
        r@.buckets.len() == rotated@.len(),
        at_most(boundaries@[i], rotated@[k]) <==> i < r@.buckets[k],
{
    let b = r@.buckets[k];
    law_buckets_are_told_by_their_boundaries(boundaries@, rotated@[k], b as int, i);
}

/// The factor is the inverse of the product, and one where the product is no number or within 1e-6
/// of zero; the buckets stay.
pub proof fn law_renormalizing_a_vector(v: &mut QuantizedVector, self_dot: u64, inverse: u32)
    requires
        call_ensures(QuantizedVector::renormalize, (v, self_dot, inverse), ()),
    ensures
        final(v)@.buckets == old(v)@.buckets,
        final(v)@.correction == (if is_nan(self_dot) || at_most(0xbeb0_c6f7_a000_0000, self_dot)
            && at_most(self_dot, 0x3eb0_c6f7_a000_0000) {
            0x3f80_0000
        } else {
            inverse
        }),
{
}

/// A vector decodes to the centroid of each of its buckets.
pub proof fn law_decoding_a_vector(
    v: &QuantizedVector,
    centroids: &Vec<u64>,
    r: Vec<u64>,
    correction: u32,
    dim: usize,
    bytes: usize,
)
    ensures
        call_ensures(QuantizedVector::decode, (v, centroids), r) ==> r@ == v@.buckets.map_values(
            |b: u8| centroids@[b as int],
        ),
        call_ensures(QuantizedVector::correction, (v,), correction) ==> correction
            == v@.correction,
        call_ensures(QuantizedVector::dim, (v,), dim) ==> dim == v@.buckets.len(),
        call_ensures(QuantizedVector::byte_size, (v,), bytes) ==> bytes == v@.buckets.len() + 4,
{
    if call_ensures(QuantizedVector::decode, (v, centroids), r) {
        assert(r@ =~= v@.buckets.map_values(|b: u8| centroids@[b as int]));
    }
}

/// The matches that are kept come with the greatest similarities first; with what is left out they
/// are all the matches, and nothing that is left out is greater.
pub proof fn law_keeping_the_best(items: Vec<Scored>, k: usize, r: Vec<Scored>)
    requires
        call_ensures(top_k, (items, k), r),
    ensures
        ({
            let left_out = ranked(scored_views(items@)).skip(r@.len() as int);
            &&& r@.len() == (if k < items@.len() {
                k as int
            } else {
                items@.len() as int
            })
            &&& (scored_views(r@) + left_out).to_multiset() == scored_views(items@).to_multiset()
            &&& forall|i: int, j: int|
                0 <= i < j < r@.len() ==> !comes_before(
                    (#[trigger] r@[j]).similarity,
                    (#[trigger] r@[i]).similarity,
                )
            &&& forall|i: int, j: int|
                0 <= i < r@.len() && 0 <= j < left_out.len() ==> !comes_before(
                    (#[trigger] left_out[j]).similarity,
                    (#[trigger] r@[i]).similarity,
                )
        }),
{
    law_the_greatest_similarities_are_kept(scored_views(items@), k as int);
    assert forall|i: int| 0 <= i < r@.len() implies (#[trigger] r@[i]).similarity == scored_views(
        r@,
    )[i].similarity by {
        assert(scored_views(r@)[i] == r@[i]@);
    }
}

/// A match of similarity `a` belongs before one of similarity `b` exactly if `a` is a number, and
/// `b` is none or smaller.
pub proof fn law_which_match_comes_first(a: u64, b: u64)
    ensures
        is_nan(a) ==> !comes_before(a, b),
        !is_nan(a) && is_nan(b) ==> comes_before(a, b),
        is_finite(a) && is_finite(b) ==> (comes_before(a, b) <==> value_of(b) < value_of(a)),
        !is_nan(a) && !is_nan(b) ==> (comes_before(a, b) <==> !at_most(a, b)),
{
    if is_finite(a) && is_finite(b) {
        law_the_order_is_that_of_the_values(b, a);
    }
}

/// Events that create, modify or remove something count, and no others.
pub proof fn law_which_events_count(kind: EventClass, r: bool)
    requires
        call_ensures(is_relevant, (kind,), r),
    ensures
        r <==> kind is Create || kind is Modify || kind is Remove,
{
}

/// A directory is to be watched exactly if no watched directory is it or above it; it is watched
/// once that could be started.
pub proof fn law_watching_what_is_not_covered(
    watcher: &mut RepoWatcher,
    root: &RepoPath,
    r: Option<RepoPath>,
    none: Option<RepoPath>,
    succeeded: bool,
)
    ensures
        call_ensures(RepoWatcher::ensure_watching, (&*old(watcher), Some(root)), r) ==> (r is Some
            <==> forall|w: PathView|
            old(watcher)@.contains(w) ==> !#[trigger] root@.starts_with(w)),
        call_ensures(RepoWatcher::ensure_watching, (&*old(watcher), Some(root)), r) ==> (r matches
            Some(path) ==> path@ == root@),
        call_ensures(RepoWatcher::ensure_watching, (&*old(watcher), None), none) ==> none is None,
        call_ensures(RepoWatcher::started, (watcher, root, succeeded), ()) ==> final(watcher)@ == (
        if succeeded {
            old(watcher)@.insert(root@)
        } else {
            old(watcher)@
        }),
{
    law_paths_are_covered_by_a_root(old(watcher)@, root@);
}

/// The watched directories are given back, each once.
pub proof fn law_the_watched_directories(watcher: &RepoWatcher, r: Vec<RepoPath>, p: PathView)
    requires
        call_ensures(RepoWatcher::roots, (watcher,), r),
    ensures
        watcher@.contains(p) <==> path_views(r@).contains(p),
        path_views(r@).no_duplicates(),
{
    assert(watcher@.contains(p) <==> path_views(r@).to_set().contains(p));
}

/// A batch forgets what changed, and nothing else.
pub proof fn law_applying_a_batch(
    paths: &Vec<RepoPath>,
    dirs: &mut DirCache,
    files: &mut FileCache,
    p: PathView,
)
    requires
        call_ensures(apply_batch, (paths, dirs, files), ()),
    ensures
        final(dirs)@.contains_key(p) <==> old(dirs)@.contains_key(p) && forall|i: int|
            0 <= i < paths@.len() ==> (#[trigger] paths@[i])@ != p && paths@[i]@.parent() != Some(p),
        final(dirs)@.contains_key(p) ==> final(dirs)@[p] == old(dirs)@[p],
        final(files)@.contains_key(p) <==> old(files)@.contains_key(p) && forall|i: int|
            0 <= i < paths@.len() ==> (#[trigger] paths@[i])@ != p,
        final(files)@.contains_key(p) ==> final(files)@[p] == old(files)@[p],
{
    let all = path_views(paths@);
    law_batches_forget_what_changed(old(dirs)@, old(files)@, all, p);
    assert forall|i: int| 0 <= i < paths@.len() implies #[trigger] all[i] == paths@[i]@ by {}
    assert forall|i: int| 0 <= i < paths@.len() implies (#[trigger] paths@[i])@ == all[i] by {}
}

/// A change is collected behind those before it, and hands nothing out.
pub proof fn law_collecting_a_change(
    drain: &mut Drain,
    path: RepoPath,
    r: Option<Vec<RepoPath>>,
)
    requires
        call_ensures(Drain::step, (drain, DrainEvent::Changed(path)), r),
    ensures
        r is None,
        old(drain)@.phase is Idle ==> final(drain)@.phase is Gathering && final(drain)@.batch
            == seq![path@],
        old(drain)@.phase is Gathering || old(drain)@.phase is Late ==> final(drain)@.phase == old(drain)@.phase && final(drain)@.batch == old(drain)@.batch.push(path@),
        old(drain)@.phase is Closed ==> final(drain)@ == old(drain)@,
{
}

/// When nothing changes, what was collected is handed out whole.
pub proof fn law_handing_out_a_batch(
    drain: &mut Drain,
    event: DrainEvent,
    r: Option<Vec<RepoPath>>,
)
    requires
        !(event is Changed),
        call_ensures(Drain::step, (drain, event), r),
    ensures
        r is Some <==> old(drain)@.phase is Gathering || old(drain)@.phase is Late && old(drain)@.batch.len() > 0,
        r matches Some(batch) ==> path_views(batch@) == old(drain)@.batch && final(drain)@.batch.len() == 0,
        final(drain)@.phase is Closed <==> old(drain)@.phase is Closed || old(drain)@.phase is Idle
            && event is Closed,
        old(drain)@.phase is Gathering ==> final(drain)@.phase is Late && final(drain)@.passes == 0,
        old(drain)@.phase is Late && old(drain)@.batch.len() > 0 && old(drain)@.passes < 19
            ==> final(drain)@.phase is Late && final(drain)@.passes == old(drain)@.passes + 1,
        old(drain)@.phase is Late && (old(drain)@.batch.len() == 0 || old(drain)@.passes >= 19)
            ==> final(drain)@.phase is Idle,
{
}

/// A collector starts idle, and says what it waits for.
pub proof fn law_a_collector_starts_idle(drain: Drain, other: &Drain, phase: DrainPhase)
    requires
        call_ensures(Drain::new, (), drain),
        call_ensures(Drain::phase, (other,), phase),
    ensures
        drain@.phase is Idle,
        drain@.batch.len() == 0,
        phase == other@.phase,
{
}

} // verus!
