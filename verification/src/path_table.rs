//! A table from paths to values: a concurrent hash map finds the slot of a path, and the slots
//! are held side by side.

use dashmap::DashMap;
use vstd::prelude::*;

use crate::paths::{copy_parts, part_views, PathView, RepoPath};

verus! {

/// What a path is looked up by: whether it is anchored, and its components.
pub type PathKey = (bool, Vec<Vec<u8>>);

/// The path that a key stands for.
pub open spec fn key_view(key: PathKey) -> PathView {
    PathView { anchored: key.0, parts: part_views(key.1@) }
}

/// The hash map of the `dashmap` crate.
#[verifier::external_type_specification]
#[verifier::external_body]
#[verifier::reject_recursive_types(K)]
#[verifier::reject_recursive_types(V)]
#[verifier::reject_recursive_types(S)]
pub struct ExDashMap<K, V, S>(DashMap<K, V, S>);

/// The keys that a `DashMap` holds, each with the value that it is mapped to.
pub uninterp spec fn indexed(map: DashMap<PathKey, usize>) -> Map<PathView, usize>;

/// Calls `DashMap::new`, which makes a map that holds nothing.
#[verifier::external_body]
fn index_new() -> (r: DashMap<PathKey, usize>)
    ensures
        (indexed(r) == Map::<PathView, usize>::empty()),
{
    DashMap::new()
}

/// Calls `DashMap::get` and copies the value out: it is found exactly where the map holds the key.
#[verifier::external_body]
fn index_get(map: &DashMap<PathKey, usize>, key: &PathKey) -> (r: Option<usize>)
    ensures
        match r {
            Some(i) => indexed(*map).contains_key(key_view(*key)) && indexed(*map)[key_view(*key)]
                == i,
            None => !indexed(*map).contains_key(key_view(*key)),
        },
{
    map.get(key).map(|slot| *slot)
}

/// Calls `DashMap::insert`, which maps the key to the value, in place of what it was mapped to.
#[verifier::external_body]
fn index_insert(map: &mut DashMap<PathKey, usize>, key: PathKey, slot: usize)
    ensures
        indexed(*final(map)) == indexed(*old(map)).insert(key_view(key), slot),
{
    map.insert(key, slot);
}

/// Calls `DashMap::remove`, which takes the key out of the map and gives the value that it was
/// mapped to; where the map does not hold the key, nothing changes.
#[verifier::external_body]
fn index_remove(map: &mut DashMap<PathKey, usize>, key: &PathKey) -> (r: Option<usize>)
    ensures
        indexed(*final(map)) == indexed(*old(map)).remove(key_view(*key)),
        match r {
            Some(i) => indexed(*old(map)).contains_key(key_view(*key)) && indexed(
                *old(map),
            )[key_view(*key)] == i,
            None => !indexed(*old(map)).contains_key(key_view(*key)),
        },
{
    map.remove(key).map(|pair| pair.1)
}

/// What a path is looked up by.
pub fn key_of(path: &RepoPath) -> (r: PathKey)
    ensures
        key_view(r) == path@,
{
    let parts = copy_parts(&path.parts, path.parts.len());
    assert(part_views(parts@) =~= path@.parts);
    (path.anchored, parts)
}

/// A path of the table, with its value.
struct Slot<V> {
    path: RepoPath,
    value: V,
}

/// A table from paths to values.
#[verifier::reject_recursive_types(V)]
pub struct PathTable<V> {
    index: DashMap<PathKey, usize>,
    slots: Vec<Slot<V>>,
}

impl<V> View for PathTable<V> {
    type V = Map<PathView, V>;

    closed spec fn view(&self) -> Map<PathView, V> {
        Map::new(
            |p: PathView| indexed(self.index).contains_key(p),
            |p: PathView| self.slots@[indexed(self.index)[p] as int].value,
        )
    }
}

impl<V> PathTable<V> {
    /// Every path of the index has a slot, and every slot is where the index says.
    pub closed spec fn wf(self) -> bool {
        &&& forall|p: PathView| #[trigger]
            indexed(self.index).contains_key(p) ==> indexed(self.index)[p] < self.slots@.len()
                && self.slots@[indexed(self.index)[p] as int].path@ == p
        &&& forall|i: int|
            0 <= i < self.slots@.len() ==> indexed(self.index).contains_key(
                (#[trigger] self.slots@[i]).path@,
            ) && indexed(self.index)[self.slots@[i].path@] == i
    }

    /// The table that holds nothing.
    pub fn new() -> (r: Self)
        ensures
            r.wf(),
            r@ == Map::<PathView, V>::empty(),
    {
        let r = PathTable { index: index_new(), slots: Vec::new() };
        assert(r@ =~= Map::<PathView, V>::empty());
        r
    }

    /// The value of `path`, if the table holds one.
    pub fn get(&self, path: &RepoPath) -> (r: Option<&V>)
        requires
            self.wf(),
        ensures
            match r {
                Some(v) => self@.contains_key(path@) && *v == self@[path@],
                None => !self@.contains_key(path@),
            },
    {
        match index_get(&self.index, &key_of(path)) {
            Some(i) => Some(&self.slots[i].value),
            None => None,
        }
    }

    /// Gives `path` the value `value`, in place of the one that it had.
    pub fn insert(&mut self, path: &RepoPath, value: V)
        requires
            old(self).wf(),
        ensures
            final(self).wf(),
            final(self)@ == old(self)@.insert(path@, value),
    {
        let key = key_of(path);
        match index_get(&self.index, &key) {
            Some(i) => {
                self.slots.set(i, Slot { path: path.copy(), value });
            },
            None => {
                let i: usize = self.slots.len();
                self.slots.push(Slot { path: path.copy(), value });
                index_insert(&mut self.index, key, i);
            },
        }
        assert(self@ =~= old(self)@.insert(path@, value));
    }

    /// Takes the value of `path` out of the table. A path that has none is left without one.
    pub fn remove(&mut self, path: &RepoPath)
        requires
            old(self).wf(),
        ensures
            final(self).wf(),
            final(self)@ == old(self)@.remove(path@),
    {
        let key = key_of(path);
        match index_remove(&mut self.index, &key) {
            Some(i) => {
                let ghost last = self.slots@.last().path@;
                self.slots.swap_remove(i);
                if i < self.slots.len() {
                    assert(self.slots@[i as int].path@ == last);
                    let moved = key_of(&self.slots[i].path);
                    index_insert(&mut self.index, moved, i);
                }
            },
            None => {},
        }
        assert(self@ =~= old(self)@.remove(path@));
    }
}

} // verus!
