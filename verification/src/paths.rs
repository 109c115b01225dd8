//! Paths as lists of components.

use vstd::prelude::*;
use vstd::utf8::*;

use crate::text::{decode, same_bytes};

verus! {

/// A path, split into its components.
///
/// A component is the bytes of a file name, `.`, or `..`. When `anchored` is set, the first
/// component is the root (or the prefix and root) that an absolute path starts from.
pub struct RepoPath {
    pub anchored: bool,
    pub parts: Vec<Vec<u8>>,
}

/// What a `RepoPath` stands for.
#[verifier::ext_equal]
pub struct PathView {
    pub anchored: bool,
    pub parts: Seq<Seq<u8>>,
}

/// The contents of a sequence of byte strings.
pub open spec fn part_views(v: Seq<Vec<u8>>) -> Seq<Seq<u8>> {
    Seq::new(v.len(), |i: int| v[i]@)
}

impl View for RepoPath {
    type V = PathView;

    open spec fn view(&self) -> PathView {
        PathView { anchored: self.anchored, parts: part_views(self.parts@) }
    }
}

/// The views of a sequence of paths.
pub open spec fn path_views(v: Seq<RepoPath>) -> Seq<PathView> {
    Seq::new(v.len(), |i: int| v[i]@)
}

/// The part of a file name after its last dot. There is none where the name has no dot, or where
/// its only dot is its first byte.
pub open spec fn name_extension(name: Seq<u8>) -> Option<Seq<u8>> {
    if exists|d: int| is_last_dot(name, d) && d > 0 {
        let d = choose|d: int| is_last_dot(name, d) && d > 0;
        Some(name.skip(d + 1))
    } else {
        None
    }
}

/// Whether the last dot of `name` is at `d`.
pub open spec fn is_last_dot(name: Seq<u8>, d: int) -> bool {
    &&& 0 <= d < name.len()
    &&& name[d] == 0x2e
    &&& forall|i: int| d < i < name.len() ==> #[trigger] name[i] != 0x2e
}

impl PathView {
    /// How many components come before the first name.
    pub open spec fn base(self) -> nat {
        if self.anchored {
            1
        } else {
            0
        }
    }

    /// Whether the last component is `.` or `..`.
    pub open spec fn ends_in_dots(self) -> bool {
        self.parts.last() == seq![0x2eu8] || self.parts.last() == seq![0x2eu8, 0x2eu8]
    }

    /// The last component, if it is the name of a file or directory.
    pub open spec fn file_name(self) -> Option<Seq<u8>> {
        if self.parts.len() > self.base() && !self.ends_in_dots() {
            Some(self.parts.last())
        } else {
            None
        }
    }

    /// The extension of the file name.
    pub open spec fn extension(self) -> Option<Seq<u8>> {
        match self.file_name() {
            Some(name) => name_extension(name),
            None => None,
        }
    }

    /// The extension as text, where it is valid UTF-8.
    pub open spec fn extension_text(self) -> Option<Seq<char>> {
        match self.extension() {
            Some(ext) => if valid_utf8(ext) {
                Some(decode_utf8(ext))
            } else {
                None
            },
            None => None,
        }
    }

    /// The path without its last component, if that is not what the path is anchored at.
    pub open spec fn parent(self) -> Option<PathView> {
        if self.parts.len() > self.base() {
            Some(PathView { anchored: self.anchored, parts: self.parts.drop_last() })
        } else {
            None
        }
    }

    /// The path of the entry called `name` in the directory at this path.
    pub open spec fn join(self, name: Seq<u8>) -> PathView {
        PathView { anchored: self.anchored, parts: self.parts.push(name) }
    }

    /// Whether `base` is this path or one of the directories above it.
    pub open spec fn starts_with(self, base: PathView) -> bool {
        &&& base.parts.len() > 0 ==> base.anchored == self.anchored
        &&& base.parts.len() <= self.parts.len()
        &&& self.parts.take(base.parts.len() as int) == base.parts
    }
}

/// Copies a byte string.
pub fn copy_bytes(a: &Vec<u8>) -> (r: Vec<u8>)
    ensures
        r@ == a@,
{
    vstd::slice::slice_to_vec(a.as_slice())
}

/// Copies the first `n` components of a path.
pub fn copy_parts(parts: &Vec<Vec<u8>>, n: usize) -> (r: Vec<Vec<u8>>)
    requires
        n <= parts@.len(),
    ensures
        part_views(r@) == part_views(parts@).take(n as int),
{
    let mut out: Vec<Vec<u8>> = Vec::new();
    let mut i: usize = 0;
    while i < n
        invariant
            i <= n <= parts@.len(),
            part_views(out@) =~= part_views(parts@).take(i as int),
        decreases n - i,
    {
        let part = copy_bytes(&parts[i]);
        let ghost before = out@;
        out.push(part);
        assert(part_views(out@) =~= part_views(before).push(part@));
        i = i + 1;
        assert(part_views(parts@).take(i as int) =~= part_views(parts@).take(i - 1).push(part@));
    }
    out
}

/// The part of a file name after its last dot; see `name_extension`.
pub fn extension_of(name: &Vec<u8>) -> (r: Option<Vec<u8>>)
    ensures
        match r {
            Some(ext) => name_extension(name@) == Some(ext@),
            None => name_extension(name@) is None,
        },
{
    let n: usize = name.len();
    let mut d: usize = n;
    while d > 0 && name[d - 1] != 0x2e
        invariant
            d <= n == name@.len(),
            forall|i: int| d <= i < n ==> #[trigger] name@[i] != 0x2e,
        decreases d,
    {
        d = d - 1;
    }
    if d > 1 {
        assert(is_last_dot(name@, d - 1));
        proof {
            let e = choose|e: int| is_last_dot(name@, e) && e > 0;
            if e < d - 1 {
                assert(name@[d - 1] != 0x2e);
            } else if e > d - 1 {
                assert(name@[e] != 0x2e);
            }
        }
        let ext = vstd::slice::slice_to_vec(
            vstd::slice::slice_subrange(name.as_slice(), d, n),
        );
        assert(ext@ =~= name@.skip(d as int));
        Some(ext)
    } else {
        None
    }
}

impl RepoPath {
    /// The path with these components.
    pub fn new(anchored: bool, parts: Vec<Vec<u8>>) -> (r: RepoPath)
        ensures
            r@ == (PathView { anchored, parts: part_views(parts@) }),
    {
        RepoPath { anchored, parts }
    }

    /// Copies the path.
    pub fn copy(&self) -> (r: RepoPath)
        ensures
            r@ == self@,
    {
        let parts = copy_parts(&self.parts, self.parts.len());
        assert(part_views(parts@) =~= part_views(self.parts@));
        RepoPath { anchored: self.anchored, parts }
    }

    /// Whether the path has a component behind what it is anchored at.
    fn has_names(&self) -> (r: bool)
        ensures
            r == (self@.parts.len() > self@.base()),
    {
        if self.anchored {
            self.parts.len() > 1
        } else {
            self.parts.len() > 0
        }
    }

    /// The last component, if it is the name of a file or directory.
    pub fn file_name(&self) -> (r: Option<&Vec<u8>>)
        ensures
            match r {
                Some(name) => self@.file_name() == Some(name@),
                None => self@.file_name() is None,
            },
    {
        if !self.has_names() {
            return None;
        }
        let last = &self.parts[self.parts.len() - 1];
        assert(last@ == self@.parts.last());
        assert(seq![0x2eu8].len() == 1 && seq![0x2eu8, 0x2eu8].len() == 2);
        let dots = (last.len() == 1 && last[0] == 0x2e) || (last.len() == 2 && last[0] == 0x2e
            && last[1] == 0x2e);
        proof {
            if dots {
                assert(last@ =~= seq![0x2eu8] || last@ =~= seq![0x2eu8, 0x2eu8]);
            }
        }
        if dots {
            None
        } else {
            Some(last)
        }
    }

    /// The extension of the file name.
    pub fn extension(&self) -> (r: Option<Vec<u8>>)
        ensures
            match r {
                Some(ext) => self@.extension() == Some(ext@),
                None => self@.extension() is None,
            },
    {
        match self.file_name() {
            Some(name) => extension_of(name),
            None => None,
        }
    }

    /// The extension as text, where it is valid UTF-8.
    pub fn extension_text(&self) -> (r: Option<String>)
        ensures
            match r {
                Some(ext) => self@.extension_text() == Some(ext@),
                None => self@.extension_text() is None,
            },
    {
        match self.extension() {
            Some(ext) => match decode(ext.as_slice()) {
                Ok(text) => Some(text),
                Err(_) => None,
            },
            None => None,
        }
    }

    /// The path without its last component, if that is not what the path is anchored at.
    pub fn parent(&self) -> (r: Option<RepoPath>)
        ensures
            match r {
                Some(p) => self@.parent() == Some(p@),
                None => self@.parent() is None,
            },
    {
        if !self.has_names() {
            return None;
        }
        let parts = copy_parts(&self.parts, self.parts.len() - 1);
        assert(part_views(parts@) =~= self@.parts.drop_last());
        Some(RepoPath { anchored: self.anchored, parts })
    }

    /// The path of the entry called `name` in the directory at this path.
    pub fn join(&self, name: &Vec<u8>) -> (r: RepoPath)
        ensures
            r@ == self@.join(name@),
    {
        let mut parts = copy_parts(&self.parts, self.parts.len());
        let ghost before = parts@;
        parts.push(copy_bytes(name));
        assert(part_views(parts@) =~= part_views(before).push(name@));
        assert(part_views(before) =~= self@.parts);
        RepoPath { anchored: self.anchored, parts }
    }

    /// Whether `base` is this path or one of the directories above it.
    pub fn starts_with(&self, base: &RepoPath) -> (r: bool)
        ensures
            r == self@.starts_with(base@),
    {
        let n: usize = base.parts.len();
        if n > 0 && base.anchored != self.anchored {
            return false;
        }
        if n > self.parts.len() {
            return false;
        }
        let mut i: usize = 0;
        while i < n
            invariant
                i <= n == base@.parts.len(),
                n <= self@.parts.len(),
                forall|j: int| 0 <= j < i ==> #[trigger] self@.parts[j] == base@.parts[j],
            decreases n - i,
        {
            if !same_bytes(self.parts[i].as_slice(), base.parts[i].as_slice()) {
                assert(self@.parts.take(n as int)[i as int] != base@.parts[i as int]);
                return false;
            }
            i = i + 1;
        }
        assert(self@.parts.take(n as int) =~= base@.parts);
        true
    }

    /// Whether two paths have the same components.
    pub fn same(&self, other: &RepoPath) -> (r: bool)
        ensures
            r == (self@ == other@),
    {
        if self.anchored != other.anchored || self.parts.len() != other.parts.len() {
            assert(self.parts.len() != other.parts.len() ==> self@.parts.len()
                != other@.parts.len());
            return false;
        }
        let r = self.starts_with(other);
        assert(self@.parts.take(self@.parts.len() as int) =~= self@.parts);
        r
    }
}

} // verus!
