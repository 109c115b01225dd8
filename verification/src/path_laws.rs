//! What the parts of paths come to.

use vstd::prelude::*;
use vstd::utf8::*;

use crate::paths::{is_last_dot, name_extension, PathView};

verus! {

/// The extension of a name is what follows its last dot; a dot at the very start does not count.
pub proof fn law_extension_follows_the_last_dot(stem: Seq<u8>, ext: Seq<u8>)
    requires
        forall|i: int| 0 <= i < ext.len() ==> #[trigger] ext[i] != 0x2e,
    ensures
        name_extension(stem + seq![0x2eu8] + ext) == (if stem.len() > 0 {
            Some(ext)
        } else {
            None
        }),
        name_extension(ext) is None,
{
    let name = stem + seq![0x2eu8] + ext;
    let d = stem.len() as int;
    assert(name[d] == 0x2e);
    assert forall|i: int| d < i < name.len() implies #[trigger] name[i] != 0x2e by {
        assert(name[i] == ext[i - d - 1]);
    }
    assert(is_last_dot(name, d));
    assert forall|e: int| is_last_dot(name, e) implies e == d by {
        if e < d {
            assert(name[d] != 0x2e);
        } else if e > d {
            assert(name[e] != 0x2e);
        }
    }
    if stem.len() > 0 {
        let e = choose|e: int| is_last_dot(name, e) && e > 0;
        assert(name.skip(d + 1) =~= ext);
    }
    assert forall|e: int| !is_last_dot(ext, e) by {
        if 0 <= e < ext.len() {
            assert(ext[e] != 0x2e);
        }
    }
}

/// The entry of a directory has that directory as its parent, and its own name, unless that is
/// `.` or `..`; the root and the empty path have neither.
pub proof fn law_entries_have_their_directory_as_parent(dir: PathView, name: Seq<u8>, root: Seq<u8>)
    requires
        dir.anchored ==> dir.parts.len() > 0,
    ensures
        dir.join(name).anchored == dir.anchored,
        dir.join(name).parts == dir.parts.push(name),
        dir.join(name).parent() == Some(dir),
        dir.join(name).file_name() == (if name == seq![0x2eu8] || name == seq![0x2eu8, 0x2eu8] {
            None
        } else {
            Some(name)
        }),
        (PathView { anchored: true, parts: seq![root] }).parent() is None,
        (PathView { anchored: true, parts: seq![root] }).file_name() is None,
        (PathView { anchored: false, parts: Seq::empty() }).parent() is None,
        (PathView { anchored: false, parts: Seq::empty() }).file_name() is None,
{
    assert(dir.parts.push(name).drop_last() =~= dir.parts);
}

/// The extension of a file as text is that of its name, where it is valid UTF-8.
pub proof fn law_extensions_are_texts(dir: PathView, stem: Seq<u8>, ext: Seq<u8>)
    requires
        dir.anchored ==> dir.parts.len() > 0,
        stem.len() > 0,
        stem + seq![0x2eu8] + ext != seq![0x2eu8, 0x2eu8],
        forall|i: int| 0 <= i < ext.len() ==> #[trigger] ext[i] != 0x2e,
    ensures
        dir.join(stem + seq![0x2eu8] + ext).extension_text() == (if valid_utf8(ext) {
            Some(decode_utf8(ext))
        } else {
            None
        }),
        dir.join(ext).extension_text() is None,
        dir.file_name() is None ==> dir.extension_text() is None,
{
    let name = stem + seq![0x2eu8] + ext;
    law_extension_follows_the_last_dot(stem, ext);
    law_entries_have_their_directory_as_parent(dir, name, name);
    law_entries_have_their_directory_as_parent(dir, ext, ext);
    assert(name.len() >= 2);
    assert(seq![0x2eu8].len() == 1);
}

/// A path starts with another exactly if it goes on from it.
pub proof fn law_paths_start_with_what_they_go_on_from(base: PathView, path: PathView)
    ensures
        path.starts_with(base) <==> (base.parts.len() > 0 ==> base.anchored == path.anchored)
            && exists|rest: Seq<Seq<u8>>| path.parts == #[trigger] (base.parts + rest),
{
    if path.starts_with(base) {
        let rest = path.parts.skip(base.parts.len() as int);
        assert(path.parts =~= base.parts + rest);
    }
    if exists|rest: Seq<Seq<u8>>| path.parts == #[trigger] (base.parts + rest) {
        let rest = choose|rest: Seq<Seq<u8>>| path.parts == #[trigger] (base.parts + rest);
        assert(path.parts.take(base.parts.len() as int) =~= base.parts);
    }
}

} // verus!
