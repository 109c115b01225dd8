//! The text of a file, from the cache where it is fresh, else from the bytes that were read.

use std::sync::Arc;
use vstd::prelude::*;
use vstd::utf8::*;

use crate::cache::{served, stored, ContentCache, Stamped};
use crate::paths::{PathView, RepoPath};
use crate::text::decode;

verus! {

/// The modification time and length of a file, as far as they could be found out.
pub type Stamp = Option<(i128, u64)>;

/// The text of a file, and where it comes from.
pub enum Content {
    /// The cache held it.
    Cached(Arc<String>),
    /// The file was read.
    Read(Arc<String>),
    /// The file could not be read, or is no text.
    Missing,
}

impl Content {
    /// The text, if there is one.
    pub open spec fn text(self) -> Option<Seq<char>> {
        match self {
            Content::Cached(text) => Some(text@),
            Content::Read(text) => Some(text@),
            Content::Missing => None,
        }
    }
}

/// What the cache serves for a file: nothing, where its modification time and length are not
/// known.
pub open spec fn cached(
    cache: Map<PathView, Stamped<String>>,
    path: PathView,
    stamp: Stamp,
) -> Option<Arc<String>> {
    match stamp {
        Some((mtime, len)) => served(cache, path, mtime, len),
        None => None,
    }
}

/// The cached text of a file, if it is fresh. Where there is none, the file is to be read.
pub fn cached_content(cache: &ContentCache, path: &RepoPath, stamp: Stamp) -> (r: Option<Content>)
    requires
        cache.wf(),
    ensures
        r == (match cached(cache@, path@, stamp) {
            Some(text) => Some(Content::Cached(text)),
            None => None,
        }),
{
    match stamp {
        Some((mtime, len)) => match cache.get_if_fresh(path, mtime, len) {
            Some(text) => Some(Content::Cached(text)),
            None => None,
        },
        None => None,
    }
}

/// The bytes that were read from a file, if it could be read.
pub open spec fn optional_bytes(bytes: Option<Vec<u8>>) -> Option<Seq<u8>> {
    match bytes {
        Some(b) => Some(b@),
        None => None,
    }
}

/// The text that was read from a file, if it could be read and is valid UTF-8.
pub open spec fn text_read(bytes: Option<Seq<u8>>) -> Option<Seq<char>> {
    match bytes {
        Some(b) => if valid_utf8(b) {
            Some(decode_utf8(b))
        } else {
            None
        },
        None => None,
    }
}

/// Whether `content` is what was read from a file, and the cache has taken up its text. It is
/// recorded where the file's modification time and length are known; nothing is recorded of a file
/// that has no text.
pub open spec fn is_reading(
    before: Map<PathView, Stamped<String>>,
    after: Map<PathView, Stamped<String>>,
    path: PathView,
    stamp: Stamp,
    bytes: Option<Seq<u8>>,
    content: Content,
) -> bool {
    &&& !(content is Cached)
    &&& content.text() == text_read(bytes)
    &&& match (content, stamp) {
        (Content::Read(text), Some((mtime, len))) => after == stored(
            before,
            path,
            mtime,
            len,
            text,
        ),
        _ => after == before,
    }
}

/// Takes up what was read from a file; see `is_reading`.
pub fn read_content(
    cache: &mut ContentCache,
    path: &RepoPath,
    stamp: Stamp,
    bytes: Option<Vec<u8>>,
) -> (r: Content)
    requires
        old(cache).wf(),
    ensures
        final(cache).wf(),
        is_reading(old(cache)@, final(cache)@, path@, stamp, optional_bytes(bytes), r),
        r is Missing <==> !(bytes matches Some(b) && valid_utf8(b@)),
        r matches Content::Read(text) ==> bytes matches Some(b) && valid_utf8(b@) && text@
            == decode_utf8(b@) && (stamp matches Some((mtime, len)) ==> final(cache)@
            == old(cache)@.insert(path@, Stamped { mtime, len, value: text })),
        !(r is Cached),
        r is Missing || stamp is None ==> final(cache)@ == old(cache)@,
{
    let bytes = match bytes {
        Some(bytes) => bytes,
        None => {
            return Content::Missing;
        },
    };
    match decode(bytes.as_slice()) {
        Ok(text) => {
            let text = Arc::new(text);
            if let Some((mtime, len)) = stamp {
                cache.store(path, mtime, len, text.clone());
            }
            Content::Read(text)
        },
        Err(_) => Content::Missing,
    }
}

/// A file that was read is found in the cache while it has the same modification time and length,
/// with the text that was read.
pub proof fn law_read_then_cached(
    cache: Map<PathView, Stamped<String>>,
    path: PathView,
    mtime: i128,
    len: u64,
    text: Arc<String>,
)
    ensures
        cached(stored(cache, path, mtime, len, text), path, Some((mtime, len))) == Some(text),
        cached(stored(cache, path, mtime, len, text), path, None) is None,
{
}

/// A file: its modification time, its length and its bytes.
pub struct FileFacts {
    pub mtime: i128,
    pub len: u64,
    pub bytes: Seq<u8>,
}

/// Whether each cached text is that of its file, as long as the file has the modification time and
/// length that the text was recorded under.
pub open spec fn is_truthful(
    cache: Map<PathView, Stamped<String>>,
    files: Map<PathView, FileFacts>,
) -> bool {
    forall|path: PathView| #[trigger]
        files.contains_key(path) ==> match cached(
            cache,
            path,
            Some((files[path].mtime, files[path].len)),
        ) {
            Some(text) => text_read(Some(files[path].bytes)) == Some(text@),
            None => true,
        }
}

/// Where the cache is truthful, a text from it is the one that reading the file would give; and it
/// stays truthful when a file is read, and when one is forgotten.
pub proof fn law_cached_text_is_the_text_of_the_file(
    cache: Map<PathView, Stamped<String>>,
    files: Map<PathView, FileFacts>,
    path: PathView,
    text: Arc<String>,
)
    requires
        is_truthful(cache, files),
        files.contains_key(path),
    ensures
        cached(cache, path, Some((files[path].mtime, files[path].len))) matches Some(found)
            ==> text_read(Some(files[path].bytes)) == Some(found@),
        text_read(Some(files[path].bytes)) == Some(text@) ==> is_truthful(
            stored(cache, path, files[path].mtime, files[path].len, text),
            files,
        ),
        is_truthful(cache.remove(path), files),
{
    let after = stored(cache, path, files[path].mtime, files[path].len, text);
    if text_read(Some(files[path].bytes)) == Some(text@) {
        assert forall|p: PathView| #[trigger] files.contains_key(p) implies match cached(
            after,
            p,
            Some((files[p].mtime, files[p].len)),
        ) {
            Some(found) => text_read(Some(files[p].bytes)) == Some(found@),
            None => true,
        } by {
            if p != path {
                assert(cached(after, p, Some((files[p].mtime, files[p].len))) == cached(
                    cache,
                    p,
                    Some((files[p].mtime, files[p].len)),
                ));
            }
        }
    }
    let less = cache.remove(path);
    assert forall|p: PathView| #[trigger] files.contains_key(p) implies match cached(
        less,
        p,
        Some((files[p].mtime, files[p].len)),
    ) {
        Some(found) => text_read(Some(files[p].bytes)) == Some(found@),
        None => true,
    } by {
        if p != path {
            assert(cached(less, p, Some((files[p].mtime, files[p].len))) == cached(
                cache,
                p,
                Some((files[p].mtime, files[p].len)),
            ));
        }
    }
}

/// A file as the file system has it: its modification time and length, and its bytes, as far as
/// they can be found out.
pub struct FileNow {
    pub stamp: Stamp,
    pub bytes: Option<Seq<u8>>,
}

/// Whether `content` is what a file gives: the cached text where it is fresh, else what is read.
pub open spec fn is_lookup(
    before: Map<PathView, Stamped<String>>,
    after: Map<PathView, Stamped<String>>,
    path: PathView,
    now: FileNow,
    content: Content,
) -> bool {
    match cached(before, path, now.stamp) {
        Some(text) => content == Content::Cached(text) && after == before,
        None => is_reading(before, after, path, now.stamp, now.bytes, content),
    }
}

/// Whether `contents` are what the files at `paths` give, one after the other; `caches` are the
/// cache before the first of them and after each.
pub open spec fn is_pass(
    files: spec_fn(PathView) -> FileNow,
    paths: Seq<PathView>,
    caches: Seq<Map<PathView, Stamped<String>>>,
    contents: Seq<Content>,
) -> bool {
    &&& caches.len() == paths.len() + 1
    &&& contents.len() == paths.len()
    &&& forall|i: int|
        0 <= i < paths.len() ==> is_lookup(
            caches[i],
            caches[i + 1],
            paths[i],
            files(paths[i]),
            #[trigger] contents[i],
        )
}

/// A fresh text stays in the cache while other files are looked up.
proof fn lemma_fresh_text_stays(
    files: spec_fn(PathView) -> FileNow,
    paths: Seq<PathView>,
    caches: Seq<Map<PathView, Stamped<String>>>,
    contents: Seq<Content>,
    path: PathView,
    i: int,
    j: int,
)
    requires
        is_pass(files, paths, caches, contents),
        0 <= i <= j <= paths.len(),
        cached(caches[i], path, files(path).stamp) is Some,
    ensures
        cached(caches[j], path, files(path).stamp) == cached(caches[i], path, files(path).stamp),
    decreases j - i,
{
    if i < j {
        lemma_fresh_text_stays(files, paths, caches, contents, path, i, j - 1);
        assert(is_lookup(
            caches[j - 1],
            caches[j],
            paths[j - 1],
            files(paths[j - 1]),
            contents[j - 1],
        ));
    }
}

/// Once every file of a list has been looked up, and each could be stamped and is text, a second
/// look at the same unchanged files finds each of them in the cache, with the same text, and leaves
/// the cache as it is.
pub proof fn law_second_pass_is_cached(
    files: spec_fn(PathView) -> FileNow,
    paths: Seq<PathView>,
    first: Seq<Map<PathView, Stamped<String>>>,
    found: Seq<Content>,
    second: Seq<Map<PathView, Stamped<String>>>,
    again: Seq<Content>,
)
    requires
        is_pass(files, paths, first, found),
        is_pass(files, paths, second, again),
        second.first() == first.last(),
        forall|i: int|
            0 <= i < paths.len() ==> files(#[trigger] paths[i]).stamp is Some && text_read(
                files(paths[i]).bytes,
            ) is Some,
    ensures
        forall|i: int|
            0 <= i < paths.len() ==> (#[trigger] again[i]) is Cached && again[i].text()
                == found[i].text(),
        second.last() == first.last(),
{
    let n = paths.len() as int;
    assert forall|i: int| 0 <= i < n implies match cached(
        first.last(),
        #[trigger] paths[i],
        files(paths[i]).stamp,
    ) {
        Some(text) => found[i].text() == Some(text@),
        None => false,
    } by {
        assert(is_lookup(first[i], first[i + 1], paths[i], files(paths[i]), found[i]));
        lemma_fresh_text_stays(files, paths, first, found, paths[i], i + 1, n);
    }
    lemma_cached_pass(files, paths, first.last(), second, again, n);
    assert forall|i: int| 0 <= i < n implies (#[trigger] again[i]) is Cached && again[i].text()
        == found[i].text() by {
        lemma_cached_pass(files, paths, first.last(), second, again, i);
        assert(is_lookup(second[i], second[i + 1], paths[i], files(paths[i]), again[i]));
        assert(cached(first.last(), paths[i], files(paths[i]).stamp) is Some);
    }
}

/// A pass over files that are all fresh in the cache leaves it as it is.
proof fn lemma_cached_pass(
    files: spec_fn(PathView) -> FileNow,
    paths: Seq<PathView>,
    cache: Map<PathView, Stamped<String>>,
    caches: Seq<Map<PathView, Stamped<String>>>,
    contents: Seq<Content>,
    j: int,
)
    requires
        is_pass(files, paths, caches, contents),
        caches.first() == cache,
        0 <= j <= paths.len(),
        forall|i: int|
            0 <= i < paths.len() ==> cached(cache, #[trigger] paths[i], files(paths[i]).stamp) is Some,
    ensures
        caches[j] == cache,
    decreases j,
{
    if j > 0 {
        lemma_cached_pass(files, paths, cache, caches, contents, j - 1);
        assert(is_lookup(
            caches[j - 1],
            caches[j],
            paths[j - 1],
            files(paths[j - 1]),
            contents[j - 1],
        ));
    }
}

} // verus!
