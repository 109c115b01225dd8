//! Windows of a file's lines, and the text that such a window stands for.

use vstd::prelude::*;

use crate::text::{
    is_blank, join, joined, lemma_trimmed_empty_iff_blank, lines, lines_of, trim, views,
};

verus! {

/// How many lines a window holds: few enough that a match points at a short snippet.
pub const CHUNK_LINES: usize = 40;

/// A window: its first and last line, counted from 1, and its text.
pub type ChunkView = (int, int, Seq<char>);

/// What a sequence of windows stands for.
pub open spec fn chunk_views(v: Seq<(usize, usize, String)>) -> Seq<ChunkView> {
    Seq::new(v.len(), |i: int| (v[i].0 as int, v[i].1 as int, v[i].2@))
}

/// Where the window that starts behind the first `first` of `len` lines ends.
pub open spec fn window_end(len: int, size: int, first: int) -> int {
    if len - first <= size {
        len
    } else {
        first + size
    }
}

/// The windows of up to `size` lines behind the first `first` lines. A window of white space
/// alone is left out.
pub open spec fn chunks_from(lines: Seq<Seq<char>>, size: int, first: int) -> Seq<ChunkView>
    decreases lines.len() - first,
{
    if size <= 0 || first < 0 || first >= lines.len() {
        Seq::empty()
    } else {
        let end = window_end(lines.len() as int, size, first);
        let text = joined(lines.subrange(first, end));
        let rest = chunks_from(lines, size, end);
        if is_blank(text) {
            rest
        } else {
            seq![(first + 1, end, text)] + rest
        }
    }
}

/// Splits `content` into windows of `chunk_size` lines, the last of which may be shorter, and
/// leaves out those of white space alone.
pub fn chunk_lines(content: &str, chunk_size: usize) -> (r: Vec<(usize, usize, String)>)
    requires
        chunk_size > 0,
    ensures
        chunk_views(r@) == chunks_from(lines_of(content@), chunk_size as int, 0),
{
    let all = lines(content);
    let n: usize = all.len();
    let ghost texts = views(all@);
    let ghost size = chunk_size as int;
    let mut out: Vec<(usize, usize, String)> = Vec::new();
    let mut first: usize = 0;
    assert(chunk_views(out@) =~= Seq::<ChunkView>::empty());
    assert(chunk_views(out@) + chunks_from(texts, size, 0) =~= chunks_from(texts, size, 0));
    while first < n
        invariant
            first <= n == all@.len(),
            texts == views(all@),
            chunk_size > 0,
            size == chunk_size,
            chunk_views(out@) + chunks_from(texts, size, first as int) == chunks_from(
                texts,
                size,
                0,
            ),
        decreases n - first,
    {
        let end: usize = if n - first <= chunk_size {
            n
        } else {
            first + chunk_size
        };
        let text = join(&all, first, end);
        let ghost rest = chunks_from(texts, size, end as int);
        proof {
            lemma_trimmed_empty_iff_blank(text@);
        }
        let stripped = trim(text.as_str());
        if !holds_nothing(&stripped) {
            let ghost before = out@;
            let ghost item = (first + 1, end as int, text@);
            out.push((first + 1, end, text));
            assert(chunk_views(out@) =~= chunk_views(before).push(item));
            assert(chunk_views(out@) + rest =~= chunk_views(before) + (seq![item] + rest));
        }
        first = end;
    }
    assert(chunk_views(out@) + Seq::<ChunkView>::empty() =~= chunk_views(out@));
    out
}

/// Whether a text holds no character.
fn holds_nothing(s: &String) -> (r: bool)
    ensures
        r == (s@.len() == 0),
{
    let n: usize = s.as_str().as_bytes().len();
    n == 0
}

/// The text of the lines from `start` to `end`, counted from 1, as far as there are such lines.
/// There is none where the range starts behind the lines.
pub open spec fn snippet(lines: Seq<Seq<char>>, start: int, end: int) -> Option<Seq<char>> {
    let from = if start > 0 {
        start - 1
    } else {
        0
    };
    let to = if end < lines.len() {
        end
    } else {
        lines.len() as int
    };
    if from <= to {
        Some(joined(lines.subrange(from, to)))
    } else {
        None
    }
}

/// The text of a range of lines of `content`; see `snippet`.
pub fn snippet_of(content: &str, start_line: usize, end_line: usize) -> (r: Option<String>)
    ensures
        match r {
            Some(text) => snippet(lines_of(content@), start_line as int, end_line as int) == Some(
                text@,
            ),
            None => snippet(lines_of(content@), start_line as int, end_line as int) is None,
        },
{
    let all = lines(content);
    let n: usize = all.len();
    let from: usize = if start_line > 0 {
        start_line - 1
    } else {
        0
    };
    let to: usize = if end_line < n {
        end_line
    } else {
        n
    };
    if from <= to {
        Some(join(&all, from, to))
    } else {
        None
    }
}

/// Whether `c` is a window of the lines: it starts at a multiple of `size`, it holds `size` lines
/// or those that are left, its text is that of its lines, and some of it is no white space.
pub open spec fn is_window(lines: Seq<Seq<char>>, size: int, c: ChunkView) -> bool {
    &&& 1 <= c.0 <= c.1 <= lines.len()
    &&& (c.0 - 1) % size == 0
    &&& c.1 == if c.0 - 1 + size < lines.len() {
        c.0 - 1 + size
    } else {
        lines.len() as int
    }
    &&& c.2 == joined(lines.subrange(c.0 - 1, c.1))
    &&& !is_blank(c.2)
}

/// Every chunk is a window of the lines, and each ends before the next one starts.
pub proof fn law_chunks_are_windows(lines: Seq<Seq<char>>, size: int)
    requires
        size > 0,
    ensures
        ({
            let chunks = chunks_from(lines, size, 0);
            &&& forall|i: int| 0 <= i < chunks.len() ==> is_window(lines, size, #[trigger] chunks[i])
            &&& forall|i: int, j: int|
                0 <= i < j < chunks.len() ==> (#[trigger] chunks[i]).1 < (#[trigger] chunks[j]).0
        }),
{
    assert(0int % size == 0) by (nonlinear_arith)
        requires
            size > 0,
    ;
    lemma_chunks_from(lines, size, 0);
}

proof fn lemma_chunks_from(lines: Seq<Seq<char>>, size: int, first: int)
    requires
        size > 0,
        first >= 0,
        first < lines.len() ==> first % size == 0,
    ensures
        ({
            let chunks = chunks_from(lines, size, first);
            &&& forall|i: int|
                0 <= i < chunks.len() ==> is_window(lines, size, #[trigger] chunks[i])
                    && chunks[i].0 > first
            &&& forall|i: int, j: int|
                0 <= i < j < chunks.len() ==> (#[trigger] chunks[i]).1 < (#[trigger] chunks[j]).0
        }),
    decreases lines.len() - first,
{
    if first < lines.len() {
        let end = window_end(lines.len() as int, size, first);
        let text = joined(lines.subrange(first, end));
        let rest = chunks_from(lines, size, end);
        if end < lines.len() {
            assert((first + size) % size == 0) by (nonlinear_arith)
                requires
                    size > 0,
                    first % size == 0,
            ;
        }
        lemma_chunks_from(lines, size, end);
        if !is_blank(text) {
            let chunks = chunks_from(lines, size, first);
            assert(chunks[0] == (first + 1, end, text));
            assert forall|i: int| 0 < i < chunks.len() implies #[trigger] chunks[i] == rest[i
                - 1] by {}
        }
    }
}

/// A part of a joined text that is no white space is found in the whole.
proof fn lemma_joined_not_blank(parts: Seq<Seq<char>>, k: int)
    requires
        0 <= k < parts.len(),
        !is_blank(parts[k]),
    ensures
        !is_blank(joined(parts)),
    decreases parts.len(),
{
    if parts.len() > 1 {
        let before = joined(parts.drop_last());
        let whole = joined(parts);
        let front = before + seq!['\n'];
        if k == parts.len() - 1 {
            let i = choose|i: int|
                0 <= i < parts[k].len() && !crate::text::is_space(#[trigger] parts[k][i]);
            assert(whole[front.len() + i] == parts[k][i]);
        } else {
            assert(parts.drop_last()[k] == parts[k]);
            lemma_joined_not_blank(parts.drop_last(), k);
            let i = choose|i: int|
                0 <= i < before.len() && !crate::text::is_space(#[trigger] before[i]);
            assert(whole[i] == before[i]);
        }
    }
}

/// Whether line `k`, counted from 0, is in the window `c`.
pub open spec fn covers(c: ChunkView, k: int) -> bool {
    c.0 <= k + 1 <= c.1
}

/// Every line that is not white space alone is in some chunk.
pub proof fn law_chunks_cover_the_text(lines: Seq<Seq<char>>, size: int, k: int)
    requires
        size > 0,
        0 <= k < lines.len(),
        !is_blank(lines[k]),
    ensures
        exists|i: int|
            0 <= i < chunks_from(lines, size, 0).len() && covers(
                #[trigger] chunks_from(lines, size, 0)[i],
                k,
            ),
{
    lemma_chunks_cover(lines, size, 0, k);
}

proof fn lemma_chunks_cover(lines: Seq<Seq<char>>, size: int, first: int, k: int)
    requires
        size > 0,
        0 <= first <= k < lines.len(),
        !is_blank(lines[k]),
    ensures
        exists|i: int|
            0 <= i < chunks_from(lines, size, first).len() && covers(
                #[trigger] chunks_from(lines, size, first)[i],
                k,
            ),
    decreases lines.len() - first,
{
    let end = window_end(lines.len() as int, size, first);
    let window = lines.subrange(first, end);
    let text = joined(window);
    let rest = chunks_from(lines, size, end);
    let chunks = chunks_from(lines, size, first);
    if k < end {
        assert(window[k - first] == lines[k]);
        lemma_joined_not_blank(window, k - first);
        assert(covers(chunks[0], k));
    } else {
        lemma_chunks_cover(lines, size, end, k);
        let i = choose|i: int| 0 <= i < rest.len() && covers(#[trigger] rest[i], k);
        if is_blank(text) {
            assert(covers(chunks[i], k));
        } else {
            assert(chunks[i + 1] == rest[i]);
            assert(covers(chunks[i + 1], k));
        }
    }
}

/// The lines that a chunk names give back its text.
pub proof fn law_snippet_of_a_chunk_is_its_text(lines: Seq<Seq<char>>, size: int, i: int)
    requires
        size > 0,
        0 <= i < chunks_from(lines, size, 0).len(),
    ensures
        ({
            let c = chunks_from(lines, size, 0)[i];
            snippet(lines, c.0, c.1) == Some(c.2)
        }),
{
    law_chunks_are_windows(lines, size);
    assert(is_window(lines, size, chunks_from(lines, size, 0)[i]));
}

/// A snippet is the text of its lines, as far as there are such lines; a range that starts with
/// line 0 starts with the first line. There is none of a range that starts behind the lines, or
/// behind the line after its own end.
pub proof fn law_snippets_are_lines(lines: Seq<Seq<char>>, start: int, end: int)
    requires
        start >= 0,
        end >= 0,
    ensures
        1 <= start <= end <= lines.len() ==> snippet(lines, start, end) == Some(
            joined(lines.subrange(start - 1, end)),
        ),
        snippet(lines, 0, end) == snippet(lines, 1, end),
        end > lines.len() ==> snippet(lines, start, end) == snippet(
            lines,
            start,
            lines.len() as int,
        ),
        snippet(lines, start, end) is None <==> start > end + 1 || start > lines.len() + 1,
        start == end + 1 && end <= lines.len() ==> snippet(lines, start, end) == Some(
            Seq::<char>::empty(),
        ),
{
}

/// A window is of up to forty lines.
pub proof fn law_windows_are_of_forty_lines()
    ensures
        CHUNK_LINES == 40,
{
}

/// The windows are those that were made, each with its first line, its last line and its text.
pub proof fn law_chunk_views(v: Seq<(usize, usize, String)>)
    ensures
        chunk_views(v) == v.map_values(
            |c: (usize, usize, String)| (c.0 as int, c.1 as int, c.2@),
        ),
{
}

} // verus!
