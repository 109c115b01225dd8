//! What trimming, splitting and joining texts come to.

use vstd::prelude::*;

use crate::text::{
    is_blank, is_space, joined, lemma_line_end, lemma_trimmed_empty_iff_blank, lemma_trimmed_is,
    line_end, lines_of, trimmed, views,
};

verus! {

/// White space is what Unicode says: tab to carriage return, the space, the next line, the
/// no-break space, the Ogham space, the spaces of general punctuation, the line and paragraph
/// separators, and the ideographic space.
pub proof fn law_white_space(c: char)
    ensures
        is_space(c) <==> seq![
            0x9u32, 0xau32, 0xbu32, 0xcu32, 0xdu32, 0x20u32, 0x85u32, 0xa0u32, 0x1680u32,
            0x2000u32, 0x2001u32, 0x2002u32, 0x2003u32, 0x2004u32, 0x2005u32, 0x2006u32, 0x2007u32,
            0x2008u32, 0x2009u32, 0x200au32, 0x2028u32, 0x2029u32, 0x202fu32, 0x205fu32, 0x3000u32,
        ].contains(c as u32),
{
    let all = seq![
        0x9u32, 0xau32, 0xbu32, 0xcu32, 0xdu32, 0x20u32, 0x85u32, 0xa0u32, 0x1680u32, 0x2000u32,
        0x2001u32, 0x2002u32, 0x2003u32, 0x2004u32, 0x2005u32, 0x2006u32, 0x2007u32, 0x2008u32,
        0x2009u32, 0x200au32, 0x2028u32, 0x2029u32, 0x202fu32, 0x205fu32, 0x3000u32,
    ];
    let n = c as u32;
    if 0x9 <= n <= 0xd {
        assert(all[n - 9] == n);
    }
    if 0x2000 <= n <= 0x200a {
        assert(all[n - 0x2000 + 9] == n);
    }
    assert(all[5] == 0x20 && all[6] == 0x85 && all[7] == 0xa0 && all[8] == 0x1680);
    assert(all[20] == 0x2028 && all[21] == 0x2029 && all[22] == 0x202f && all[23] == 0x205f
        && all[24] == 0x3000);
}

/// Trimming takes the white space around a text away, all of it, and nothing else.
pub proof fn law_trimming_leaves_the_core(before: Seq<char>, core: Seq<char>, after: Seq<char>)
    requires
        forall|i: int| 0 <= i < before.len() ==> is_space(#[trigger] before[i]),
        forall|i: int| 0 <= i < after.len() ==> is_space(#[trigger] after[i]),
        core.len() > 0 ==> !is_space(core.first()) && !is_space(core.last()),
    ensures
        trimmed(before + core + after) == core,
{
    let s = before + core + after;
    let from = before.len() as int;
    let to = from + core.len();
    assert forall|i: int| 0 <= i < from implies is_space(#[trigger] s[i]) by {
        assert(s[i] == before[i]);
    }
    assert forall|i: int| to <= i < s.len() implies is_space(#[trigger] s[i]) by {
        assert(s[i] == after[i - to]);
    }
    if core.len() > 0 {
        assert(s[from] == core.first() && s[to - 1] == core.last());
        lemma_trimmed_is(s, from, to);
        assert(s.subrange(from, to) =~= core);
    } else {
        lemma_trimmed_is(s, s.len() as int, s.len() as int);
        assert(s.subrange(s.len() as int, s.len() as int) =~= core);
    }
}

/// A text is blank if all of it is white space, and then nothing is left of it by trimming.
pub proof fn law_blank_texts_have_nothing_to_them(s: Seq<char>)
    ensures
        is_blank(s) <==> trimmed(s) == Seq::<char>::empty(),
        is_blank(s) <==> forall|i: int| 0 <= i < s.len() ==> is_space(#[trigger] s[i]),
{
    lemma_trimmed_empty_iff_blank(s);
    if trimmed(s).len() == 0 {
        assert(trimmed(s) =~= Seq::<char>::empty());
    }
}

/// The first line of a text is what comes before its first line feed, without one carriage return
/// at its end, and the other lines are those of the rest. A text without a line feed is one line,
/// unless it is empty.
pub proof fn law_lines_end_at_line_feeds(line: Seq<char>, rest: Seq<char>)
    requires
        forall|i: int| 0 <= i < line.len() ==> #[trigger] line[i] != '\n',
    ensures
        lines_of(line + seq!['\n'] + rest) == seq![
            if line.len() > 0 && line.last() == '\r' {
                line.take(line.len() - 1)
            } else {
                line
            },
        ] + lines_of(rest),
        lines_of(line) == (if line.len() == 0 {
            Seq::empty()
        } else {
            seq![line]
        }),
{
    let s = line + seq!['\n'] + rest;
    let n = line.len();
    lemma_line_end(s);
    let e = line_end(s);
    assert(s[n as int] == '\n');
    if e < n {
        assert(s[e as int] == line[e as int]);
    }
    assert(e == n);
    assert(s.take(n as int) =~= line);
    assert(s.skip(n as int + 1) =~= rest);
    assert(line.drop_last() =~= line.take(line.len() - 1));
    lemma_line_end(line);
    if line_end(line) < n {
        assert(line[line_end(line) as int] == '\n');
    }
}

/// Joining puts one line feed between each two parts, and nothing else.
pub proof fn law_joining_puts_line_feeds_between(parts: Seq<Seq<char>>, next: Seq<char>)
    ensures
        joined(Seq::empty()) == Seq::<char>::empty(),
        joined(seq![next]) == next,
        parts.len() > 0 ==> joined(parts.push(next)) == joined(parts) + seq!['\n'] + next,
{
    assert(parts.push(next).drop_last() =~= parts);
}

proof fn lemma_joined_front(parts: Seq<Seq<char>>)
    requires
        parts.len() > 1,
    ensures
        joined(parts) == parts[0] + seq!['\n'] + joined(parts.skip(1)),
    decreases parts.len(),
{
    let before = parts.drop_last();
    let rest = parts.skip(1);
    if parts.len() == 2 {
        reveal_with_fuel(joined, 2);
        assert(before =~= seq![parts[0]]);
        assert(rest =~= seq![parts[1]]);
    } else {
        lemma_joined_front(before);
        assert(before.skip(1) =~= rest.drop_last());
        assert(rest.last() == parts.last());
        assert(joined(parts) =~= parts[0] + seq!['\n'] + joined(rest));
    }
}

/// Splitting undoes joining: lines that hold no line feed and end in no carriage return, the last
/// of them not empty, are found again.
pub proof fn law_splitting_undoes_joining(parts: Seq<Seq<char>>)
    requires
        forall|k: int, i: int|
            0 <= k < parts.len() && 0 <= i < parts[k].len() ==> #[trigger] parts[k][i] != '\n',
        forall|k: int|
            0 <= k < parts.len() && (#[trigger] parts[k]).len() > 0 ==> parts[k].last() != '\r',
        parts.len() > 0 ==> parts.last().len() > 0,
    ensures
        lines_of(joined(parts)) == parts,
    decreases parts.len(),
{
    if parts.len() == 0 {
        assert(lines_of(joined(parts)) =~= parts);
    } else if parts.len() == 1 {
        law_lines_end_at_line_feeds(parts[0], Seq::empty());
        assert(seq![parts[0]] =~= parts);
    } else {
        let rest = parts.skip(1);
        assert forall|k: int, i: int|
            0 <= k < rest.len() && 0 <= i < rest[k].len() implies #[trigger] rest[k][i] != '\n' by {
            assert(rest[k][i] == parts[k + 1][i]);
        }
        assert forall|k: int| 0 <= k < rest.len() && (#[trigger] rest[k]).len() > 0 implies rest[k].last()
            != '\r' by {
            assert(rest[k] == parts[k + 1]);
        }
        law_splitting_undoes_joining(rest);
        lemma_joined_front(parts);
        law_lines_end_at_line_feeds(parts[0], joined(rest));
        assert(seq![parts[0]] + rest =~= parts);
    }
}

/// The views of strings are their characters, one by one.
pub proof fn law_views_are_the_characters(v: Seq<String>)
    ensures
        views(v) == v.map_values(|s: String| s@),
{
    assert(views(v) =~= v.map_values(|s: String| s@));
}

} // verus!
