//! What a search and an extraction give, line by line.

use std::sync::Arc;
use vstd::prelude::*;

use crate::cache::Stamped;
use crate::content::Content;
use crate::dir_cache::CrawlStats;
use crate::extractors::{
    law_nodes_are_lines, node_views, nodes_among, structural_hits, NodeView, RegexExtractor,
    StructuralExtractor, StructuralNode,
};
use crate::fast_search::{
    blocks_among, cached_among, file_block, is_searched, match_json, search_refusal, search_result,
    wanted_backend, FileSearch,
};
use crate::json::JsonView;
use crate::mcp::optional;
use crate::parse_structure::{
    declarations, is_recorded, language, node_json, step_text, structure_result, ReadStep,
};
use crate::paths::PathView;
use crate::patterns::{
    first_word, is_csharp_line, is_statement_word, is_structural_line, is_word_char,
    lemma_leading_word, matched_by, matched_by_pattern, pattern_error, CSHARP_CALL_SHAPE,
    CSHARP_PATTERN, PYTHON_PATTERN, RUST_PATTERN,
};
use crate::search_backend::{
    hits_in, law_matches_are_lines, matches_among, CompiledQuery, CompiledRegex, CompiledSearch,
    MatchView, RegexSearchBackend, SearchBackend,
};
use crate::text::{is_space, lemma_trimmed_empty_iff_blank, lemma_trimmed_is, lines_of, trimmed};

verus! {

/// Whether the matches are those lines that are among `texts`: each of them once, in order, with its
/// number and its trimmed text, and no other line.
pub open spec fn are_the_lines_in(
    found: Seq<MatchView>,
    lines: Seq<Seq<char>>,
    texts: Set<Seq<char>>,
) -> bool {
    &&& forall|k: int|
        0 <= k < lines.len() ==> (texts.contains(#[trigger] lines[k]) <==> found.contains(
            MatchView { line: (k + 1) as nat, text: trimmed(lines[k]) },
        ))
    &&& forall|i: int|
        0 <= i < found.len() ==> 1 <= (#[trigger] found[i]).line <= lines.len() && found[i].text
            == trimmed(lines[found[i].line - 1]) && texts.contains(lines[found[i].line - 1])
    &&& forall|i: int, j: int|
        0 <= i < j < found.len() ==> (#[trigger] found[i]).line < (#[trigger] found[j]).line
}

proof fn lemma_hits(lines: Seq<Seq<char>>, texts: Set<Seq<char>>)
    ensures
        are_the_lines_in(matches_among(lines, hits_in(texts, lines)), lines, texts),
{
    let hits = hits_in(texts, lines);
    let found = matches_among(lines, hits);
    law_matches_are_lines(lines, hits);
    assert forall|k: int| 0 <= k < lines.len() implies (texts.contains(#[trigger] lines[k])
        <==> found.contains(MatchView { line: (k + 1) as nat, text: trimmed(lines[k]) })) by {
        let m = MatchView { line: (k + 1) as nat, text: trimmed(lines[k]) };
        if texts.contains(lines[k]) {
            assert(hits[k]);
            assert(found.contains(MatchView { line: (k + 1) as nat, text: trimmed(lines[k]) }));
        }
        if found.contains(m) {
            let i = choose|i: int| 0 <= i < found.len() && found[i] == m;
            assert(hits[found[i].line - 1]);
        }
    }
    assert forall|i: int| 0 <= i < found.len() implies 1 <= (#[trigger] found[i]).line
        <= lines.len() && found[i].text == trimmed(lines[found[i].line - 1]) && texts.contains(
        lines[found[i].line - 1],
    ) by {
        assert(hits[found[i].line - 1]);
    }
}

/// A query finds exactly the lines in which its regular expression has a match, each with its number
/// from 1 and its trimmed text.
pub proof fn law_queries_find_the_lines_that_match(query: Seq<char>, content: Seq<char>)
    ensures
        are_the_lines_in(
            RegexSearchBackend.found_by(query, content),
            lines_of(content),
            matched_by_pattern(query),
        ),
{
    lemma_hits(lines_of(content), matched_by_pattern(query));
}

/// A line is found by a query if and only if the regular expression matches the line. What is found
/// has the number of its line and the trimmed text of it, and comes in the order of the lines.
pub proof fn law_a_line_is_found_if_it_matches(query: Seq<char>, content: Seq<char>, k: int)
    requires
        0 <= k < lines_of(content).len(),
    ensures
        ({
            let found = RegexSearchBackend.found_by(query, content);
            let line = lines_of(content)[k];
            &&& matched_by_pattern(query).contains(line) <==> found.contains(
                MatchView { line: (k + 1) as nat, text: trimmed(line) },
            )
            &&& matched_by_pattern(query).contains(line) <==> exists|i: int|
                0 <= i < found.len() && (#[trigger] found[i]).line == k + 1
            &&& forall|i: int|
                0 <= i < found.len() ==> 1 <= (#[trigger] found[i]).line <= lines_of(content).len()
                    && found[i].text == trimmed(lines_of(content)[found[i].line - 1])
            &&& forall|i: int, j: int|
                0 <= i < j < found.len() ==> (#[trigger] found[i]).line < (#[trigger] found[j]).line
        }),
{
    law_queries_find_the_lines_that_match(query, content);
    let found = RegexSearchBackend.found_by(query, content);
    let line = lines_of(content)[k];
    let m = MatchView { line: (k + 1) as nat, text: trimmed(line) };
    if found.contains(m) {
        let i = choose|i: int| 0 <= i < found.len() && found[i] == m;
        assert(found[i].line == k + 1);
    }
    if exists|i: int| 0 <= i < found.len() && (#[trigger] found[i]).line == k + 1 {
        let i = choose|i: int| 0 <= i < found.len() && (#[trigger] found[i]).line == k + 1;
        assert(found[i] == m);
    }
}

/// A compiled regular expression finds exactly the lines in which it has a match.
pub proof fn law_compiled_queries_find_the_lines_that_match(re: CompiledRegex, content: Seq<char>)
    ensures
        are_the_lines_in(re.found(content), lines_of(content), matched_by(re.re)),
        CompiledSearch::Regex(re).found(content) == re.found(content),
{
    lemma_hits(lines_of(content), matched_by(re.re));
}

/// A query is refused exactly if it does not compile, with the reason behind the words for it; the
/// backend goes by the name `regex`.
pub proof fn law_queries_are_refused_if_they_do_not_compile(query: Seq<char>)
    ensures
        RegexSearchBackend.called() == "regex"@,
        pattern_error(query, usize::BITS) is None <==> RegexSearchBackend.refusal(query) is None,
        pattern_error(query, usize::BITS) matches Some(e) ==> RegexSearchBackend.refusal(query)
            == Some("Invalid Regex Compilation Error: "@ + e),
{
}

/// The declarations of a file are its lines that declare something in its language, but for empty
/// lines and those that start with two slashes or a number sign: each of them once, in order, with
/// its number from 1 and its trimmed text, and no other line.
pub proof fn law_declarations_are_the_lines_that_declare(ext: Seq<char>, content: Seq<char>)
    ensures
        ({
            let lines = lines_of(content);
            let nodes = RegexExtractor.nodes(ext, content);
            &&& forall|k: int|
                0 <= k < lines.len() ==> {
                    let text = trimmed(#[trigger] lines[k]);
                    nodes.contains(NodeView { line: (k + 1) as nat, declaration: text })
                        <==> is_structural_line(ext, lines[k]) && text.len() > 0 && !(text.len()
                        >= 2 && text[0] == '/' && text[1] == '/') && text[0] != '#'
                }
            &&& forall|i: int|
                0 <= i < nodes.len() ==> 1 <= (#[trigger] nodes[i]).line <= lines.len()
                    && nodes[i].declaration == trimmed(lines[nodes[i].line - 1])
            &&& forall|i: int, j: int|
                0 <= i < j < nodes.len() ==> (#[trigger] nodes[i]).line < (#[trigger] nodes[j]).line
        }),
{
    let lines = lines_of(content);
    let hits = structural_hits(ext, lines);
    let nodes = nodes_among(lines, hits);
    law_nodes_are_lines(lines, hits);
    assert forall|k: int| 0 <= k < lines.len() implies {
        let text = trimmed(#[trigger] lines[k]);
        nodes.contains(NodeView { line: (k + 1) as nat, declaration: text })
            <==> is_structural_line(ext, lines[k]) && text.len() > 0 && !(text.len() >= 2 && text[0]
            == '/' && text[1] == '/') && text[0] != '#'
    } by {
        let text = trimmed(lines[k]);
        let node = NodeView { line: (k + 1) as nat, declaration: text };
        assert(hits[k] == is_structural_line(ext, lines[k]));
        if nodes.contains(node) {
            let i = choose|i: int| 0 <= i < nodes.len() && nodes[i] == node;
            assert(hits[nodes[i].line - 1]);
        }
    }
}

/// Files in Rust, Python and C# are handled, by their extensions.
pub proof fn law_three_languages_are_handled()
    ensures
        RegexExtractor.handled() == seq!["rs"@, "py"@, "cs"@],
{
}

/// A line declares something if the pattern of its language matches. In C# it does so too if it has
/// the shape of a call and its first word starts no statement.
pub proof fn law_lines_declare_by_the_pattern_of_their_language(ext: Seq<char>, line: Seq<char>)
    ensures
        is_structural_line("rs"@, line) <==> matched_by_pattern(RUST_PATTERN@).contains(line),
        is_structural_line("py"@, line) <==> matched_by_pattern(PYTHON_PATTERN@).contains(line),
        is_structural_line("cs"@, line) <==> matched_by_pattern(CSHARP_PATTERN@).contains(line)
            || matched_by_pattern(CSHARP_CALL_SHAPE@).contains(line) && !is_statement_word(
            first_word(line),
        ),
        ext != "rs"@ && ext != "py"@ && ext != "cs"@ ==> !is_structural_line(ext, line),
        forall|declares: bool, shaped: bool| #[trigger]
            is_csharp_line(declares, shaped, line) <==> declares || shaped && !is_statement_word(
                first_word(line),
            ),
{
    reveal_strlit("rs");
    reveal_strlit("py");
    reveal_strlit("cs");
    assert("rs"@[0] != "py"@[0] && "rs"@[0] != "cs"@[0] && "py"@[0] != "cs"@[0]);
}

/// The patterns are these.
pub proof fn law_the_patterns()
    ensures
        RUST_PATTERN@ == r#"^\s*(pub(\([^)]*\))?\s+)?((default|const|async|unsafe|[a-z]+\s+"[^"]*")\s+)*((fn|struct|enum|trait)\s+[a-zA-Z0-9_<>]+|impl(\s*<|\s+[a-zA-Z0-9_<>&(\[!*]))"#@,
        PYTHON_PATTERN@ == r"^\s*(async\s+)?(def|class)\s+([a-zA-Z0-9_]+)"@,
        CSHARP_PATTERN@ == r"^\s*((public|private|protected|internal|static|abstract|sealed|virtual|override|async|partial|readonly|unsafe|new|ref)\s+)*((class|struct|interface|enum|record)\s+[a-zA-Z0-9_<>]+|((void|bool|byte|sbyte|char|decimal|double|float|int|uint|long|ulong|short|ushort|object|string|dynamic)|[A-Z_][a-zA-Z0-9_.]*(<[^()]*>)?)(\[,*\])*\??\s+[a-zA-Z_][a-zA-Z0-9_.]*(<[^()]*>)?\s*\()|^\s*((public|private|protected|internal|static|abstract|sealed|virtual|override|unsafe)\s+)+(\([^()]*\)\??\s+)?[^=;{}()]*[a-zA-Z0-9_>]\s*\("@,
        CSHARP_CALL_SHAPE@ == r"^\s*((internal|static|async|partial|readonly|unsafe)\s+)*[a-zA-Z_][a-zA-Z0-9_<>.]*(<[^()]*>)?(\[,*\])*\??\s+[a-zA-Z0-9_<>.]+(<[^()]*>)?\s*\("@,
{
}

/// The words that start a statement are these, and no others.
pub proof fn law_statement_words(word: Seq<char>)
    ensures
        is_statement_word(word) <==> seq![
            "return"@, "await"@, "throw"@, "yield"@, "new"@, "else"@, "if"@, "do"@, "while"@,
            "for"@, "foreach"@, "switch"@, "case"@, "default"@, "goto"@, "break"@, "continue"@,
            "try"@, "catch"@, "finally"@, "using"@, "lock"@, "fixed"@, "checked"@, "unchecked"@,
            "stackalloc"@, "in"@, "out"@, "ref"@, "is"@, "as"@, "and"@, "or"@, "not"@, "when"@,
            "where"@, "from"@, "select"@, "let"@, "join"@, "on"@, "equals"@, "into"@,
            "orderby"@, "group"@, "by"@,
        ].contains(word),
{
    let words = seq![
        "return"@, "await"@, "throw"@, "yield"@, "new"@, "else"@, "if"@, "do"@, "while"@,
        "for"@, "foreach"@, "switch"@, "case"@, "default"@, "goto"@, "break"@, "continue"@,
        "try"@, "catch"@, "finally"@, "using"@, "lock"@, "fixed"@, "checked"@, "unchecked"@,
        "stackalloc"@, "in"@, "out"@, "ref"@, "is"@, "as"@, "and"@, "or"@, "not"@, "when"@,
        "where"@, "from"@, "select"@, "let"@, "join"@, "on"@, "equals"@, "into"@, "orderby"@,
        "group"@, "by"@,
    ];
    assert(words[0] == "return"@);
    assert(words[1] == "await"@);
    assert(words[2] == "throw"@);
    assert(words[3] == "yield"@);
    assert(words[4] == "new"@);
    assert(words[5] == "else"@);
    assert(words[6] == "if"@);
    assert(words[7] == "do"@);
    assert(words[8] == "while"@);
    assert(words[9] == "for"@);
    assert(words[10] == "foreach"@);
    assert(words[11] == "switch"@);
    assert(words[12] == "case"@);
    assert(words[13] == "default"@);
    assert(words[14] == "goto"@);
    assert(words[15] == "break"@);
    assert(words[16] == "continue"@);
    assert(words[17] == "try"@);
    assert(words[18] == "catch"@);
    assert(words[19] == "finally"@);
    assert(words[20] == "using"@);
    assert(words[21] == "lock"@);
    assert(words[22] == "fixed"@);
    assert(words[23] == "checked"@);
    assert(words[24] == "unchecked"@);
    assert(words[25] == "stackalloc"@);
    assert(words[26] == "in"@);
    assert(words[27] == "out"@);
    assert(words[28] == "ref"@);
    assert(words[29] == "is"@);
    assert(words[30] == "as"@);
    assert(words[31] == "and"@);
    assert(words[32] == "or"@);
    assert(words[33] == "not"@);
    assert(words[34] == "when"@);
    assert(words[35] == "where"@);
    assert(words[36] == "from"@);
    assert(words[37] == "select"@);
    assert(words[38] == "let"@);
    assert(words[39] == "join"@);
    assert(words[40] == "on"@);
    assert(words[41] == "equals"@);
    assert(words[42] == "into"@);
    assert(words[43] == "orderby"@);
    assert(words[44] == "group"@);
    assert(words[45] == "by"@);
    if words.contains(word) {
        let i = choose|i: int| 0 <= i < words.len() && words[i] == word;
        assert(is_statement_word(words[i]));
    }
}

/// Where the last character of a text is that is no white space.
proof fn lemma_last_of_the_core(s: Seq<char>) -> (to: int)
    ensures
        0 <= to <= s.len(),
        forall|i: int| to <= i < s.len() ==> is_space(#[trigger] s[i]),
        to > 0 ==> !is_space(s[to - 1]),
    decreases s.len(),
{
    if s.len() == 0 || !is_space(s.last()) {
        s.len() as int
    } else {
        let rest = s.drop_last();
        let to = lemma_last_of_the_core(rest);
        assert forall|i: int| to <= i < s.len() implies is_space(#[trigger] s[i]) by {
            if i < rest.len() {
                assert(rest[i] == s[i]);
            }
        }
        to
    }
}

/// The first word of a line is the letters, digits and underscores that it starts with, behind its
/// white space.
pub proof fn law_first_words(before: Seq<char>, word: Seq<char>, rest: Seq<char>)
    requires
        forall|i: int| 0 <= i < before.len() ==> is_space(#[trigger] before[i]),
        word.len() > 0,
        forall|i: int|
            0 <= i < word.len() ==> {
                let c = #[trigger] word[i];
                'a' <= c <= 'z' || 'A' <= c <= 'Z' || '0' <= c <= '9' || c == '_'
            },
        rest.len() > 0 ==> {
            let c = rest[0];
            !('a' <= c <= 'z') && !('A' <= c <= 'Z') && !('0' <= c <= '9') && c != '_'
        },
    ensures
        first_word(before + word + rest) == word,
{
    let s = before + word + rest;
    let from = before.len() as int;
    let n = word.len() as int;
    let to = lemma_last_of_the_core(s);
    assert(s[from + n - 1] == word[n - 1]);
    assert(s[from] == word[0]);
    assert forall|i: int| 0 <= i < from implies is_space(#[trigger] s[i]) by {
        assert(s[i] == before[i]);
    }
    lemma_trimmed_is(s, from, to);
    let core = s.subrange(from, to);
    assert forall|i: int| 0 <= i < n implies is_word_char(#[trigger] core[i]) by {
        assert(core[i] == word[i]);
    }
    if n < core.len() {
        assert(core[n] == rest[0]);
    }
    lemma_leading_word(core, n);
    assert(core.take(n) =~= word);
}

/// A file is written of in a result exactly if lines of it were found: with its name, and each line
/// found by its number and its text, in order.
pub proof fn law_files_are_written_with_their_lines(file: Seq<char>, found: Seq<MatchView>)
    ensures
        found.len() == 0 ==> file_block(file, found) is None,
        found.len() > 0 ==> file_block(file, found) == Some(
            JsonView::Object(
                seq![
                    ("file"@, JsonView::Text(file)),
                    (
                        "matches"@,
                        JsonView::List(
                            found.map_values(
                                |m: MatchView|
                                    JsonView::Object(
                                        seq![
                                            ("line"@, JsonView::PosInt(m.line as u64)),
                                            ("text"@, JsonView::Text(m.text)),
                                        ],
                                    ),
                            ),
                        ),
                    ),
                ],
            ),
        ),
{
    let wanted = found.map_values(
        |m: MatchView|
            JsonView::Object(
                seq![
                    ("line"@, JsonView::PosInt(m.line as u64)),
                    ("text"@, JsonView::Text(m.text)),
                ],
            ),
    );
    let given = Seq::new(found.len(), |i: int| match_json(found[i]));
    assert forall|i: int| 0 <= i < found.len() implies #[trigger] given[i] == wanted[i] by {
        assert(match_json(found[i])->Object_0 =~= wanted[i]->Object_0);
    }
    assert(given =~= wanted);
    if found.len() > 0 {
        assert(file_block(file, found)->0->Object_0 =~= seq![
            ("file"@, JsonView::Text(file)),
            ("matches"@, JsonView::List(wanted)),
        ]);
    }
}

/// Every file with a text is searched, whatever the text and wherever it comes from: something is
/// written of it exactly if the query finds a line in it. A file without a text is left out. Only a
/// text from the cache counts as a hit.
pub proof fn law_every_text_is_searched(
    compiled: CompiledSearch,
    file: Seq<char>,
    content: Content,
    searched: FileSearch,
)
    requires
        is_searched(compiled, file, content, searched),
    ensures
        searched.cached <==> content is Cached,
        content is Missing ==> searched.block is None,
        content matches Content::Cached(text) ==> (searched.block is Some <==> compiled.found(
            text@,
        ).len() > 0) && optional(searched.block) == file_block(file, compiled.found(text@)),
        content matches Content::Read(text) ==> (searched.block is Some <==> compiled.found(
            text@,
        ).len() > 0) && optional(searched.block) == file_block(file, compiled.found(text@)),
{
}

/// The result of a search counts the files whose text was cached, and the others, and holds what is
/// written of the files, in their order.
pub proof fn law_search_results(stats: CrawlStats, latency_ms: u64, files: Seq<FileSearch>)
    ensures
        ({
            let hits = files.filter(|f: FileSearch| f.cached).len();
            search_result(stats, latency_ms, files) == JsonView::Object(
                seq![
                    ("status"@, JsonView::Text("success"@)),
                    ("search_latency_ms"@, JsonView::PosInt(latency_ms)),
                    ("directories_scanned"@, JsonView::PosInt(stats.dirs_visited as u64)),
                    ("directories_rescanned"@, JsonView::PosInt(stats.dirs_rescanned as u64)),
                    ("content_cache_hits"@, JsonView::PosInt(hits as u64)),
                    ("content_cache_misses"@, JsonView::PosInt((files.len() - hits) as u64)),
                    (
                        "matches"@,
                        JsonView::List(files.filter_map(|f: FileSearch| optional(f.block))),
                    ),
                ],
            )
        }),
{
    lemma_files_counted(files);
    let hits = files.filter(|f: FileSearch| f.cached).len();
    assert(search_result(stats, latency_ms, files)->Object_0 =~= seq![
        ("status"@, JsonView::Text("success"@)),
        ("search_latency_ms"@, JsonView::PosInt(latency_ms)),
        ("directories_scanned"@, JsonView::PosInt(stats.dirs_visited as u64)),
        ("directories_rescanned"@, JsonView::PosInt(stats.dirs_rescanned as u64)),
        ("content_cache_hits"@, JsonView::PosInt(hits as u64)),
        ("content_cache_misses"@, JsonView::PosInt((files.len() - hits) as u64)),
        ("matches"@, JsonView::List(files.filter_map(|f: FileSearch| optional(f.block)))),
    ]);
}

proof fn lemma_files_counted(files: Seq<FileSearch>)
    ensures
        cached_among(files) == files.filter(|f: FileSearch| f.cached).len(),
        blocks_among(files) == files.filter_map(|f: FileSearch| optional(f.block)),
    decreases files.len(),
{
    reveal(Seq::filter);
    reveal(Seq::filter_map);
    if files.len() > 0 {
        lemma_files_counted(files.drop_last());
    }
    assert(blocks_among(files) =~= files.filter_map(|f: FileSearch| optional(f.block)));
}

/// A search is refused for want of a root, then for want of a query, then for a backend that is not
/// known, then by the backend; else it is not refused.
pub proof fn law_searches_are_refused_for_a_reason(
    backends: Map<Seq<char>, Arc<dyn SearchBackend>>,
    params: JsonView,
)
    ensures
        ({
            let root = params.text_field("root_dir"@);
            let query = params.text_field("query"@);
            let backend = match params.text_field("backend"@) {
                Some(name) => name,
                None => "regex"@,
            };
            let refusal = search_refusal(backends, params);
            &&& wanted_backend(params) == backend
            &&& root is None ==> refusal == Some("Missing root_dir"@)
            &&& root is Some && query is None ==> refusal == Some("Missing query pattern"@)
            &&& root is Some && query is Some && !backends.contains_key(backend) ==> refusal
                == Some("Unknown search backend: "@ + backend)
            &&& root is Some && query is Some && backends.contains_key(backend) ==> refusal
                == backends[backend].refusal(query->0)
        }),
{
}

/// The language of a file is its extension, or nothing where it has none.
pub proof fn law_languages_are_extensions(path: PathView)
    ensures
        path.extension_text() matches Some(ext) ==> language(path) == ext,
        path.extension_text() is None ==> language(path) == ""@,
{
}

/// The declarations of a file are those that the extractor for its language gives; a language
/// without an extractor has none.
pub proof fn law_declarations_come_from_the_extractor(
    extractors: Map<Seq<char>, Arc<dyn StructuralExtractor>>,
    ext: Seq<char>,
    content: Seq<char>,
)
    ensures
        extractors.contains_key(ext) ==> declarations(extractors, ext, content)
            == extractors[ext].nodes(ext, content),
        !extractors.contains_key(ext) ==> declarations(extractors, ext, content).len() == 0,
{
}

/// The result of a parse names the file and its language, and holds every declaration by its number
/// and its text, in order.
pub proof fn law_structure_results(
    file: Seq<char>,
    ext: Seq<char>,
    nodes: Seq<NodeView>,
    cache_hit: bool,
)
    ensures
        structure_result(file, ext, nodes, cache_hit) == JsonView::Object(
            seq![
                ("status"@, JsonView::Text("success"@)),
                ("file"@, JsonView::Text(file)),
                ("detected_language"@, JsonView::Text(ext)),
                (
                    "structural_skeleton"@,
                    JsonView::List(
                        nodes.map_values(
                            |n: NodeView|
                                JsonView::Object(
                                    seq![
                                        ("line"@, JsonView::PosInt(n.line as u64)),
                                        ("declaration"@, JsonView::Text(n.declaration)),
                                    ],
                                ),
                        ),
                    ),
                ),
                ("cache_hit"@, JsonView::Bool(cache_hit)),
            ],
        ),
{
    let wanted = nodes.map_values(
        |n: NodeView|
            JsonView::Object(
                seq![
                    ("line"@, JsonView::PosInt(n.line as u64)),
                    ("declaration"@, JsonView::Text(n.declaration)),
                ],
            ),
    );
    let given = Seq::new(nodes.len(), |i: int| node_json(nodes[i]));
    assert forall|i: int| 0 <= i < nodes.len() implies #[trigger] given[i] == wanted[i] by {
        assert(node_json(nodes[i])->Object_0 =~= wanted[i]->Object_0);
    }
    assert(given =~= wanted);
    assert(structure_result(file, ext, nodes, cache_hit)->Object_0 =~= seq![
        ("status"@, JsonView::Text("success"@)),
        ("file"@, JsonView::Text(file)),
        ("detected_language"@, JsonView::Text(ext)),
        ("structural_skeleton"@, JsonView::List(wanted)),
        ("cache_hit"@, JsonView::Bool(cache_hit)),
    ]);
}

/// A step that fails is named in the message.
pub proof fn law_failed_steps_are_named()
    ensures
        step_text(ReadStep::Stat) == "Failed to stat file: "@,
        step_text(ReadStep::Mtime) == "Failed to read mtime: "@,
        step_text(ReadStep::Open) == "Failed to open file: "@,
        step_text(ReadStep::MemoryMap) == "Mmap failed: "@,
{
}

/// Of the lines that are told by flags, a line is found exactly if it has a flag, and that is set:
/// a line without a flag is not.
pub proof fn law_flags_tell_the_lines(lines: Seq<Seq<char>>, hits: Seq<bool>, k: int)
    requires
        0 <= k < lines.len(),
    ensures
        matches_among(lines, hits).contains(
            MatchView { line: (k + 1) as nat, text: trimmed(lines[k]) },
        ) <==> k < hits.len() && hits[k],
        ({
            let text = trimmed(lines[k]);
            nodes_among(lines, hits).contains(NodeView { line: (k + 1) as nat, declaration: text })
                <==> k < hits.len() && hits[k] && text.len() > 0 && !(text.len() >= 2 && text[0]
                == '/' && text[1] == '/') && text[0] != '#'
        }),
        forall|i: int|
            0 <= i < matches_among(lines, hits).len() ==> {
                let m = #[trigger] matches_among(lines, hits)[i];
                1 <= m.line <= lines.len() && m.text == trimmed(lines[m.line - 1])
            },
        forall|i: int|
            0 <= i < nodes_among(lines, hits).len() ==> {
                let n = #[trigger] nodes_among(lines, hits)[i];
                1 <= n.line <= lines.len() && n.declaration == trimmed(lines[n.line - 1])
            },
    decreases lines.len(),
{
    let front = lines.drop_last();
    let last = lines.len() - 1;
    let text = trimmed(lines[k]);
    let m = MatchView { line: (k + 1) as nat, text };
    let n = NodeView { line: (k + 1) as nat, declaration: text };
    let found = matches_among(lines, hits);
    let nodes = nodes_among(lines, hits);
    let found_before = matches_among(front, hits);
    let nodes_before = nodes_among(front, hits);
    if front.len() > 0 {
        law_flags_tell_the_lines(
            front,
            hits,
            if k < last {
                k
            } else {
                0
            },
        );
    }
    assert(k < last ==> front[k] == lines[k]);
    assert forall|i: int| 0 <= i < found.len() implies {
        let m = #[trigger] found[i];
        1 <= m.line <= lines.len() && m.text == trimmed(lines[m.line - 1])
    } by {
        if i < found_before.len() {
            assert(found[i] == found_before[i]);
            assert(front[found[i].line - 1] == lines[found[i].line - 1]);
        }
    }
    assert forall|i: int| 0 <= i < nodes.len() implies {
        let n = #[trigger] nodes[i];
        1 <= n.line <= lines.len() && n.declaration == trimmed(lines[n.line - 1])
    } by {
        if i < nodes_before.len() {
            assert(nodes[i] == nodes_before[i]);
            assert(front[nodes[i].line - 1] == lines[nodes[i].line - 1]);
        }
    }
    if found_before.contains(m) {
        let i = choose|i: int| 0 <= i < found_before.len() && found_before[i] == m;
        assert(found[i] == m);
    }
    if found.contains(m) && k < last {
        let i = choose|i: int| 0 <= i < found.len() && found[i] == m;
        assert(found_before[i] == m);
    }
    if k == last && found.len() > found_before.len() {
        assert(found[found_before.len() as int] == m);
    }
    if nodes_before.contains(n) {
        let i = choose|i: int| 0 <= i < nodes_before.len() && nodes_before[i] == n;
        assert(nodes[i] == n);
    }
    if nodes.contains(n) && k < last {
        let i = choose|i: int| 0 <= i < nodes.len() && nodes[i] == n;
        assert(nodes_before[i] == n);
    }
    if k == last && nodes.len() > nodes_before.len() {
        assert(nodes[nodes_before.len() as int] == n);
    }
}

/// A line that starts with no letter, digit or underscore behind its white space has no first word.
pub proof fn law_lines_without_a_first_word(before: Seq<char>, rest: Seq<char>)
    requires
        forall|i: int| 0 <= i < before.len() ==> is_space(#[trigger] before[i]),
        rest.len() > 0 ==> {
            let c = rest[0];
            !('a' <= c <= 'z') && !('A' <= c <= 'Z') && !('0' <= c <= '9') && c != '_' && !is_space(
                c,
            )
        },
    ensures
        first_word(before + rest).len() == 0,
{
    let s = before + rest;
    let from = before.len() as int;
    assert forall|i: int| 0 <= i < from implies is_space(#[trigger] s[i]) by {
        assert(s[i] == before[i]);
    }
    let to = lemma_last_of_the_core(s);
    if rest.len() > 0 {
        assert(s[from] == rest[0]);
        lemma_trimmed_is(s, from, to);
        lemma_leading_word(s.subrange(from, to), 0);
    } else {
        lemma_trimmed_empty_iff_blank(s);
    }
}

/// What a parse records is held under the file's modification time and length, and nothing else is
/// changed.
pub proof fn law_parses_are_recorded(
    before: Map<PathView, Stamped<Vec<StructuralNode>>>,
    after: Map<PathView, Stamped<Vec<StructuralNode>>>,
    path: PathView,
    mtime: i128,
    len: u64,
    nodes: Seq<NodeView>,
)
    ensures
        is_recorded(before, after, path, mtime, len, nodes) <==> after.contains_key(path)
            && after[path].mtime == mtime && after[path].len == len
            && after[path].value@.map_values(|n: StructuralNode| n@) == nodes && after
            == before.insert(path, after[path]),
{
    assert(node_views(after[path].value@) =~= after[path].value@.map_values(
        |n: StructuralNode| n@,
    ));
}

} // verus!
