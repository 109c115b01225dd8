//! Content matching for searches, by the name of a search backend.
//!
//! A backend compiles a query once, and the compiled query is then run over every file of the
//! search.

use regex::Regex;
use std::sync::Arc;
use vstd::hash_map::StringHashMap;
use vstd::prelude::*;

use crate::patterns::{compile, is_match, matched_by, matched_by_pattern, pattern_error};
use crate::registry::{insert_shared, left_open, registered};
use crate::text::{lines, lines_of, trim, trimmed, views};

verus! {

/// A line of a file that a query matches: its number, from 1, and its trimmed text.
pub struct LineMatch {
    pub line: usize,
    pub text: String,
}

/// What a `LineMatch` stands for.
pub struct MatchView {
    pub line: nat,
    pub text: Seq<char>,
}

impl View for LineMatch {
    type V = MatchView;

    open spec fn view(&self) -> MatchView {
        MatchView { line: self.line as nat, text: self.text@ }
    }
}

/// The views of a sequence of matches.
pub open spec fn match_views(v: Seq<LineMatch>) -> Seq<MatchView> {
    Seq::new(v.len(), |i: int| v[i]@)
}

/// The matches among `lines`, where `hits` tells which lines match.
pub open spec fn matches_among(lines: Seq<Seq<char>>, hits: Seq<bool>) -> Seq<MatchView>
    decreases lines.len(),
{
    if lines.len() == 0 {
        Seq::empty()
    } else {
        let before = matches_among(lines.drop_last(), hits);
        if lines.len() <= hits.len() && hits[lines.len() - 1] {
            before.push(MatchView { line: lines.len(), text: trimmed(lines.last()) })
        } else {
            before
        }
    }
}

/// Which of `lines` are among `texts`.
pub open spec fn hits_in(texts: Set<Seq<char>>, lines: Seq<Seq<char>>) -> Seq<bool> {
    Seq::new(lines.len(), |i: int| texts.contains(lines[i]))
}

/// The matches in `content`, where `hits` tells which of its lines match.
pub fn matching_lines(content: &str, hits: &Vec<bool>) -> (r: Vec<LineMatch>)
    ensures
        match_views(r@) == matches_among(lines_of(content@), hits@),
{
    let all = lines(content);
    let n: usize = all.len();
    let ghost texts = views(all@);
    let mut out: Vec<LineMatch> = Vec::new();
    let mut i: usize = 0;
    assert(match_views(out@) =~= matches_among(texts.take(0), hits@));
    while i < n
        invariant
            i <= n == all@.len(),
            texts == views(all@),
            match_views(out@) == matches_among(texts.take(i as int), hits@),
        decreases n - i,
    {
        let ghost next = texts.take(i + 1);
        assert(next.drop_last() =~= texts.take(i as int));
        assert(next.last() == all@[i as int]@);
        if i < hits.len() && hits[i] {
            let found = LineMatch { line: i + 1, text: trim(all[i].as_str()) };
            let ghost before = out@;
            out.push(found);
            assert(match_views(out@) =~= match_views(before).push(found@));
        }
        i = i + 1;
    }
    assert(texts.take(n as int) =~= texts);
    out
}

/// A query that has been compiled, to be run over many files.
///
/// An implementation says by the spec functions what its methods give. One that leaves them out
/// leaves that open, and its methods have to give the same for the same value and arguments each
/// time.
pub trait CompiledQuery: Send + Sync {
    /// What the query finds in a file.
    open spec fn found(&self, content: Seq<char>) -> Seq<MatchView> {
        left_open(self, ("query: found"@, content))
    }

    /// The lines of a file's content that the query matches.
    fn find_matches(&self, content: &str) -> (r: Vec<LineMatch>)
        ensures
            match_views(r@) == self.found(content@),
    ;
}

/// A way of matching content, chosen by its name.
///
/// An implementation says by the spec functions what its methods give. One that leaves them out
/// leaves that open, and its methods have to give the same for the same value and arguments each
/// time.
pub trait SearchBackend: Send + Sync {
    /// The name of the backend.
    open spec fn called(&self) -> Seq<char> {
        left_open(self, "backend: called"@)
    }

    /// Why a query is refused, if it is.
    open spec fn refusal(&self, query: Seq<char>) -> Option<Seq<char>> {
        left_open(self, ("backend: refusal"@, query))
    }

    /// What a query that is not refused finds in a file.
    open spec fn found_by(&self, query: Seq<char>, content: Seq<char>) -> Seq<MatchView> {
        left_open(self, ("backend: found_by"@, query, content))
    }

    /// The name that the backend is registered under.
    fn name(&self) -> (r: &'static str)
        ensures
            r@ == self.called(),
    ;

    /// Compiles a query, or says why it is refused.
    fn compile(&self, query: &str) -> (r: Result<CompiledSearch, String>)
        ensures
            match r {
                Ok(compiled) => self.refusal(query@) is None && forall|content: Seq<char>| #[trigger]
                    compiled.found(content) == self.found_by(query@, content),
                Err(e) => self.refusal(query@) == Some(e@),
            },
    ;
}

/// A query compiled to a regular expression.
pub struct CompiledRegex {
    pub re: Regex,
}

impl CompiledQuery for CompiledRegex {
    open spec fn found(&self, content: Seq<char>) -> Seq<MatchView> {
        matches_among(lines_of(content), hits_in(matched_by(self.re), lines_of(content)))
    }

    fn find_matches(&self, content: &str) -> (r: Vec<LineMatch>) {
        let all = lines(content);
        let n: usize = all.len();
        let ghost texts = views(all@);
        let mut hits: Vec<bool> = Vec::new();
        let mut i: usize = 0;
        while i < n
            invariant
                i <= n == all@.len(),
                texts == views(all@),
                hits@ == hits_in(matched_by(self.re), texts).take(i as int),
            decreases n - i,
        {
            hits.push(is_match(&self.re, all[i].as_str()));
            i = i + 1;
            assert(hits@ =~= hits_in(matched_by(self.re), texts).take(i as int));
        }
        assert(hits@ =~= hits_in(matched_by(self.re), texts));
        matching_lines(content, &hits)
    }
}

/// A compiled query, shared by the files of a search: a regular expression, or the query of
/// another backend.
pub enum CompiledSearch {
    Regex(CompiledRegex),
    Custom(Box<dyn CompiledQuery>),
}

impl CompiledSearch {
    /// What the query finds in a file.
    pub open spec fn found(&self, content: Seq<char>) -> Seq<MatchView> {
        match self {
            CompiledSearch::Regex(query) => query.found(content),
            CompiledSearch::Custom(query) => query.found(content),
        }
    }

    /// The lines of a file's content that the query matches.
    pub fn find_matches(&self, content: &str) -> (r: Vec<LineMatch>)
        ensures
            match_views(r@) == self.found(content@),
    {
        match self {
            CompiledSearch::Regex(query) => query.find_matches(content),
            CompiledSearch::Custom(query) => query.find_matches(content),
        }
    }
}

/// The message for a pattern that does not compile.
pub open spec fn refusal_text(error: Seq<char>) -> Seq<char> {
    "Invalid Regex Compilation Error: "@ + error
}

/// The message for a pattern that does not compile.
pub fn refusal_message(error: &str) -> (r: String)
    ensures
        r@ == refusal_text(error@),
{
    let mut s = "Invalid Regex Compilation Error: ".to_string();
    s.append(error);
    s
}

/// The backend whose queries are regular expressions, matched line by line.
pub struct RegexSearchBackend;

impl SearchBackend for RegexSearchBackend {
    open spec fn called(&self) -> Seq<char> {
        "regex"@
    }

    open spec fn refusal(&self, query: Seq<char>) -> Option<Seq<char>> {
        match pattern_error(query, usize::BITS) {
            Some(e) => Some(refusal_text(e)),
            None => None,
        }
    }

    open spec fn found_by(&self, query: Seq<char>, content: Seq<char>) -> Seq<MatchView> {
        matches_among(lines_of(content), hits_in(matched_by_pattern(query), lines_of(content)))
    }

    fn name(&self) -> (r: &'static str) {
        "regex"
    }

    fn compile(&self, query: &str) -> (r: Result<CompiledSearch, String>) {
        match compile(query) {
            Ok(re) => Ok(CompiledSearch::Regex(CompiledRegex { re })),
            Err(e) => Err(refusal_message(e.as_str())),
        }
    }
}

/// Which backend is registered under which name.
pub struct SearchBackendRegistry {
    by_name: StringHashMap<Arc<dyn SearchBackend>>,
}

impl View for SearchBackendRegistry {
    type V = Map<Seq<char>, Arc<dyn SearchBackend>>;

    closed spec fn view(&self) -> Map<Seq<char>, Arc<dyn SearchBackend>> {
        self.by_name@
    }
}

impl SearchBackendRegistry {
    /// The registry in which nothing is registered.
    pub fn new() -> (r: SearchBackendRegistry)
        ensures
            r@ == Map::<Seq<char>, Arc<dyn SearchBackend>>::empty(),
    {
        SearchBackendRegistry { by_name: StringHashMap::new() }
    }

    /// Registers `backend` under its name, in place of the one registered under it before.
    pub fn register(&mut self, backend: Arc<dyn SearchBackend>)
        ensures
            final(self)@ == registered(backend, seq![backend.called()], old(self)@),
    {
        let name = backend.name();
        insert_shared(&mut self.by_name, name.to_string(), &backend);
        proof {
            let names = seq![backend.called()];
            assert(names.drop_last() =~= Seq::<Seq<char>>::empty());
            reveal_with_fuel(registered, 2);
        }
    }

    /// The backend registered under `name`.
    pub fn get(&self, name: &str) -> (r: Option<&Arc<dyn SearchBackend>>)
        ensures
            match r {
                Some(x) => self@.contains_key(name@) && *x == self@[name@],
                None => !self@.contains_key(name@),
            },
    {
        self.by_name.get(name)
    }
}

/// Every match is a line that the query hits: its number is the line's, its text is the trimmed
/// line. The matches come in the order of the lines, each line at most once, and no hit is left out.
pub proof fn law_matches_are_lines(lines: Seq<Seq<char>>, hits: Seq<bool>)
    requires
        lines.len() <= hits.len(),
    ensures
        ({
            let found = matches_among(lines, hits);
            &&& forall|i: int|
                0 <= i < found.len() ==> {
                    let m = #[trigger] found[i];
                    &&& 1 <= m.line <= lines.len()
                    &&& hits[m.line - 1]
                    &&& m.text == trimmed(lines[m.line - 1])
                }
            &&& forall|i: int, j: int|
                0 <= i < j < found.len() ==> (#[trigger] found[i]).line < (#[trigger] found[j]).line
            &&& forall|k: int|
                0 <= k < lines.len() && hits[k] ==> found.contains(
                    MatchView { line: (k + 1) as nat, text: trimmed(#[trigger] lines[k]) },
                )
        }),
    decreases lines.len(),
{
    if lines.len() > 0 {
        let before = lines.drop_last();
        law_matches_are_lines(before, hits);
        let earlier = matches_among(before, hits);
        let found = matches_among(lines, hits);
        assert forall|k: int| 0 <= k < lines.len() && hits[k] implies found.contains(
            MatchView { line: (k + 1) as nat, text: trimmed(#[trigger] lines[k]) },
        ) by {
            let m = MatchView { line: (k + 1) as nat, text: trimmed(lines[k]) };
            if k < before.len() {
                assert(before[k] == lines[k]);
                assert(earlier.contains(m));
                let i = choose|i: int| 0 <= i < earlier.len() && earlier[i] == m;
                assert(found[i] == m);
            } else {
                assert(found[found.len() - 1] == m);
            }
        }
    }
}

} // verus!
