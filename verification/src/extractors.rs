//! Structural extraction from files, by file extension.
//!
//! An extractor takes a whole file's content and gives its declarations. Which extractor a file
//! goes to is decided by its extension alone, so that another way of extraction takes over for
//! the extensions that it is registered for.

use std::sync::Arc;
use vstd::hash_map::StringHashMap;
use vstd::prelude::*;

use crate::patterns::{is_structural_line, matcher_for};
use crate::registry::{insert_shared, left_open, registered};
use crate::text::{lines, lines_of, trim, trimmed, views};

verus! {

/// A declaration found in a file: the number of its line, from 1, and its text.
pub struct StructuralNode {
    pub line: usize,
    pub declaration: String,
}

/// What a `StructuralNode` stands for.
pub struct NodeView {
    pub line: nat,
    pub declaration: Seq<char>,
}

impl View for StructuralNode {
    type V = NodeView;

    open spec fn view(&self) -> NodeView {
        NodeView { line: self.line as nat, declaration: self.declaration@ }
    }
}

/// The views of a sequence of nodes.
pub open spec fn node_views(v: Seq<StructuralNode>) -> Seq<NodeView> {
    Seq::new(v.len(), |i: int| v[i]@)
}

/// Whether a trimmed line is empty or a comment.
pub open spec fn is_passed_over(line: Seq<char>) -> bool {
    ||| line.len() == 0
    ||| line.len() >= 2 && line[0] == '/' && line[1] == '/'
    ||| line[0] == '#'
}

/// The declarations among `lines`, where `hits` tells which lines look like one. A line that is
/// blank or a comment is none.
pub open spec fn nodes_among(lines: Seq<Seq<char>>, hits: Seq<bool>) -> Seq<NodeView>
    decreases lines.len(),
{
    if lines.len() == 0 {
        Seq::empty()
    } else {
        let before = nodes_among(lines.drop_last(), hits);
        let text = trimmed(lines.last());
        if !is_passed_over(text) && lines.len() <= hits.len() && hits[lines.len() - 1] {
            before.push(NodeView { line: lines.len(), declaration: text })
        } else {
            before
        }
    }
}

/// Which of `lines` are declarations in a file with extension `ext`.
pub open spec fn structural_hits(ext: Seq<char>, lines: Seq<Seq<char>>) -> Seq<bool> {
    Seq::new(lines.len(), |i: int| is_structural_line(ext, lines[i]))
}

/// Whether a trimmed line is empty or a comment.
fn passes_over(line: &str) -> (r: bool)
    ensures
        r == is_passed_over(line@),
{
    let chars = crate::text::chars_of(line);
    chars.len() == 0 || (chars.len() >= 2 && chars[0] == '/' && chars[1] == '/') || chars[0] == '#'
}

/// The declarations in `content`, where `hits` tells which of its lines look like one.
pub fn structural_nodes(content: &str, hits: &Vec<bool>) -> (r: Vec<StructuralNode>)
    ensures
        node_views(r@) == nodes_among(lines_of(content@), hits@),
{
    let all = lines(content);
    let n: usize = all.len();
    let ghost texts = views(all@);
    let mut out: Vec<StructuralNode> = Vec::new();
    let mut i: usize = 0;
    assert(node_views(out@) =~= nodes_among(texts.take(0), hits@));
    while i < n
        invariant
            i <= n == all@.len(),
            texts == views(all@),
            node_views(out@) == nodes_among(texts.take(i as int), hits@),
        decreases n - i,
    {
        let ghost next = texts.take(i + 1);
        assert(next.drop_last() =~= texts.take(i as int));
        assert(next.last() == all@[i as int]@);
        let text = trim(all[i].as_str());
        if !passes_over(text.as_str()) && i < hits.len() && hits[i] {
            let node = StructuralNode { line: i + 1, declaration: text };
            let ghost before = out@;
            out.push(node);
            assert(node_views(out@) =~= node_views(before).push(node@));
        }
        i = i + 1;
    }
    assert(texts.take(n as int) =~= texts);
    out
}

/// Extracts the declarations of a whole file.
///
/// An implementation says by the spec functions what its methods give. One that leaves them out
/// leaves that open, and its methods have to give the same for the same value and arguments each
/// time.
pub trait StructuralExtractor: Send + Sync {
    /// The extensions of the files that the extractor handles.
    open spec fn handled(&self) -> Seq<Seq<char>> {
        left_open(self, "extractor: handled"@)
    }

    /// What the extractor gives for a file.
    open spec fn nodes(&self, ext: Seq<char>, content: Seq<char>) -> Seq<NodeView> {
        left_open(self, ("extractor: nodes"@, ext, content))
    }

    /// The lowercase extensions, without the dot, of the files that the extractor handles.
    fn extensions(&self) -> (r: Vec<String>)
        ensures
            views(r@) == self.handled(),
    ;

    /// The declarations in the content of a file with extension `ext`.
    fn extract(&self, ext: &str, content: &str) -> (r: Vec<StructuralNode>)
        ensures
            node_views(r@) == self.nodes(ext@, content@),
    ;
}

/// The extractor that goes by the regular expressions for declarations.
pub struct RegexExtractor;

impl StructuralExtractor for RegexExtractor {
    open spec fn handled(&self) -> Seq<Seq<char>> {
        seq!["rs"@, "py"@, "cs"@]
    }

    open spec fn nodes(&self, ext: Seq<char>, content: Seq<char>) -> Seq<NodeView> {
        nodes_among(lines_of(content), structural_hits(ext, lines_of(content)))
    }

    fn extensions(&self) -> (r: Vec<String>) {
        let r: Vec<String> = vec!["rs".to_string(), "py".to_string(), "cs".to_string()];
        assert(views(r@) =~= seq!["rs"@, "py"@, "cs"@]);
        r
    }

    fn extract(&self, ext: &str, content: &str) -> (r: Vec<StructuralNode>) {
        let all = lines(content);
        let n: usize = all.len();
        let ghost texts = views(all@);
        let mut hits: Vec<bool> = Vec::new();
        let matcher = matcher_for(ext);
        let mut i: usize = 0;
        while i < n
            invariant
                i <= n == all@.len(),
                texts == views(all@),
                match matcher {
                    Some(m) => forall|line: Seq<char>| #[trigger]
                        m.takes(line) == is_structural_line(ext@, line),
                    None => forall|line: Seq<char>| !(#[trigger] is_structural_line(ext@, line)),
                },
                hits@ == structural_hits(ext@, texts).take(i as int),
            decreases n - i,
        {
            let hit = match &matcher {
                Some(m) => m.is_declaration(all[i].as_str()),
                None => false,
            };
            hits.push(hit);
            i = i + 1;
            assert(hits@ =~= structural_hits(ext@, texts).take(i as int));
        }
        assert(hits@ =~= structural_hits(ext@, texts));
        structural_nodes(content, &hits)
    }
}

/// Which extractor is registered for which extension.
pub struct ExtractorRegistry {
    by_extension: StringHashMap<Arc<dyn StructuralExtractor>>,
}

impl View for ExtractorRegistry {
    type V = Map<Seq<char>, Arc<dyn StructuralExtractor>>;

    closed spec fn view(&self) -> Map<Seq<char>, Arc<dyn StructuralExtractor>> {
        self.by_extension@
    }
}

impl ExtractorRegistry {
    /// The registry in which nothing is registered.
    pub fn new() -> (r: ExtractorRegistry)
        ensures
            r@ == Map::<Seq<char>, Arc<dyn StructuralExtractor>>::empty(),
    {
        ExtractorRegistry { by_extension: StringHashMap::new() }
    }

    /// Registers `extractor` for the extensions that it handles.
    pub fn register(&mut self, extractor: Arc<dyn StructuralExtractor>)
        ensures
            final(self)@ == registered(extractor, extractor.handled(), old(self)@),
    {
        let extensions = extractor.extensions();
        let n: usize = extensions.len();
        let ghost all = views(extensions@);
        let mut i: usize = 0;
        assert(registered(extractor, all.take(0), self@) == self@);
        while i < n
            invariant
                i <= n == extensions@.len(),
                all == views(extensions@),
                self@ == registered(extractor, all.take(i as int), old(self)@),
            decreases n - i,
        {
            let ghost next = all.take(i + 1);
            assert(next.drop_last() =~= all.take(i as int));
            assert(next.last() == extensions@[i as int]@);
            insert_shared(&mut self.by_extension, extensions[i].clone(), &extractor);
            i = i + 1;
        }
        assert(all.take(n as int) =~= all);
    }

    /// The extractor registered for `ext`.
    pub fn get(&self, ext: &str) -> (r: Option<&Arc<dyn StructuralExtractor>>)
        ensures
            match r {
                Some(x) => self@.contains_key(ext@) && *x == self@[ext@],
                None => !self@.contains_key(ext@),
            },
    {
        self.by_extension.get(ext)
    }
}

/// Every node is a line of the file that looks like a declaration and is no comment: its number
/// is the line's, its text is the trimmed line. The nodes come in the order of the lines, each
/// line at most once, and no such line is left out.
pub proof fn law_nodes_are_lines(lines: Seq<Seq<char>>, hits: Seq<bool>)
    requires
        lines.len() == hits.len(),
    ensures
        ({
            let nodes = nodes_among(lines, hits);
            &&& forall|i: int|
                0 <= i < nodes.len() ==> {
                    let node = #[trigger] nodes[i];
                    &&& 1 <= node.line <= lines.len()
                    &&& hits[node.line - 1]
                    &&& node.declaration == trimmed(lines[node.line - 1])
                    &&& !is_passed_over(node.declaration)
                }
            &&& forall|i: int, j: int|
                0 <= i < j < nodes.len() ==> (#[trigger] nodes[i]).line < (#[trigger] nodes[j]).line
            &&& forall|k: int|
                0 <= k < lines.len() && hits[k] && !is_passed_over(trimmed(#[trigger] lines[k]))
                    ==> nodes.contains(
                    NodeView { line: (k + 1) as nat, declaration: trimmed(lines[k]) },
                )
        }),
    decreases lines.len(),
{
    if lines.len() > 0 {
        let before = lines.drop_last();
        let shorter = hits.drop_last();
        law_nodes_are_lines(before, shorter);
        lemma_later_hits_do_not_matter(before, shorter, hits);
        let old_nodes = nodes_among(before, hits);
        let nodes = nodes_among(lines, hits);
        assert forall|k: int|
            0 <= k < lines.len() && hits[k] && !is_passed_over(
                trimmed(#[trigger] lines[k]),
            ) implies nodes.contains(
            NodeView { line: (k + 1) as nat, declaration: trimmed(lines[k]) },
        ) by {
            let node = NodeView { line: (k + 1) as nat, declaration: trimmed(lines[k]) };
            if k < before.len() {
                assert(before[k] == lines[k]);
                assert(shorter[k] == hits[k]);
                assert(old_nodes.contains(node));
                let i = choose|i: int| 0 <= i < old_nodes.len() && old_nodes[i] == node;
                assert(nodes[i] == node);
            } else {
                assert(nodes[nodes.len() - 1] == node);
            }
        }
    }
}

proof fn lemma_later_hits_do_not_matter(lines: Seq<Seq<char>>, a: Seq<bool>, b: Seq<bool>)
    requires
        lines.len() <= a.len(),
        lines.len() <= b.len(),
        forall|i: int| 0 <= i < lines.len() ==> a[i] == b[i],
    ensures
        nodes_among(lines, a) == nodes_among(lines, b),
    decreases lines.len(),
{
    if lines.len() > 0 {
        lemma_later_hits_do_not_matter(lines.drop_last(), a, b);
    }
}

/// A file whose extension is not one of a known language has no nodes.
pub proof fn law_unknown_extension_has_no_nodes(ext: Seq<char>, content: Seq<char>)
    requires
        ext != "rs"@,
        ext != "py"@,
        ext != "cs"@,
    ensures
        RegexExtractor.nodes(ext, content).len() == 0,
{
    let all = lines_of(content);
    let hits = structural_hits(ext, all);
    law_nodes_are_lines(all, hits);
    let nodes = nodes_among(all, hits);
    if nodes.len() > 0 {
        assert(hits[nodes[0].line - 1]);
    }
}

} // verus!
