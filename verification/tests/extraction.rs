use mcp_native_core::extractors::{
    structural_nodes, ExtractorRegistry, RegexExtractor, StructuralExtractor, StructuralNode,
};
use std::sync::Arc;

fn pairs(nodes: &[StructuralNode]) -> Vec<(usize, String)> {
    nodes.iter().map(|n| (n.line, n.declaration.clone())).collect()
}

#[test]
fn regex_extractor_matches_prior_inline_behavior() {
    let extractor = RegexExtractor;
    let content = "\
// a comment, skipped
pub fn foo(x: i32) -> i32 {
    x + 1
}

struct Bar {
    field: i32,
}
";
    let nodes = extractor.extract("rs", content);
    assert_eq!(
        pairs(&nodes),
        vec![
            (2, "pub fn foo(x: i32) -> i32 {".to_string()),
            (6, "struct Bar {".to_string()),
        ]
    );
}

#[test]
fn regex_extractor_returns_empty_for_unknown_extension() {
    let extractor = RegexExtractor;
    assert!(extractor.extract("txt", "fn foo() {}").is_empty());
}

#[test]
fn registry_returns_registered_extractor() {
    let mut registry = ExtractorRegistry::new();
    registry.register(Arc::new(RegexExtractor));

    assert!(registry.get("rs").is_some());
    assert!(registry.get("py").is_some());
    assert!(registry.get("cs").is_some());
    assert!(registry.get("txt").is_none());
}

struct StubExtractor;

impl StructuralExtractor for StubExtractor {
    fn extensions(&self) -> Vec<String> {
        vec!["rs".to_string()]
    }

    fn extract(&self, _ext: &str, _content: &str) -> Vec<StructuralNode> {
        vec![StructuralNode { line: 1, declaration: "stub".to_string() }]
    }
}

#[test]
fn registering_a_new_extractor_for_the_same_extension_overwrites_the_old_one() {
    let mut registry = ExtractorRegistry::new();
    registry.register(Arc::new(RegexExtractor));
    registry.register(Arc::new(StubExtractor));

    let nodes = registry.get("rs").unwrap().extract("rs", "pub fn foo() {}");
    assert_eq!(pairs(&nodes), vec![(1, "stub".to_string())]);
}

#[test]
fn registering_for_one_extension_leaves_the_others() {
    let mut registry = ExtractorRegistry::new();
    registry.register(Arc::new(RegexExtractor));
    registry.register(Arc::new(StubExtractor));

    let nodes = registry.get("py").unwrap().extract("py", "class A:\n    x = 1\n");
    assert_eq!(pairs(&nodes), vec![(1, "class A:".to_string())]);
}

#[test]
fn comments_and_blank_lines_are_no_nodes_even_where_they_look_like_one() {
    let content = "  fn a() {}\r\n\n# fn b() {}\n   // fn c() {}\nfn d() {}";
    let nodes = structural_nodes(content, &vec![true, true, true, true, true]);
    assert_eq!(pairs(&nodes), vec![(1, "fn a() {}".to_string()), (5, "fn d() {}".to_string())]);
    assert!(structural_nodes(content, &vec![]).is_empty());
    assert!(structural_nodes(content, &vec![false, true, true, true, false]).is_empty());
}

#[test]
fn the_structure_of_a_csharp_file_is_its_types_and_methods() {
    let content = "class Foo {\n    public void Run() {\n        return Go(x);\n    }\n}";
    let nodes = RegexExtractor.extract("cs", content);
    let found: Vec<(usize, &str)> = nodes.iter().map(|n| (n.line, n.declaration.as_str())).collect();
    assert_eq!(found, vec![(1, "class Foo {"), (2, "public void Run() {")]);
}
