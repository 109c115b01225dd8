use mcp_native_core::search_backend::{
    matching_lines, CompiledQuery, CompiledSearch, LineMatch, RegexSearchBackend, SearchBackend,
    SearchBackendRegistry,
};
use std::sync::Arc;

fn pairs(matches: &[LineMatch]) -> Vec<(usize, String)> {
    matches.iter().map(|m| (m.line, m.text.clone())).collect()
}

#[test]
fn regex_backend_matches_prior_inline_behavior() {
    let backend = RegexSearchBackend;
    let compiled = backend.compile("pub fn").ok().unwrap();
    let content = "pub fn foo() {}\nfn bar() {}\n  pub fn baz() {}\n";

    let matches = compiled.find_matches(content);
    assert_eq!(
        pairs(&matches),
        vec![(1, "pub fn foo() {}".to_string()), (3, "pub fn baz() {}".to_string())]
    );
}

#[test]
fn regex_backend_surfaces_the_original_error_message_on_bad_pattern() {
    let backend = RegexSearchBackend;
    match backend.compile("(unclosed") {
        Err(err) => {
            assert!(err.starts_with("Invalid Regex Compilation Error:"), "unexpected error: {err}");
            assert!(err.contains("unclosed group"), "unexpected error: {err}");
        }
        Ok(_) => panic!("expected compile to fail on an invalid regex pattern"),
    }
}

#[test]
fn registry_returns_registered_backend_and_none_for_unknown_name() {
    let mut registry = SearchBackendRegistry::new();
    registry.register(Arc::new(RegexSearchBackend));

    assert!(registry.get("regex").is_some());
    assert!(registry.get("fuzzy").is_none());
}

struct StubBackend;
struct StubQuery;

impl CompiledQuery for StubQuery {
    fn find_matches(&self, _content: &str) -> Vec<LineMatch> {
        vec![LineMatch { line: 1, text: "stub".to_string() }]
    }
}

impl SearchBackend for StubBackend {
    fn name(&self) -> &'static str {
        "regex"
    }

    fn compile(&self, _query: &str) -> Result<CompiledSearch, String> {
        Ok(CompiledSearch::Custom(Box::new(StubQuery)))
    }
}

#[test]
fn registering_a_new_backend_under_the_same_name_overwrites_the_old_one() {
    let mut registry = SearchBackendRegistry::new();
    registry.register(Arc::new(RegexSearchBackend));
    registry.register(Arc::new(StubBackend));

    let compiled = registry.get("regex").unwrap().compile("anything").ok().unwrap();
    assert_eq!(pairs(&compiled.find_matches("irrelevant")), vec![(1, "stub".to_string())]);
}

#[test]
fn matching_lines_are_numbered_and_trimmed() {
    let content = "a\r\n\n  b  \nc";
    assert_eq!(
        pairs(&matching_lines(content, &vec![true, true, true, false])),
        vec![(1, "a".to_string()), (2, "".to_string()), (3, "b".to_string())]
    );
    assert!(matching_lines("", &vec![true]).is_empty());
}
