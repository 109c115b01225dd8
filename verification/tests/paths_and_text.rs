use mcp_native_core::paths::{extension_of, RepoPath};
use mcp_native_core::text::{is_whitespace, join, lines, same_text, trim};

fn parts(names: &[&str]) -> Vec<Vec<u8>> {
    names.iter().map(|n| n.as_bytes().to_vec()).collect()
}

fn absolute(names: &[&str]) -> RepoPath {
    let mut all = vec!["/"];
    all.extend(names);
    RepoPath::new(true, parts(&all))
}

#[test]
fn extensions_are_what_follows_the_last_dot() {
    let ext = |name: &str| extension_of(&name.as_bytes().to_vec()).map(|e| String::from_utf8(e).unwrap());
    assert_eq!(ext("a.rs"), Some("rs".to_string()));
    assert_eq!(ext("a.tar.gz"), Some("gz".to_string()));
    assert_eq!(ext("a."), Some("".to_string()));
    assert_eq!(ext("..rs"), Some("rs".to_string()));
    assert_eq!(ext(".bashrc"), None);
    assert_eq!(ext("Makefile"), None);
    assert_eq!(ext(""), None);
    for name in ["a.rs", "a.tar.gz", "a.", "..rs", ".bashrc", "Makefile"] {
        let expected = std::path::Path::new(name).extension().map(|e| e.to_str().unwrap().to_string());
        assert_eq!(ext(name), expected);
    }
}

#[test]
fn only_names_have_extensions() {
    assert_eq!(absolute(&["a", "b.py"]).extension_text(), Some("py".to_string()));
    assert_eq!(absolute(&["a", ".."]).extension_text(), None);
    assert_eq!(absolute(&[]).extension_text(), None);
    let odd = RepoPath::new(false, vec![vec![b'a', b'.', 0xff]]);
    assert_eq!(odd.extension(), Some(vec![0xff]));
    assert_eq!(odd.extension_text(), None);
}

#[test]
fn parents_end_at_the_root() {
    let parent = absolute(&["a", "b"]).parent().unwrap();
    assert!(parent.same(&absolute(&["a"])));
    assert!(parent.parent().unwrap().same(&absolute(&[])));
    assert!(absolute(&[]).parent().is_none());
    assert!(RepoPath::new(false, parts(&["a"])).parent().unwrap().same(&RepoPath::new(false, Vec::new())));
    assert!(RepoPath::new(false, Vec::new()).parent().is_none());
}

#[test]
fn paths_start_with_the_directories_above_them() {
    let file = absolute(&["a", "b", "c.rs"]);
    assert!(file.starts_with(&absolute(&["a", "b"])));
    assert!(file.starts_with(&absolute(&[])));
    assert!(file.starts_with(&file));
    assert!(!file.starts_with(&absolute(&["a", "bb"])));
    assert!(!absolute(&["a"]).starts_with(&file));
    assert!(!file.starts_with(&RepoPath::new(false, parts(&["a"]))));
    assert!(absolute(&["a", "b"]).join(&b"c.rs".to_vec()).same(&file));
    assert!(!file.same(&absolute(&["a", "b"])));
    assert_eq!(file.file_name(), Some(&b"c.rs".to_vec()));
}

#[test]
fn white_space_is_that_of_unicode() {
    for n in 0..=0x10ffffu32 {
        if let Some(c) = char::from_u32(n) {
            assert_eq!(is_whitespace(c), c.is_whitespace(), "{n:x}");
        }
    }
}

#[test]
fn texts_are_trimmed_and_split_as_usual() {
    for text in ["", " ", "a", " a b\t", "\u{a0}x\u{2003}", "a\n", "\na", "a\r\nb", "a\r", "a\rb\n\n", "\r\n", "é\nü"] {
        assert_eq!(trim(text), text.trim());
        assert_eq!(lines(text), text.lines().collect::<Vec<_>>());
    }
}

#[test]
fn lines_are_joined_by_line_feeds() {
    let all: Vec<String> = vec!["a".to_string(), "".to_string(), "c".to_string()];
    assert_eq!(join(&all, 0, 3), "a\n\nc");
    assert_eq!(join(&all, 1, 2), "");
    assert_eq!(join(&all, 2, 2), "");
}

#[test]
fn texts_are_compared_by_their_characters() {
    assert!(same_text("héllo", "héllo"));
    assert!(!same_text("a", "b"));
    assert!(!same_text("a", "aa"));
    assert!(same_text("", ""));
}
