use mcp_native_core::chunks::{chunk_lines, snippet_of, CHUNK_LINES};

#[test]
fn chunk_lines_splits_into_fixed_size_non_overlapping_windows() {
    let content = (1..=95).map(|n| format!("line {n}")).collect::<Vec<_>>().join("\n");
    let chunks = chunk_lines(&content, 40);

    assert_eq!(chunks.len(), 3);
    assert_eq!((chunks[0].0, chunks[0].1), (1, 40));
    assert_eq!((chunks[1].0, chunks[1].1), (41, 80));
    assert_eq!((chunks[2].0, chunks[2].1), (81, 95));
    assert!(chunks[0].2.starts_with("line 1\n"));
    assert!(chunks[2].2.ends_with("line 95"));
}

#[test]
fn chunk_lines_skips_whitespace_only_windows() {
    let content = "\n\n   \n\t\n";
    let chunks = chunk_lines(content, 40);
    assert!(chunks.is_empty(), "an all-whitespace file shouldn't produce any chunks to embed");
}

#[test]
fn chunk_lines_handles_empty_content() {
    assert!(chunk_lines("", 40).is_empty());
}

#[test]
fn chunk_lines_handles_content_shorter_than_one_chunk() {
    let chunks = chunk_lines("fn a() {}\nfn b() {}", 40);
    assert_eq!(chunks, vec![(1, 2, "fn a() {}\nfn b() {}".to_string())]);
}

#[test]
fn blank_windows_in_the_middle_keep_the_numbers_of_the_others() {
    let chunks = chunk_lines("a\nb\n \n\t\nc\n", 2);
    assert_eq!(chunks, vec![(1, 2, "a\nb".to_string()), (5, 5, "c".to_string())]);
}

#[test]
fn carriage_returns_before_line_feeds_are_no_part_of_a_chunk() {
    let chunks = chunk_lines("a\r\nb\r\n", 1);
    assert_eq!(chunks, vec![(1, 1, "a".to_string()), (2, 2, "b".to_string())]);
}

#[test]
fn a_window_may_be_longer_than_any_file() {
    let chunks = chunk_lines("x\ny", usize::MAX);
    assert_eq!(chunks, vec![(1, 2, "x\ny".to_string())]);
}

#[test]
fn every_line_that_is_not_blank_is_in_a_chunk() {
    let content = "one\n\n\n\nfive\n\nseven";
    let chunks = chunk_lines(content, 3);
    for (i, line) in content.lines().enumerate() {
        if !line.trim().is_empty() {
            assert!(chunks.iter().any(|c| c.0 <= i + 1 && i + 1 <= c.1), "line {} is left out", i + 1);
        }
    }
}

#[test]
fn the_snippet_of_a_chunk_is_its_text() {
    let content = (1..=95).map(|n| format!("line {n}")).collect::<Vec<_>>().join("\n");
    for (start, end, text) in chunk_lines(&content, CHUNK_LINES) {
        assert_eq!(snippet_of(&content, start, end), Some(text));
    }
}

#[test]
fn snippets_reach_as_far_as_the_lines() {
    let content = "a\nb\nc";
    assert_eq!(snippet_of(content, 2, 3), Some("b\nc".to_string()));
    assert_eq!(snippet_of(content, 2, 90), Some("b\nc".to_string()));
    assert_eq!(snippet_of(content, 0, 1), Some("a".to_string()));
    assert_eq!(snippet_of(content, 4, 9), Some("".to_string()));
    assert_eq!(snippet_of(content, 5, 9), None);
    assert_eq!(snippet_of(content, 3, 1), None);
}
