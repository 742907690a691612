use markview::mermaid::{has_mermaid, split, Segment};

fn segments(text: &str) -> Vec<Segment<'_>> {
    let segments = split(text);
    let rebuilt: String = segments.iter().copied().map(Segment::raw).collect();
    assert_eq!(rebuilt, text, "the segments do not rebuild the text");
    segments
}

#[test]
fn plain_markdown_is_one_segment() {
    let text = "# 标题\n\n正文，没有围栏。\n";
    assert_eq!(segments(text).len(), 1);
    assert!(!has_mermaid(text));
}

#[test]
fn mermaid_fence_splits_into_three() {
    let text = "前\n\n```mermaid\nflowchart TD\n  A --> B\n```\n\n后\n";
    let found = segments(text);
    assert_eq!(found.len(), 3);
    assert_eq!(found[0], Segment::Markdown("前\n\n"));
    assert_eq!(
        found[1],
        Segment::Mermaid {
            raw: "```mermaid\nflowchart TD\n  A --> B\n```\n",
            source: "flowchart TD\n  A --> B",
        }
    );
    assert_eq!(found[2], Segment::Markdown("\n后\n"));
    assert!(has_mermaid(text));
}

#[test]
fn info_string_may_carry_more_words() {
    let found = segments("```mermaid title=x\nA --> B\n```\n");
    assert_eq!(found.len(), 1);
    assert!(has_mermaid("```mermaid title=x\nA --> B\n```\n"));
}

#[test]
fn fence_inside_a_code_block_is_not_mermaid() {
    let text = "````text\n```mermaid\nA --> B\n```\n````\n";
    let found = segments(text);
    assert_eq!(found.len(), 1);
    assert!(!has_mermaid(text));
}

#[test]
fn unterminated_fence_runs_to_eof() {
    let text = "说明\n\n```mermaid\nflowchart TD\n  A --> B";
    let found = segments(text);
    assert_eq!(found.len(), 2);
    assert_eq!(
        found[1],
        Segment::Mermaid {
            raw: "```mermaid\nflowchart TD\n  A --> B",
            source: "flowchart TD\n  A --> B",
        }
    );
}

#[test]
fn crlf_line_endings_are_stripped() {
    let found = segments("```mermaid\r\nA --> B\r\n```\r\n");
    assert_eq!(
        found[0],
        Segment::Mermaid {
            raw: "```mermaid\r\nA --> B\r\n```\r\n",
            source: "A --> B",
        }
    );
}

#[test]
fn tilde_fence_works() {
    assert!(has_mermaid("~~~mermaid\npie\n  \"a\" : 1\n~~~\n"));
}

#[test]
fn upper_case_info_word_counts() {
    assert!(has_mermaid("```MerMaid\nA\n```\n"));
    assert!(!has_mermaid("```mermaidx\nA\n```\n"));
}

#[test]
fn empty_text_has_no_segments_that_lose_text() {
    let found = segments("");
    assert!(found.iter().all(|s| s.raw().is_empty()));
}

#[test]
fn shorter_closing_fence_does_not_close() {
    let text = "````mermaid\nA\n```\nB\n````\nafter\n";
    let found = segments(text);
    assert_eq!(
        found[0],
        Segment::Mermaid {
            raw: "````mermaid\nA\n```\nB\n````\n",
            source: "A\n```\nB",
        }
    );
    assert_eq!(found[1], Segment::Markdown("after\n"));
}
