use peter_prompt::color::{render_segments, Color, Segment};
use peter_prompt::layout::{render_line, split_on_newlines, Layout, NewlinePart, RenderedChunk};
use peter_prompt::text::{
    lines, parse_i32, parse_u32, parse_usize, replace, split_by, split_whitespace, str_contains,
    strip_prefix,
};

fn parts_as_text(parts: &[NewlinePart]) -> Vec<Option<String>> {
    parts
        .iter()
        .map(|p| match p {
            NewlinePart::Text(t) => Some(t.clone()),
            NewlinePart::Newline => None,
        })
        .collect()
}

#[test]
fn split_on_newlines_drops_empty_pieces() {
    let parts = split_on_newlines("a\n\nb\n");
    assert_eq!(
        parts_as_text(&parts),
        vec![Some("a".to_string()), None, None, Some("b".to_string()), None]
    );
    assert!(split_on_newlines("").is_empty());
}

#[test]
fn split_on_newlines_joins_back() {
    let s = "x\ny z\n\n w";
    let joined: String = parts_as_text(&split_on_newlines(s))
        .into_iter()
        .map(|p| p.unwrap_or_else(|| "\n".to_string()))
        .collect();
    assert_eq!(joined, s);
}

fn chunk(text: &str, width: usize, right: bool) -> RenderedChunk {
    RenderedChunk { text: text.to_string(), width, align_right: right }
}

#[test]
fn render_line_left_only_concatenates() {
    let cs = vec![chunk("ab", 2, false), chunk("cd", 2, false)];
    assert_eq!(render_line(&cs, 80), "abcd");
}

#[test]
fn render_line_pads_to_the_right_edge() {
    let cs = vec![chunk("ab", 2, false), chunk("cd", 2, true), chunk("e", 1, false)];
    assert_eq!(render_line(&cs, 10), "abe     cd");
    assert_eq!(render_line(&cs, 10).len(), 10);
}

#[test]
fn render_line_keeps_one_space_when_too_narrow() {
    let cs = vec![chunk("ab", 2, false), chunk("cd", 2, true)];
    assert_eq!(render_line(&cs, 3), "ab cd");
    assert_eq!(render_line(&cs, 5), "ab cd");
    assert_eq!(render_line(&cs, 6), "ab  cd");
}

#[test]
fn layout_breaks_lines_and_aligns() {
    let mut l = Layout::new();
    l.add_segments(&[Segment { text: "left".to_string(), color: None }]);
    l.align();
    l.add_segments(&[Segment { text: "right\nnext".to_string(), color: None }]);
    assert_eq!(l.lines.len(), 2);
    assert!(!l.align_right);
    assert_eq!(l.finish(12), "left   right\nnext");
}

#[test]
fn layout_measures_colored_text() {
    let mut l = Layout::new();
    let segs = vec![Segment::new("ab".to_string(), Color { r: 1, g: 2, b: 3 })];
    l.add_segments(&segs);
    assert_eq!(l.lines[0][0].width, 2);
    assert_eq!(l.lines[0][0].text, render_segments(&segs));
}

#[test]
fn replace_like_std() {
    assert_eq!(replace("abc", "", "x"), "xaxbxcx");
    assert_eq!(replace("aaa", "aa", "b"), "ba");
    assert_eq!(replace("/home/me/x", "/home/me", "~"), "~/x");
    assert_eq!(replace("abc", "z", "y"), "abc");
    assert_eq!(replace("abab", "ab", "ab"), "abab");
}

#[test]
fn split_by_pattern() {
    assert_eq!(split_by("a, b, ", ", "), vec!["a", "b", ""]);
    assert_eq!(split_by("", ", "), vec![""]);
}

#[test]
fn lines_like_std() {
    assert_eq!(lines("a\r\nb\n"), vec!["a", "b"]);
    assert_eq!(lines("a\r"), vec!["a\r"]);
    assert_eq!(lines("\n"), vec![""]);
    assert!(lines("").is_empty());
}

#[test]
fn split_whitespace_like_std() {
    assert_eq!(split_whitespace("  a b\u{3000}c \n"), vec!["a", "b", "c"]);
    assert!(split_whitespace(" \t ").is_empty());
}

#[test]
fn strip_and_contains() {
    assert_eq!(strip_prefix("--columns=80", "--columns="), Some("80".to_string()));
    assert_eq!(strip_prefix("-c", "--columns="), None);
    assert!(str_contains("3 files changed", "file"));
    assert!(!str_contains("3 insertions", "file"));
}

#[test]
fn integer_parsing_like_std() {
    assert_eq!(parse_i32("-2147483648"), Some(i32::MIN));
    assert_eq!(parse_i32("2147483647"), Some(i32::MAX));
    assert_eq!(parse_i32("2147483648"), None);
    assert_eq!(parse_i32("+5"), Some(5));
    assert_eq!(parse_i32("-"), None);
    assert_eq!(parse_i32("-+5"), None);
    assert_eq!(parse_u32("4294967295"), Some(u32::MAX));
    assert_eq!(parse_u32("4294967296"), None);
    assert_eq!(parse_u32("-1"), None);
    assert_eq!(parse_usize("+"), None);
    assert_eq!(parse_usize("007"), Some(7));
    assert_eq!(parse_usize(" 7"), None);
    for n in [0u32, 9, 10, 255, 4294967295] {
        assert_eq!(parse_u32(&n.to_string()), Some(n));
    }
}

#[test]
fn split_on_newlines_counts_breaks_and_keeps_texts_clean() {
    let s = "\n\nab\nc\n\n";
    let parts = parts_as_text(&split_on_newlines(s));
    let breaks = parts.iter().filter(|p| p.is_none()).count();
    assert_eq!(breaks, s.matches('\n').count());
    assert!(parts.iter().flatten().all(|t| !t.is_empty() && !t.contains('\n')));
}
