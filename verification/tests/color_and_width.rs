use peter_prompt::color::{color_from_text, render_segments, Color, Segment};
use peter_prompt::width::display_width;

fn orange() -> Color {
    Color { r: 255, g: 165, b: 0 }
}

#[test]
fn from_hex_reads_six_digits() {
    assert_eq!(Color::from_hex("#FFA500"), Some(orange()));
    assert_eq!(Color::from_hex("ffa500"), Some(orange()));
    assert_eq!(Color::from_hex("##FfA500"), Some(orange()));
}

#[test]
fn from_hex_rejects_wrong_length_and_digits() {
    assert_eq!(Color::from_hex("#FFA50"), None);
    assert_eq!(Color::from_hex("#FFA5000"), None);
    assert_eq!(Color::from_hex("#GG0000"), None);
    assert_eq!(Color::from_hex("#-F0000"), None);
    assert_eq!(Color::from_hex(""), None);
}

#[test]
fn from_hex_takes_a_plus_sign_like_from_str_radix() {
    assert_eq!(Color::from_hex("+F+F+F"), Some(Color { r: 15, g: 15, b: 15 }));
}

#[test]
fn from_hex_panic_check_sees_cut_characters() {
    assert!(Color::from_hex_would_panic("a\u{e9}123"));
    assert!(!Color::from_hex_would_panic("\u{e9}1234"));
    assert_eq!(Color::from_hex("\u{e9}1234"), None);
    assert!(!Color::from_hex_would_panic("#FFA500"));
}

#[test]
fn ansi_foreground_sequence() {
    assert_eq!(orange().to_ansi_fg(), "\x1b[38;2;255;165;0m");
    assert_eq!(Color { r: 0, g: 7, b: 42 }.to_ansi_fg(), "\x1b[38;2;0;7;42m");
}

#[test]
fn hex_notation_round_trip() {
    let c = Color { r: 0x0a, g: 0xbc, b: 0xff };
    let s = c.to_hex_string();
    assert_eq!(s, "#0ABCFF");
    assert_eq!(Color::from_hex(&s), Some(c));
    assert_eq!(orange().to_hex_string(), "#FFA500");
}

#[test]
fn color_from_text_error_message() {
    assert_eq!(color_from_text("#FFA500"), Ok(orange()));
    assert_eq!(color_from_text("nope"), Err("invalid hex color: nope".to_string()));
}

#[test]
fn render_segments_wraps_colored_text() {
    let segs = vec![
        Segment::new("a".to_string(), Color { r: 1, g: 2, b: 3 }),
        Segment { text: "b".to_string(), color: None },
    ];
    assert_eq!(render_segments(&segs), "\x1b[38;2;1;2;3ma\x1b[0mb");
    assert_eq!(render_segments(&[]), "");
}

#[test]
fn display_width_of_plain_and_wide_text() {
    assert_eq!(display_width("hello"), 5);
    assert_eq!(display_width(""), 0);
    assert_eq!(display_width("\u{6f22}\u{5b57}"), 4);
    assert_eq!(display_width("a\tb"), 2);
}

#[test]
fn display_width_skips_escape_sequences() {
    assert_eq!(display_width("\x1b[38;2;1;2;3mab\x1b[0m"), 2);
    assert_eq!(display_width("\x1b]0;title\x07x"), 1);
    assert_eq!(display_width("\x1b]8;;url\x1b\\x"), 1);
    assert_eq!(display_width("\x1bXab"), 2);
    assert_eq!(display_width("x\x1b[1"), 1);
    assert_eq!(display_width("x\x1b"), 1);
}

#[test]
fn rendered_segments_are_as_wide_as_their_texts() {
    let segs = vec![
        Segment::new(" main".to_string(), orange()),
        Segment { text: "\u{6f22}".to_string(), color: None },
        Segment::new("+3 ".to_string(), Color { r: 9, g: 99, b: 199 }),
    ];
    let total: usize = segs.iter().map(|s| display_width(&s.text)).sum();
    assert_eq!(display_width(&render_segments(&segs)), total);
    assert_eq!(total, 10);
}

#[test]
fn rendering_a_concatenation_renders_the_parts_in_turn() {
    let a = vec![Segment::new("x".to_string(), orange())];
    let b = vec![Segment { text: "y".to_string(), color: None }, Segment::new("z".to_string(), Color { r: 0, g: 0, b: 0 })];
    let mut ab = Vec::new();
    ab.extend(a.iter().cloned());
    ab.extend(b.iter().cloned());
    assert_eq!(render_segments(&ab), format!("{}{}", render_segments(&a), render_segments(&b)));
}
