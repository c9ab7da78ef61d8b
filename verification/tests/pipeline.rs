use bspwm_status::{bytes_eq, print_bspwm, process_line, tokenize, CleanupLatch, Color, Colors};

fn color(s: &str) -> Color {
    Color::new(s.as_bytes()).expect("valid color flag value")
}

fn plain_colors() -> Colors {
    Colors {
        free: color(""),
        monitor: color(""),
        occupied: color(""),
        urgent: color(""),
        state: color(""),
    }
}

#[test]
fn tokenize_scenario_line() {
    // The frame marker `O` is discarded; the rest splits on `:` into
    // `o1o2` and `O3`.
    let toks = tokenize(b"Oo1o2:O3");
    assert_eq!(toks.len(), 2);
    assert_eq!(toks[0].marker, b'o');
    assert_eq!(toks[0].label, b"1o2".to_vec());
    assert_eq!(toks[1].marker, b'O');
    assert_eq!(toks[1].label, b"3".to_vec());
}

#[test]
fn render_scenario_line() {
    let out = print_bspwm(&plain_colors(), b"Oo1o2:O3");
    assert_eq!(out, b" 1o2  -3- \n".to_vec());
}

#[test]
fn tokenize_round_trip_pairs() {
    let toks = tokenize(b"Xmfoo:obar");
    assert_eq!(toks.len(), 2);
    assert_eq!(toks[0].marker, b'm');
    assert_eq!(toks[0].label, b"foo".to_vec());
    assert_eq!(toks[1].marker, b'o');
    assert_eq!(toks[1].label, b"bar".to_vec());
}

#[test]
fn tokenize_drops_short_segments_keeps_order() {
    // Segments: `ab`, ``, `c`, `de` — the empty one and the one-byte
    // one are dropped, the rest keep their relative order.
    let toks = tokenize(b"Xab::c:de");
    assert_eq!(toks.len(), 2);
    assert_eq!(toks[0].marker, b'a');
    assert_eq!(toks[0].label, b"b".to_vec());
    assert_eq!(toks[1].marker, b'd');
    assert_eq!(toks[1].label, b"e".to_vec());
}

#[test]
fn tokenize_empty_line() {
    assert_eq!(tokenize(b"").len(), 0);
}

#[test]
fn tokenize_frame_marker_only() {
    assert_eq!(tokenize(b"X").len(), 0);
}

#[test]
fn color_empty_flag_is_no_color() {
    assert!(Color::new(b"").is_some());
}

#[test]
fn color_valid_hex_values() {
    assert!(Color::new(b"#000000").is_some());
    assert!(Color::new(b"#ffffff").is_some());
    assert!(Color::new(b"#1a2B3c").is_some());
    assert!(Color::new(b"#ABCDEF").is_some());
}

#[test]
fn color_rejects_bad_values() {
    assert!(Color::new(b"#12345").is_none()); // too short
    assert!(Color::new(b"#1234567").is_none()); // too long
    assert!(Color::new(b"123456#").is_none()); // `#` not leading
    assert!(Color::new(b"1234567").is_none()); // no `#`
    assert!(Color::new(b"#12345g").is_none()); // non-hex digit
    assert!(Color::new(b"#12 456").is_none()); // non-hex digit
    assert!(Color::new(b"x").is_none());
}

#[test]
fn uncolored_draw_is_identity() {
    let c = color("");
    assert_eq!(c.draw(b"anything").to_text(), b"anything".to_vec());
    assert_eq!(c.draw(b"").to_text(), b"".to_vec());
}

#[test]
fn colored_draw_wraps_in_markup() {
    let c = color("#ff0000");
    assert_eq!(c.draw(b"x").to_text(), b"%{F#ff0000}x%{F-}".to_vec());
}

#[test]
fn padded_fragment_length_uncolored() {
    // One leading and two trailing spaces around the bare label.
    let out = print_bspwm(&plain_colors(), b"Xmab");
    assert_eq!(out, b" ab  \n".to_vec());
    assert_eq!(out.len(), 1 + 2 + 2 + 1);
}

#[test]
fn padded_fragment_length_colored() {
    let mut colors = plain_colors();
    colors.monitor = color("#112233");
    let out = print_bspwm(&colors, b"Xmab");
    assert_eq!(out, b" %{F#112233}ab%{F-}  \n".to_vec());
    // The markup adds nine fixed bytes plus the seven-byte color value.
    assert_eq!(out.len(), 1 + 2 + 2 + 1 + 9 + 7);
}

#[test]
fn each_category_selects_its_color() {
    let mut colors = plain_colors();
    colors.free = color("#aabbcc");
    assert_eq!(
        print_bspwm(&colors, b"Xf1"),
        b" %{F#aabbcc}1%{F-}  \n".to_vec()
    );
    assert_eq!(print_bspwm(&colors, b"Xo1"), b" 1  \n".to_vec());

    let mut colors = plain_colors();
    colors.urgent = color("#010203");
    assert_eq!(
        print_bspwm(&colors, b"XU9"),
        b"-%{F#010203}9%{F-}- \n".to_vec()
    );

    let mut colors = plain_colors();
    colors.state = color("#0a0b0c");
    assert_eq!(
        print_bspwm(&colors, b"XTt"),
        b" %{F#0a0b0c}t%{F-}\n".to_vec()
    );
}

#[test]
fn state_fragment_has_no_trailing_space() {
    assert_eq!(print_bspwm(&plain_colors(), b"XLx"), b" x\n".to_vec());
    assert_eq!(print_bspwm(&plain_colors(), b"XGx"), b" x\n".to_vec());
}

#[test]
fn unknown_marker_contributes_nothing() {
    assert_eq!(print_bspwm(&plain_colors(), b"Xz9"), b"\n".to_vec());
    assert_eq!(print_bspwm(&plain_colors(), b"Xz9:mab"), b" ab  \n".to_vec());
}

#[test]
fn empty_line_renders_newline_only() {
    assert_eq!(print_bspwm(&plain_colors(), b""), b"\n".to_vec());
}

#[test]
fn dedup_suppresses_repeated_line() {
    let colors = plain_colors();
    let first = process_line(&colors, b"", b"Xmab");
    assert_eq!(first, Some(b" ab  \n".to_vec()));
    let second = process_line(&colors, b"Xmab", b"Xmab");
    assert_eq!(second, None);
    let third = process_line(&colors, b"Xmab", b"Xmac");
    assert_eq!(third, Some(b" ac  \n".to_vec()));
}

#[test]
fn cleanup_latch_grants_the_action_once() {
    let mut latch = CleanupLatch::new();
    assert!(latch.fire());
    assert!(!latch.fire());
    assert!(!latch.fire());
}

#[test]
fn bytes_eq_compares_contents() {
    assert!(bytes_eq(b"", b""));
    assert!(bytes_eq(b"abc", b"abc"));
    assert!(!bytes_eq(b"abc", b"abd"));
    assert!(!bytes_eq(b"abc", b"ab"));
}
