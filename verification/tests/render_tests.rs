use miri_the_world::color::Color;
use miri_the_world::htmldoc::{render, render_crate};
use miri_the_world::renderer::Renderer;
use miri_the_world::styles::Styles;

#[test]
fn plain_text_renders_verbatim() {
    let (css, html) = render(String::new(), "hello\n");
    assert!(html.starts_with("<span>hello"));
    let first_line = html.trim_start_matches("<span>").lines().next().unwrap();
    assert_eq!(first_line.trim_end(), "hello");
    assert_eq!(css, "");
}

#[test]
fn escapes_angle_brackets() {
    let (_css, html) = render(String::new(), "a<b>c\n");
    assert!(html.contains("a&lt"));
    assert!(html.contains("&gtc"));
}

#[test]
fn colored_text_gets_class_a() {
    let (css, html) = render(String::new(), "\x1b[31mred\x1b[0m\n");
    assert!(html.contains("<span class='a'>red"));
    assert_eq!(html.matches("class='a'").count(), 1);
    assert!(css.contains(".a{color:#a00;font-weight:normal}"));
}

#[test]
fn style_roundtrip_single_cell() {
    let (css, html) = render(String::new(), "\x1b[31mX\x1b[0m");
    assert!(html.contains("<span class='a'>X"));
    assert_eq!(html.matches("class='").count(), 1);
    assert_eq!(css.lines().count(), 1);
}

#[test]
fn bold_and_color_are_distinct_styles() {
    let (css, html) = render(String::new(), "\x1b[31ma\x1b[1mb\x1b[0m\n");
    assert!(html.contains("class='a'"));
    assert!(html.contains("class='b'"));
    assert!(css.contains("font-weight:bold"));
}

#[test]
fn scroll_out_keeps_rows_in_order() {
    let mut r = Renderer::new(String::new());
    let mut input = String::new();
    for _ in 0..69 {
        input.push('\n');
    }
    input.push_str("tail\n");
    r.feed_str(&input);
    r.emit_html();
    let html = r.take_output();
    // every fed row comes out exactly once, in order, with the tail row last
    // among the non-blank ones
    assert_eq!(html.matches("tail").count(), 1);
    let lines: Vec<&str> = html.lines().collect();
    let tail_idx = lines.iter().position(|l| l.contains("tail")).unwrap();
    for (i, line) in lines.iter().enumerate() {
        if i != tail_idx && i + 1 < lines.len() && i > 0 {
            assert!(!line.contains("tail"));
        }
    }
    // 69 linefeeds then the tail line and its linefeed: 71 rows in all
    assert_eq!(html.matches('\n').count(), 71);
}

#[test]
fn style_dictionary_names_do_not_depend_on_order() {
    let mut s1 = Styles::new();
    let n1a = s1.with(Color::red(), false);
    let n1b = s1.with(Color::blue(), true);
    let mut s2 = Styles::new();
    let n2a = s2.with(Color::blue(), true);
    let n2b = s2.with(Color::red(), false);
    let mut set1 = vec![n1a, n1b];
    let mut set2 = vec![n2a, n2b];
    set1.sort();
    set2.sort();
    assert_eq!(set1, set2);
    assert_eq!(set1, vec!["a".to_string(), "b".to_string()]);
}

#[test]
fn style_dictionary_is_stable_per_instance() {
    let mut s = Styles::new();
    let first = s.with(Color::red(), false);
    let _ = s.with(Color::green(), false);
    let again = s.with(Color::red(), false);
    assert_eq!(first, again);
}

#[test]
fn base26_class_names() {
    let mut s = Styles::new();
    let mut names = Vec::new();
    for i in 0..28u16 {
        names.push(s.with(Color::parse_8bit(i).unwrap(), false));
    }
    assert_eq!(names[0], "a");
    assert_eq!(names[25], "z");
    assert_eq!(names[26], "ab");
    assert_eq!(names[27], "bb");
}

#[test]
fn palette_table_entries() {
    assert_eq!(Color::black().as_str(), "#000");
    assert_eq!(Color::red().as_str(), "#a00");
    assert_eq!(Color::bright_white().as_str(), "#fff");
    assert_eq!(Color::parse_8bit(196).unwrap().as_str(), "#f00");
    assert_eq!(Color::parse_8bit(232).unwrap().as_str(), "#080808");
}

#[test]
fn rgb_colors_format_in_rgb_order() {
    let c = Color::parse_rgb(255, 0, 16).unwrap();
    assert_eq!(c.as_str(), "#ff0010");
    assert!(Color::parse_rgb(256, 0, 0).is_none());
    assert!(Color::parse_8bit(256).is_none());
}

#[test]
fn extended_colors_set_foreground() {
    // 38;2;r;g;b must set the foreground, not the background
    let (css, html) = render(String::new(), "\x1b[38;2;1;2;3mx\x1b[0m\n");
    assert!(html.contains("class='a'"));
    assert!(css.contains(".a{color:#010203;font-weight:normal}"));
}

#[test]
fn cursor_moves_and_erase() {
    let (_css, html) = render(String::new(), "abcdef\rxy\n");
    assert!(html.contains("xycdef"));
    let (_css, html) = render(String::new(), "abc\x08\x08Z\n");
    assert!(html.contains("aZc"));
    let (_css, html) = render(String::new(), "tab\there\n");
    assert!(html.contains("tab    here"));
}

#[test]
fn document_shell_and_anchor() {
    let doc = render_crate(
        "bar",
        "0.1.0",
        "error: Undefined Behavior: out-of-bounds pointer arithmetic\n",
    );
    assert!(doc.starts_with("<!DOCTYPE html>"));
    assert!(doc.contains("<title>bar 0.1.0</title>"));
    assert!(doc.contains("error: <span id=\"ub\"></span>Undefined Behavior:"));
    assert!(doc.ends_with("</pre></body></html>"));
}

#[test]
fn anchor_absent_without_markers() {
    let doc = render_crate("ok", "1.0.0", "all fine\n");
    assert!(!doc.contains("id=\"ub\""));
}

#[test]
fn absolute_move_and_erase_in_line() {
    // move back to row 1, column 3 (1-based) and truncate after the cursor
    let (_css, html) = render(String::new(), "abcdef\x1b[1;3H\x1b[0Kxy\n");
    assert!(html.contains("abxy"));
    assert!(!html.contains("abcdef"));
}

#[test]
fn home_move_stays_on_the_top_row() {
    // ESC[1;1H from anywhere targets the absolute top-left corner
    let (_css, html) = render(String::new(), "x\nyz\x1b[1;1HA\n");
    let first_line = html.trim_start_matches("<span>").lines().next().unwrap();
    assert_eq!(first_line.trim_end(), "A");
    assert!(html.contains("yz"));
}

#[test]
fn cursor_right_moves_by_the_given_count() {
    // a parameterless CSI C moves by one cell, CSI 2 C by two
    let (_css, html) = render(String::new(), "ab\x1b[Cc\n");
    assert!(html.contains("ab c"));
    let (_css, html) = render(String::new(), "ab\x1b[2Cc\n");
    assert!(html.contains("ab  c"));
}

#[test]
fn cursor_up_defaults_to_one_row() {
    // a parameterless CSI A moves up one row
    let (_css, html) = render(String::new(), "first\nsecond\x1b[A\rX\n");
    let first_line = html.trim_start_matches("<span>").lines().next().unwrap();
    assert_eq!(first_line.trim_end(), "Xirst");
    assert!(html.contains("second"));
}

#[test]
fn malformed_sequences_are_dropped_quietly() {
    // the home move rewinds the cursor, so later text overwrites the start
    // of the row; the unrecognized sequences themselves leave no trace
    let messy = "ok\x1b[9999999999m\x1b[;;;H\x1b[?25l\x1b(Bmore\x1b]junk\x07text\n";
    let (_css, html) = render(String::new(), messy);
    assert!(html.contains("morejunktext"));
    assert!(!html.contains("\u{1b}"));
}

#[test]
fn eight_bit_extended_color() {
    let (css, html) = render(String::new(), "\x1b[38;5;196mX\x1b[0m\n");
    assert!(html.contains("class='a'"));
    assert!(css.contains(".a{color:#f00;font-weight:normal}"));
}
