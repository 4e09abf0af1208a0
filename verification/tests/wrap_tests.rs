use filebrowser::wrap::wrap_text;

#[test]
fn short_line_passes_through_unchanged() {
    assert_eq!(wrap_text("hello", 10), vec!["hello"]);
}

#[test]
fn blank_input_yields_one_empty_row() {
    assert_eq!(wrap_text("", 10), vec![""]);
}

#[test]
fn leading_whitespace_is_preserved_across_wrap() {
    let input = "    fn main() { println!(\"hi\"); }";
    let wrapped = wrap_text(input, 16);
    assert_eq!(wrapped[0], "    fn main() { ");
    assert!(
        wrapped[0].starts_with("    "),
        "indentation must survive on the first wrapped row"
    );
}

#[test]
fn long_word_is_hard_broken() {
    let wrapped = wrap_text("supercalifragilisticexpialidocious", 10);
    assert_eq!(wrapped.len(), 4);
    assert_eq!(wrapped.concat(), "supercalifragilisticexpialidocious");
}

#[test]
fn crlf_lines_are_stripped_of_carriage_return() {
    let wrapped = wrap_text("a\r\nb", 10);
    assert_eq!(wrapped, vec!["a", "b"]);
}

#[test]
fn empty_line_in_input_produces_empty_row() {
    assert_eq!(wrap_text("a\n\nb", 10), vec!["a", "", "b"]);
}

#[test]
fn width_zero_falls_back_to_no_wrap() {
    assert_eq!(wrap_text("hello world", 0), vec!["hello world"]);
}

#[test]
fn wide_characters_wrap_at_display_width() {
    assert_eq!(wrap_text("界界界", 4), vec!["界界", "界"]);
}

#[test]
fn grapheme_clusters_are_not_split() {
    assert_eq!(
        wrap_text("e\u{301}e\u{301}", 1),
        vec!["e\u{301}", "e\u{301}"]
    );
}

#[test]
fn words_break_after_the_last_blank() {
    assert_eq!(wrap_text("aaa bbb ccc", 7), vec!["aaa ", "bbb ccc"]);
    assert_eq!(wrap_text("aaa bbb ccc", 5), vec!["aaa ", "bbb ", "ccc"]);
}

#[test]
fn wrapped_rows_give_back_the_line() {
    let line = "the quick brown fox jumps over the lazy dog";
    for width in 1..12 {
        let rows = wrap_text(line, width);
        assert_eq!(rows.concat(), line);
        for row in &rows {
            assert!(row.chars().count() <= width, "row {row:?} exceeds {width}");
        }
    }
}

#[test]
fn a_cluster_wider_than_the_budget_stands_alone() {
    assert_eq!(wrap_text("a界b", 1), vec!["a", "界", "b"]);
}

#[test]
fn only_a_trailing_carriage_return_is_dropped() {
    assert_eq!(wrap_text("a\rb\r\r\n", 10), vec!["a\rb\r", ""]);
}

#[test]
fn trailing_newline_yields_a_final_empty_row() {
    assert_eq!(wrap_text("abc\n", 10), vec!["abc", ""]);
}
