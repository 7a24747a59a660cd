use aasvg::grid::Grid;
use aasvg::normalize::{equalize_line_lengths, hide_markers, remove_leading_space, unhide_markers};

#[test]
fn test_grid_creation() {
    let grid = Grid::new("+--+\n|  |\n+--+");
    assert_eq!(grid.width, 4);
    assert_eq!(grid.height, 3);
    assert_eq!(grid.get(0, 0), '+');
    assert_eq!(grid.get(1, 0), '-');
    assert_eq!(grid.get(0, 1), '|');
    assert_eq!(grid.get(1, 1), ' ');
}

#[test]
fn test_grid_out_of_bounds() {
    let grid = Grid::new("AB\nCD");
    assert_eq!(grid.get(-1, 0), ' ');
    assert_eq!(grid.get(0, -1), ' ');
    assert_eq!(grid.get(10, 0), ' ');
    assert_eq!(grid.get(0, 10), ' ');
}

#[test]
fn test_grid_used_tracking() {
    let mut grid = Grid::new("AB");
    assert!(!grid.is_used(0, 0));
    grid.set_used(0, 0);
    assert!(grid.is_used(0, 0));
    assert!(!grid.is_used(1, 0));
}

#[test]
fn test_remove_leading_space() {
    let input = "  abc\n  def";
    let result = remove_leading_space(input);
    assert_eq!(result, "abc\ndef");
}

#[test]
fn test_equalize_line_lengths() {
    let input = "ab\na";
    let result = equalize_line_lengths(input);
    assert_eq!(result, "ab\na ");
}

#[test]
fn test_text_extraction() {
    let mut grid = Grid::new("Test String");
    let text = grid.extract_text(0, 0, 2);
    assert_eq!(text, "Test String");
}

#[test]
fn lookup_is_total_at_extremes() {
    let grid = Grid::new("AB\nCD");
    assert_eq!(grid.get(i32::MIN, i32::MIN), ' ');
    assert_eq!(grid.get(i32::MAX, 0), ' ');
    assert_eq!(grid.get(1, i32::MAX), ' ');
    assert_eq!(grid.get(2, 1), ' ');
    assert_eq!(grid.get(1, 1), 'D');
}

#[test]
fn set_used_out_of_range_is_ignored() {
    let mut grid = Grid::new("AB");
    grid.set_used(-1, 0);
    grid.set_used(5, 0);
    grid.set_used(0, 3);
    assert!(!grid.is_used(-1, 0));
    assert!(!grid.is_used(5, 0));
    assert!(!grid.is_used(0, 0));
    assert!(!grid.is_used(1, 0));
    grid.set_used(1, 0);
    grid.set_used(1, 0);
    assert!(grid.is_used(1, 0));
}

#[test]
fn empty_input_gives_empty_grid() {
    let grid = Grid::new("");
    assert_eq!(grid.width, 0);
    assert_eq!(grid.height, 0);
    assert_eq!(grid.get(0, 0), ' ');
}

#[test]
fn indent_ignores_blank_lines() {
    assert_eq!(remove_leading_space("   a\n\n    b"), "a\n\n b");
    assert_eq!(remove_leading_space("a\n b"), "a\n b");
}

#[test]
fn grid_strips_indent_and_pads() {
    let grid = Grid::new("   ab\n    c\n");
    assert_eq!(grid.width, 2);
    assert_eq!(grid.height, 2);
    assert_eq!(grid.get(0, 0), 'a');
    assert_eq!(grid.get(1, 1), 'c');
    assert_eq!(grid.get(0, 1), ' ');
}

#[test]
fn width_counts_characters_not_bytes() {
    let grid = Grid::new("──\n|");
    assert_eq!(grid.width, 2);
    assert_eq!(grid.get(1, 1), ' ');
}

#[test]
fn markers_in_words_are_hidden_and_restored() {
    let hidden = hide_markers("over v o-");
    assert_eq!(hidden, "\u{E000}\u{E001}er v o-");
    assert_eq!(unhide_markers(&hidden), "over v o-");
    assert_eq!(hide_markers("Vo"), "\u{E002}\u{E000}");
}

#[test]
fn text_stops_at_blank_run() {
    let mut grid = Grid::new("ab  cd");
    assert_eq!(grid.extract_text(0, 0, 2), "ab");
    assert!(grid.is_used(0, 0));
    assert!(grid.is_used(1, 0));
    assert!(!grid.is_used(4, 0));
    assert_eq!(grid.text_start(2, 0, 2), Some(4));
    assert_eq!(grid.extract_text(4, 0, 2), "cd");
    assert_eq!(grid.text_start(0, 0, 2), None);
}

#[test]
fn text_without_threshold_runs_to_edge() {
    let mut grid = Grid::new("ab    cd   ");
    assert_eq!(grid.extract_text(0, 0, 0), "ab    cd");
}

#[test]
fn text_stops_at_consumed_cell() {
    let mut grid = Grid::new("abcd");
    grid.set_used(2, 0);
    assert_eq!(grid.extract_text(0, 0, 2), "ab");
    assert!(!grid.is_used(3, 0));
}

#[test]
fn line_checks_with_predicates() {
    let grid = Grid::new(".\n|\n|\n \n-+-");
    assert!(grid.is_v_line_at_with(0, 1, aasvg::chars::is_solid_v_line));
    assert!(grid.is_v_line_at_with(0, 2, aasvg::chars::is_solid_v_line));
    assert!(!grid.is_v_line_at_with(0, 3, aasvg::chars::is_solid_v_line));
    assert!(grid.is_h_line_at_with(0, 4, aasvg::chars::is_solid_h_line));
    assert!(!grid.is_h_line_at_with(0, 0, aasvg::chars::is_solid_h_line));
    assert!(grid.is_solid_v_line_at(0, 1));
    assert!(grid.is_solid_h_line_at(1, 4));
    assert!(grid.is_any_h_line_at(2, 4));
    assert!(!grid.is_double_h_line_at(0, 1));
}

#[test]
fn crlf_line_endings_are_dropped() {
    let grid = Grid::new("ab\r\ncd\r\n");
    assert_eq!(grid.height, 2);
    assert_eq!(grid.width, 2);
    assert_eq!(grid.get(1, 0), 'b');
    assert_eq!(grid.get(1, 1), 'd');
}

#[test]
fn preprocess_runs_all_three_steps() {
    assert_eq!(
        aasvg::normalize::preprocess("  over\n    -o\n  v"),
        "\u{E000}\u{E001}er\n  -o\nv   "
    );
}

#[test]
fn only_spaces_count_as_indent() {
    assert_eq!(remove_leading_space("\tab\n\tc"), "\tab\n\tc");
}

#[test]
fn every_input_line_becomes_a_row() {
    let grid = Grid::new("\n");
    assert_eq!(grid.height, 1);
    assert_eq!(grid.width, 0);
    let indented = Grid::new("  a\n\n");
    let plain = Grid::new("a\n\n");
    assert_eq!(indented.height, 2);
    assert_eq!(plain.height, 2);
    assert_eq!(indented.width, 1);
    assert_eq!(indented.get(0, 0), 'a');
    assert_eq!(indented.get(0, 1), ' ');
}

#[test]
fn grid_hides_markers_per_line() {
    let grid = Grid::new("  over\n  v");
    assert_eq!(grid.get(0, 0), '\u{E000}');
    assert_eq!(grid.get(1, 0), '\u{E001}');
    assert_eq!(grid.get(0, 1), 'v');
    assert_eq!(grid.get(1, 1), ' ');
}

#[test]
fn normalization_keeps_a_last_empty_line() {
    assert_eq!(remove_leading_space("  a\n\n"), "a\n\n");
    assert_eq!(equalize_line_lengths("a\n\n"), "a\n ");
    assert_eq!(equalize_line_lengths("\n\n"), "\n\n");
    assert_eq!(hide_markers("a\n\n"), "a\n\n");
}

#[test]
fn hiding_keeps_every_character() {
    assert_eq!(hide_markers("vo\r\nov\n"), "\u{E001}\u{E000}\r\n\u{E000}\u{E001}\n");
    assert_eq!(hide_markers("o\nv"), "o\nv");
}

#[test]
fn indent_removal_keeps_carriage_returns_inside_lines() {
    assert_eq!(remove_leading_space("  a\r\r\n  b"), "a\r\r\nb");
}
