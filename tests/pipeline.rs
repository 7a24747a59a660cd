use aasvg::decoration::DecorationType;
use aasvg::recognize;
use aasvg::text::text_runs;

#[test]
fn word_with_marker_letters_stays_text() {
    let mut d = recognize("over");
    assert_eq!(d.decorations.len(), 0);
    let runs = text_runs(&mut d.grid, 2);
    assert_eq!(runs.len(), 1);
    assert_eq!(runs[0].text, "over");
    assert_eq!((runs[0].x, runs[0].y), (0, 0));
}

#[test]
fn down_arrow_under_a_line_is_no_text() {
    let mut d = recognize("|\n|\nv");
    assert_eq!(d.decorations.len(), 1);
    assert_eq!(d.decorations.get(0).kind, DecorationType::Arrow);
    assert_eq!(d.decorations.get(0).angle_degrees(), Some(90));
    let runs = text_runs(&mut d.grid, 2);
    assert_eq!(runs.len(), 0);
}

#[test]
fn lone_point_letter_stays_text() {
    let mut d = recognize("o");
    assert_eq!(d.decorations.len(), 0);
    let runs = text_runs(&mut d.grid, 2);
    assert_eq!(runs.len(), 1);
    assert_eq!(runs[0].text, "o");
}

#[test]
fn point_next_to_line_is_consumed() {
    let mut d = recognize("-o");
    assert_eq!(d.decorations.len(), 1);
    assert_eq!(d.decorations.get(0).kind, DecorationType::OpenPoint);
    assert!(d.grid.is_used(1, 0));
    // The lone dash makes no path, so it stays plain text.
    assert!(!d.grid.is_used(0, 0));
    let runs = text_runs(&mut d.grid, 2);
    assert_eq!(runs.len(), 1);
    assert_eq!(runs[0].text, "-");
}

#[test]
fn labelled_box_with_arrow() {
    let mut d = recognize("\n+--------+\n| Hello! |---->\n+--------+\n");
    assert_eq!(d.decorations.len(), 1);
    assert_eq!(d.decorations.get(0).angle_degrees(), Some(0));
    let runs = text_runs(&mut d.grid, 2);
    assert_eq!(runs.len(), 1);
    assert_eq!(runs[0].text, "Hello!");
    assert_eq!((runs[0].x, runs[0].y), (2, 2));
}

#[test]
fn text_runs_split_on_blank_threshold() {
    let mut d = recognize("Hello World  again");
    let runs = text_runs(&mut d.grid, 2);
    assert_eq!(runs.len(), 2);
    assert_eq!(runs[0].text, "Hello World");
    assert_eq!(runs[1].text, "again");
    assert_eq!(runs[1].x, 13);
}

#[test]
fn whitespace_only_input() {
    let mut d = recognize("   \n   \n   ");
    assert_eq!(d.paths.len(), 0);
    assert_eq!(d.decorations.len(), 0);
    assert_eq!(text_runs(&mut d.grid, 2).len(), 0);
}

#[test]
fn unicode_text_is_kept() {
    let mut d = recognize("日本語");
    let runs = text_runs(&mut d.grid, 2);
    assert_eq!(runs.len(), 1);
    assert_eq!(runs[0].text, "日本語");
}

#[test]
fn no_text_on_claimed_cells() {
    let (d, runs) = aasvg::recognize_with_text("+--+ ok\n|AB|-->\n+--+", 2);
    assert_eq!(d.paths.len(), 5);
    assert_eq!(d.decorations.len(), 1);
    let texts: Vec<(i32, i32, String)> = runs.iter().map(|r| (r.x, r.y, r.text.clone())).collect();
    assert_eq!(
        texts,
        vec![(5, 0, "ok".to_string()), (1, 1, "AB".to_string())]
    );
}

#[test]
fn text_runs_follow_rows_and_restore_markers() {
    let mut d = recognize("move  v\nto   over");
    let runs = text_runs(&mut d.grid, 2);
    let texts: Vec<(i32, i32, String)> = runs.iter().map(|r| (r.x, r.y, r.text.clone())).collect();
    assert_eq!(
        texts,
        vec![
            (0, 0, "move".to_string()),
            (6, 0, "v".to_string()),
            (0, 1, "to".to_string()),
            (5, 1, "over".to_string()),
        ]
    );
    for y in 0..2 {
        for x in 0..9 {
            if d.grid.get(x, y) != ' ' {
                assert!(d.grid.is_used(x, y));
            }
        }
    }
}

#[test]
fn text_after_decoration_is_split() {
    let mut d = recognize("--> go");
    let runs = text_runs(&mut d.grid, 0);
    assert_eq!(runs.len(), 1);
    assert_eq!(runs[0].text, "go");
    assert_eq!(runs[0].x, 4);
}

#[test]
fn lone_junction_stays_text() {
    let mut d = recognize("+");
    assert_eq!(d.paths.len(), 0);
    assert!(!d.grid.is_used(0, 0));
    let runs = text_runs(&mut d.grid, 2);
    assert_eq!(runs.len(), 1);
    assert_eq!(runs[0].text, "+");
}
