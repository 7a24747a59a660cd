use aasvg::decoration::{DecorationSet, DecorationType, Heading};
use aasvg::finder::{find_decorations, find_paths};
use aasvg::grid::Grid;
use aasvg::path::{PathSet, Pos};

fn scan(input: &str) -> (Grid, PathSet, DecorationSet) {
    let mut grid = Grid::new(input);
    let mut paths = PathSet::new();
    let mut decorations = DecorationSet::new();
    find_paths(&mut grid, &mut paths);
    find_decorations(&mut grid, &paths, &mut decorations);
    (grid, paths, decorations)
}

fn pos(x: i64, y: i64) -> Pos {
    Pos { x, y }
}

#[test]
fn test_find_horizontal_line() {
    let mut grid = Grid::new("---");
    let mut paths = PathSet::new();
    find_paths(&mut grid, &mut paths);
    assert_eq!(paths.len(), 1);
}

#[test]
fn test_find_vertical_line() {
    let mut grid = Grid::new("|\n|\n|");
    let mut paths = PathSet::new();
    find_paths(&mut grid, &mut paths);
    assert_eq!(paths.len(), 1);
}

#[test]
fn test_find_box() {
    let mut grid = Grid::new("+--+\n|  |\n+--+");
    let mut paths = PathSet::new();
    find_paths(&mut grid, &mut paths);
    assert!(paths.len() >= 4);
}

#[test]
fn test_find_arrow() {
    let mut grid = Grid::new("-->");
    let mut paths = PathSet::new();
    let mut decorations = DecorationSet::new();
    find_paths(&mut grid, &mut paths);
    find_decorations(&mut grid, &paths, &mut decorations);
    assert_eq!(decorations.len(), 1);
}

#[test]
fn test_find_diagonal() {
    let mut grid = Grid::new("\\\n \\");
    let mut paths = PathSet::new();
    find_paths(&mut grid, &mut paths);
    assert!(paths.len() >= 1);
}

#[test]
fn box_paths_are_exact() {
    let (grid, paths, _) = scan("+--+\n|  |\n+--+");
    assert_eq!(paths.len(), 4);
    // Columns first: both sides run from the top corner to the bottom one.
    let left = paths.get(0);
    assert_eq!((left.start, left.end), (pos(0, 0), pos(0, 4)));
    let right = paths.get(1);
    assert_eq!((right.start, right.end), (pos(6, 0), pos(6, 4)));
    // Then rows: each edge passes through its corners.
    let top = paths.get(2);
    assert_eq!((top.start, top.end), (pos(0, 0), pos(6, 0)));
    let bottom = paths.get(3);
    assert_eq!((bottom.start, bottom.end), (pos(0, 4), pos(6, 4)));
    assert!(grid.is_used(0, 0));
    assert!(grid.is_used(1, 0));
    assert!(!grid.is_used(1, 1));
}

#[test]
fn lone_solid_glyphs_make_no_path() {
    assert_eq!(scan("-").1.len(), 0);
    assert_eq!(scan("|").1.len(), 0);
    assert_eq!(scan("~").1.len(), 0);
    assert_eq!(scan("_").1.len(), 0);
    assert_eq!(scan("/").1.len(), 0);
    assert_eq!(scan("\\").1.len(), 0);
}

#[test]
fn lone_double_glyphs_make_one_path() {
    let (_, paths, _) = scan("=");
    assert_eq!(paths.len(), 1);
    assert!(paths.get(0).double);
    assert_eq!(paths.get(0).start, pos(0, 0));
    assert_eq!(paths.get(0).end, pos(0, 0));
    let (_, paths, _) = scan("║");
    assert_eq!(paths.len(), 1);
    assert!(paths.get(0).double);
}

#[test]
fn vertical_line_extends_onto_top_vertex() {
    let (grid, paths, _) = scan(".\n|\n|");
    assert_eq!(paths.len(), 1);
    assert_eq!(paths.get(0).start, pos(0, 0));
    assert_eq!(paths.get(0).end, pos(0, 4));
    assert!(!grid.is_used(0, 0));
}

#[test]
fn vertical_line_extends_onto_bottom_vertex() {
    let (_, paths, _) = scan("|\n|\n'");
    assert_eq!(paths.len(), 1);
    assert_eq!(paths.get(0).start, pos(0, 0));
    assert_eq!(paths.get(0).end, pos(0, 4));
}

#[test]
fn right_arrow_points_right() {
    let (grid, paths, decorations) = scan("-->");
    assert_eq!(paths.len(), 1);
    assert_eq!(decorations.len(), 1);
    let d = decorations.get(0);
    assert_eq!(d.kind, DecorationType::Arrow);
    assert_eq!(d.angle_degrees(), Some(0));
    assert_eq!(d.pos, pos(4, 0));
    assert!(grid.is_used(2, 0));
}

#[test]
fn left_arrow_points_left() {
    let (_, paths, decorations) = scan("<--");
    assert_eq!(paths.len(), 1);
    assert_eq!(decorations.len(), 1);
    assert_eq!(decorations.get(0).angle_degrees(), Some(180));
}

#[test]
fn vertical_arrows() {
    let (_, _, decorations) = scan("^\n|\n|");
    assert_eq!(decorations.len(), 1);
    assert_eq!(decorations.get(0).angle_degrees(), Some(270));
    let (_, _, decorations) = scan("|\n|\nV");
    assert_eq!(decorations.len(), 1);
    assert_eq!(decorations.get(0).angle_degrees(), Some(90));
}

#[test]
fn diagonal_arrows() {
    let (_, _, decorations) = scan("  >\n /\n/");
    assert_eq!(decorations.len(), 1);
    assert_eq!(decorations.get(0).heading, Heading::UpRight);
    assert_eq!(decorations.get(0).angle_degrees(), None);
    let (_, _, decorations) = scan("\\\n \\\n  >");
    assert_eq!(decorations.len(), 1);
    assert_eq!(decorations.get(0).heading, Heading::DownRight);
    let (_, _, decorations) = scan("  /\n /\n<");
    assert_eq!(decorations.len(), 1);
    assert_eq!(decorations.get(0).heading, Heading::DownLeft);
    let (_, _, decorations) = scan("<\n \\\n  \\");
    assert_eq!(decorations.len(), 1);
    assert_eq!(decorations.get(0).heading, Heading::UpLeft);
}

#[test]
fn stray_arrow_glyph_stays_text() {
    let (grid, _, decorations) = scan(">");
    assert_eq!(decorations.len(), 0);
    assert!(!grid.is_used(0, 0));
}

#[test]
fn forward_diagonal_runs_bottom_left_to_top_right() {
    let (_, paths, _) = scan(" /\n/");
    assert_eq!(paths.len(), 1);
    assert_eq!(paths.get(0).start, pos(0, 2));
    assert_eq!(paths.get(0).end, pos(2, 0));
    let (_, paths, _) = scan("  ╱\n ╱\n╱");
    assert_eq!(paths.len(), 1);
    assert_eq!(paths.get(0).start, pos(0, 4));
    assert_eq!(paths.get(0).end, pos(4, 0));
}

#[test]
fn back_diagonal_runs_top_left_to_bottom_right() {
    let (_, paths, _) = scan("\\\n \\");
    assert_eq!(paths.len(), 1);
    assert_eq!(paths.get(0).start, pos(0, 0));
    assert_eq!(paths.get(0).end, pos(2, 2));
}

#[test]
fn curved_corners() {
    let (grid, paths, _) = scan("-.\n |\n |");
    // The vertical run, then the corner curve; the lone dash makes no path.
    assert_eq!(paths.len(), 2);
    let corner = paths.get(1);
    assert!(corner.is_curved());
    assert_eq!(corner.start, pos(1, 0));
    assert_eq!(corner.end, pos(2, 1));
    assert_eq!(corner.ctrl, Some((pos(2, 0), pos(2, 0))));
    assert!(grid.is_used(1, 0));
}

#[test]
fn corner_with_both_sides_makes_two_curves() {
    let (_, paths, _) = scan("  |\n  |\n--'--");
    let curves: Vec<_> = (0..paths.len()).map(|i| paths.get(i)).filter(|p| p.is_curved()).collect();
    assert_eq!(curves.len(), 2);
    assert_eq!(curves[0].start, pos(3, 4));
    assert_eq!(curves[1].start, pos(5, 4));
    assert_eq!(curves[0].end, pos(4, 3));
}

#[test]
fn underscores_sit_half_a_cell_low() {
    let (_, paths, _) = scan("___");
    assert_eq!(paths.len(), 1);
    assert_eq!(paths.get(0).start, pos(0, 1));
    assert_eq!(paths.get(0).end, pos(4, 1));
}

#[test]
fn squiggle_runs() {
    let (_, paths, _) = scan("~~~~~");
    assert_eq!(paths.len(), 1);
    assert!(paths.get(0).squiggle);
}

#[test]
fn horizontal_run_crosses_junction() {
    let (_, paths, _) = scan("-+-");
    assert_eq!(paths.len(), 1);
    assert_eq!(paths.get(0).start, pos(0, 0));
    assert_eq!(paths.get(0).end, pos(4, 0));
}

#[test]
fn points_need_a_line_next_to_them() {
    let (grid, _, decorations) = scan("o");
    assert_eq!(decorations.len(), 0);
    assert!(!grid.is_used(0, 0));
    let (grid, _, decorations) = scan("-o");
    assert_eq!(decorations.len(), 1);
    assert_eq!(decorations.get(0).kind, DecorationType::OpenPoint);
    assert!(grid.is_used(1, 0));
    let (_, _, decorations) = scan("*\n|");
    assert_eq!(decorations.len(), 1);
    assert_eq!(decorations.get(0).kind, DecorationType::ClosedPoint);
}

#[test]
fn unicode_points_always_count() {
    let (_, _, decorations) = scan("◌ ○ ◍ ● ⊕");
    assert_eq!(decorations.len(), 5);
    assert_eq!(decorations.get(0).kind, DecorationType::DottedPoint);
    assert_eq!(decorations.get(1).kind, DecorationType::OpenPoint);
    assert_eq!(decorations.get(2).kind, DecorationType::ShadedPoint);
    assert_eq!(decorations.get(3).kind, DecorationType::ClosedPoint);
    assert_eq!(decorations.get(4).kind, DecorationType::XorPoint);
}

#[test]
fn fills_and_triangles() {
    let (grid, _, decorations) = scan("▁▂▃█ ◢◣◤◥");
    assert_eq!(decorations.len(), 8);
    assert_eq!(decorations.get(0).kind, DecorationType::Gray(64));
    assert_eq!(decorations.get(3).kind, DecorationType::Gray(255));
    assert_eq!(decorations.get(4).kind, DecorationType::Triangle);
    assert_eq!(decorations.get(4).angle_degrees(), Some(0));
    assert_eq!(decorations.get(5).angle_degrees(), Some(90));
    assert_eq!(decorations.get(6).angle_degrees(), Some(180));
    assert_eq!(decorations.get(7).angle_degrees(), Some(270));
    assert!(grid.is_used(5, 0));
}

#[test]
fn jump_needs_a_vertical_path_through_it() {
    let (grid, _, decorations) = scan(" |\n-)-\n |");
    assert_eq!(decorations.len(), 0);
    assert!(!grid.is_used(1, 1));
}

#[test]
fn lone_plus_is_not_consumed() {
    let mut grid = Grid::new("+");
    let mut paths = PathSet::new();
    find_paths(&mut grid, &mut paths);
    assert_eq!(paths.len(), 0);
    assert!(!grid.is_used(0, 0));
}

#[test]
fn short_runs_leave_cells_unconsumed() {
    let (grid, paths, _) = scan("- | ~ / _");
    assert_eq!(paths.len(), 0);
    for x in 0..9 {
        assert!(!grid.is_used(x, 0));
    }
    let (grid, paths, _) = scan("=");
    assert_eq!(paths.len(), 1);
    assert!(grid.is_used(0, 0));
}

#[test]
fn diagonal_runs_pass_through_junctions() {
    let (_, paths, _) = scan("\\\n +\n  \\");
    assert_eq!(paths.len(), 1);
    assert_eq!(paths.get(0).start, pos(0, 0));
    assert_eq!(paths.get(0).end, pos(4, 4));
    let (_, paths, _) = scan("+\n \\");
    assert_eq!(paths.len(), 0);
}
