//! The recognition engine: an ordered list of scan passes over the grid.
//!
//! Each pass appends what it recognises and marks consumed the cells it
//! attributes, sharing one exclusively borrowed grid with the passes after it.
use vstd::prelude::*;

use crate::chars::{
    gray_char, gray_level_of, is_gray, is_jump, is_tri, jump_char, tri_angle_of, tri_char,
    is_solid_h_line, solid_h_char, back_diag_char, bottom_vertex_char, forward_diag_char, is_bottom_vertex, is_solid_b_line,
    is_solid_d_line, is_solid_v_line, is_top_vertex, is_vertex, solid_v_char, top_vertex_char,
    vertex_char,
};
use crate::grid::{char_in, mark_in, Grid, MAX_DIM};
use crate::decoration::{deco_at, heading_of_degrees, Decoration, DecorationSet, DecorationType, Heading};
use crate::path::{any_answers, cell_offset, cell_pos, curve_path, straight, Path, PathSet, Pos, Query};

verus! {

// ---------------------------------------------------------------------------
// Straight runs
// ---------------------------------------------------------------------------

/// The families of straight runs, one per path pass.
#[derive(Clone, Copy, Debug, PartialEq, Eq, Structural)]
pub enum LineKind {
    SolidVertical,
    DoubleVertical,
    SolidHorizontal,
    Squiggle,
    DoubleHorizontal,
    BackDiagonal,
    ForwardDiagonal,
    Underscore,
}

/// A glyph that can open a run of kind `k`.
pub open spec fn starts_run(k: LineKind, c: char) -> bool {
    match k {
        LineKind::SolidVertical => solid_v_char(c),
        LineKind::DoubleVertical => c == '║',
        LineKind::SolidHorizontal => c == '-' || c == '─',
        LineKind::Squiggle => c == '~',
        LineKind::DoubleHorizontal => c == '=' || c == '═',
        LineKind::BackDiagonal => c == '\\' || c == '╲',
        LineKind::ForwardDiagonal => c == '/' || c == '╱',
        LineKind::Underscore => c == '_',
    }
}

/// A glyph that keeps a run of kind `k` going: solid horizontal and
/// diagonal runs also pass through the junction `+`.
pub open spec fn continues_run(k: LineKind, c: char) -> bool {
    match k {
        LineKind::SolidHorizontal => c == '-' || c == '─' || c == '+',
        LineKind::BackDiagonal => back_diag_char(c),
        LineKind::ForwardDiagonal => forward_diag_char(c),
        _ => starts_run(k, c),
    }
}

/// The shortest run of kind `k` that becomes a path.
pub open spec fn min_run(k: LineKind) -> int {
    match k {
        LineKind::DoubleVertical | LineKind::DoubleHorizontal => 1,
        _ => 2,
    }
}

fn min_run_exec(k: LineKind) -> (r: i32)
    ensures
        r == min_run(k),
{
    match k {
        LineKind::DoubleVertical | LineKind::DoubleHorizontal => 1,
        _ => 2,
    }
}

fn starts_run_exec(k: LineKind, c: char) -> (r: bool)
    ensures
        r == starts_run(k, c),
{
    match k {
        LineKind::SolidVertical => is_solid_v_line(c),
        LineKind::DoubleVertical => c == '║',
        LineKind::SolidHorizontal => c == '-' || c == '─',
        LineKind::Squiggle => c == '~',
        LineKind::DoubleHorizontal => c == '=' || c == '═',
        LineKind::BackDiagonal => c == '\\' || c == '╲',
        LineKind::ForwardDiagonal => c == '/' || c == '╱',
        LineKind::Underscore => c == '_',
    }
}

fn continues_run_exec(k: LineKind, c: char) -> (r: bool)
    ensures
        r == continues_run(k, c),
{
    match k {
        LineKind::SolidHorizontal => c == '-' || c == '─' || c == '+',
        LineKind::BackDiagonal => is_solid_b_line(c),
        LineKind::ForwardDiagonal => is_solid_d_line(c),
        _ => starts_run_exec(k, c),
    }
}

/// The path made from a run of kind `k` whose first and last cells are
/// `(ax, ay)` and `(bx, by)` in scan order.
pub open spec fn run_path(rows: Seq<Seq<char>>, k: LineKind, ax: int, ay: int, bx: int, by: int) -> Path {
    match k {
        LineKind::SolidVertical => {
            let top = if top_vertex_char(char_in(rows, ax, ay - 1)) {
                ay - 1
            } else {
                ay
            };
            let bottom = if bottom_vertex_char(char_in(rows, bx, by + 1)) {
                by + 1
            } else {
                by
            };
            straight(cell_pos(ax, top), cell_pos(bx, bottom))
        },
        LineKind::SolidHorizontal => {
            let left = if vertex_char(char_in(rows, ax - 1, ay)) {
                ax - 1
            } else {
                ax
            };
            let right = if vertex_char(char_in(rows, bx + 1, by)) {
                bx + 1
            } else {
                bx
            };
            straight(cell_pos(left, ay), cell_pos(right, by))
        },
        LineKind::DoubleVertical | LineKind::DoubleHorizontal => Path {
            double: true,
            ..straight(cell_pos(ax, ay), cell_pos(bx, by))
        },
        LineKind::Squiggle => Path { squiggle: true, ..straight(cell_pos(ax, ay), cell_pos(bx, by)) },
        LineKind::BackDiagonal => straight(cell_pos(ax, ay), cell_pos(bx, by)),
        LineKind::ForwardDiagonal => straight(cell_pos(bx, by), cell_pos(ax, ay)),
        LineKind::Underscore => straight(cell_offset(ax, ay, 0, 1), cell_offset(bx, by, 0, 1)),
    }
}

fn run_path_exec(grid: &Grid, k: LineKind, ax: i32, ay: i32, bx: i32, by: i32) -> (r: Path)
    requires
        grid.wf(),
        0 <= ax <= MAX_DIM,
        0 <= ay <= MAX_DIM,
        0 <= bx <= MAX_DIM,
        0 <= by <= MAX_DIM,
    ensures
        r == run_path(grid.rows(), k, ax as int, ay as int, bx as int, by as int),
{
    match k {
        LineKind::SolidVertical => {
            let top = if is_top_vertex(grid.get(ax, ay - 1)) {
                ay - 1
            } else {
                ay
            };
            let bottom = if is_bottom_vertex(grid.get(bx, by + 1)) {
                by + 1
            } else {
                by
            };
            Path::line_from_grid(ax, top, bx, bottom)
        },
        LineKind::SolidHorizontal => {
            let left = if is_vertex(grid.get(ax - 1, ay)) {
                ax - 1
            } else {
                ax
            };
            let right = if is_vertex(grid.get(bx + 1, by)) {
                bx + 1
            } else {
                bx
            };
            Path::line_from_grid(left, ay, right, by)
        },
        LineKind::DoubleVertical | LineKind::DoubleHorizontal => Path::line_from_grid(
            ax,
            ay,
            bx,
            by,
        ).with_double(true),
        LineKind::Squiggle => Path::line_from_grid(ax, ay, bx, by).with_squiggle(true),
        LineKind::BackDiagonal => Path::line_from_grid(ax, ay, bx, by),
        LineKind::ForwardDiagonal => Path::line_from_grid(bx, by, ax, ay),
        LineKind::Underscore => Path::line(
            Pos::from_grid_offset(ax, ay, 0, 1),
            Pos::from_grid_offset(bx, by, 0, 1),
        ),
    }
}

/// A straight line of cells: `len` cells from `(x0, y0)`, each step moving
/// `dx` in x (-1, 0 or 1) and `dy` in y (0 or 1).
pub struct Lane {
    pub x0: int,
    pub y0: int,
    pub dx: int,
    pub dy: int,
    pub len: int,
}

pub open spec fn lane_x(l: Lane, i: int) -> int {
    if l.dx > 0 {
        l.x0 + i
    } else if l.dx < 0 {
        l.x0 - i
    } else {
        l.x0
    }
}

pub open spec fn lane_y(l: Lane, i: int) -> int {
    if l.dy > 0 {
        l.y0 + i
    } else {
        l.y0
    }
}

pub open spec fn lane_char(rows: Seq<Seq<char>>, l: Lane, i: int) -> char {
    char_in(rows, lane_x(l, i), lane_y(l, i))
}

/// The step at which `(a, b)` would lie on the line of `l`.
pub open spec fn lane_index(l: Lane, a: int, b: int) -> int {
    if l.dy > 0 {
        b - l.y0
    } else {
        a - l.x0
    }
}

pub open spec fn on_lane(l: Lane, a: int, b: int) -> bool {
    let i = lane_index(l, a, b);
    0 <= i < l.len && lane_x(l, i) == a && lane_y(l, i) == b
}

/// Number of cells from step `i` on that continue a run of kind `k`.
pub open spec fn run_len(rows: Seq<Seq<char>>, k: LineKind, l: Lane, i: int) -> int
    decreases l.len - i,
{
    if 0 <= i < l.len && continues_run(k, lane_char(rows, l, i)) {
        1 + run_len(rows, k, l, i + 1)
    } else {
        0
    }
}

/// Step `i` belongs to a run of kind `k`: it continues a run that opened at
/// or before it.
pub open spec fn in_run(rows: Seq<Seq<char>>, k: LineKind, l: Lane, i: int) -> bool
    decreases i + 1,
{
    if i < 0 {
        false
    } else {
        continues_run(k, lane_char(rows, l, i)) && (starts_run(k, lane_char(rows, l, i)) || in_run(
            rows,
            k,
            l,
            i - 1,
        ))
    }
}

/// The paths of the maximal runs of kind `k` on lane `l`, from step `i` on,
/// in scan order; runs shorter than `min_run(k)` give none.
pub open spec fn lane_paths(rows: Seq<Seq<char>>, k: LineKind, l: Lane, i: int) -> Seq<Path>
    decreases l.len - i,
    via lane_paths_decreases
{
    if i < 0 || i >= l.len {
        Seq::empty()
    } else if starts_run(k, lane_char(rows, l, i)) {
        let n = run_len(rows, k, l, i);
        let rest = lane_paths(rows, k, l, i + n);
        if n >= min_run(k) {
            seq![
                run_path(
                    rows,
                    k,
                    lane_x(l, i),
                    lane_y(l, i),
                    lane_x(l, i + n - 1),
                    lane_y(l, i + n - 1),
                ),
            ] + rest
        } else {
            rest
        }
    } else {
        lane_paths(rows, k, l, i + 1)
    }
}

pub proof fn lemma_start_continues(k: LineKind, c: char)
    ensures
        starts_run(k, c) ==> continues_run(k, c),
{
}

#[via_fn]
proof fn lane_paths_decreases(rows: Seq<Seq<char>>, k: LineKind, l: Lane, i: int) {
    if i < 0 || i >= l.len {
    } else if starts_run(k, lane_char(rows, l, i)) {
        lemma_start_continues(k, lane_char(rows, l, i));
        lemma_run_len_bounds(rows, k, l, i + 1);
        lemma_run_len_bounds(rows, k, l, i);
        assert(run_len(rows, k, l, i) >= 1);
    } else {
    }
}

pub proof fn lemma_run_len_bounds(rows: Seq<Seq<char>>, k: LineKind, l: Lane, i: int)
    requires
        0 <= i <= l.len,
    ensures
        0 <= run_len(rows, k, l, i) <= l.len - i,
    decreases l.len - i,
{
    if i < l.len && continues_run(k, lane_char(rows, l, i)) {
        lemma_run_len_bounds(rows, k, l, i + 1);
    }
}

pub open spec fn lane_fits(g: Grid, l: Lane) -> bool {
    &&& 0 <= l.len
    &&& -1 <= l.dx <= 1
    &&& 0 <= l.dy <= 1
    &&& (l.dy == 0 ==> l.dx == 1)
    &&& forall|i: int| 0 <= i < l.len ==> g.in_bounds(#[trigger] lane_x(l, i), lane_y(l, i))
}

pub open spec fn lane_of(x0: i32, y0: i32, dx: i32, dy: i32, len: i32) -> Lane {
    Lane { x0: x0 as int, y0: y0 as int, dx: dx as int, dy: dy as int, len: len as int }
}

/// Number of consecutive steps, ending at step `i`, that lie in a run.
pub open spec fn run_before(rows: Seq<Seq<char>>, k: LineKind, l: Lane, i: int) -> int
    decreases i + 1,
{
    if i < 0 || !in_run(rows, k, l, i) {
        0
    } else {
        1 + run_before(rows, k, l, i - 1)
    }
}

/// Step `i` lies in a run long enough to become a path; only such steps
/// are consumed, so a shorter run stays plain text.
pub open spec fn run_marked(rows: Seq<Seq<char>>, k: LineKind, l: Lane, i: int) -> bool {
    in_run(rows, k, l, i) && run_before(rows, k, l, i) + run_len(rows, k, l, i + 1) >= min_run(k)
}

/// Every step of a run continues it, and the run is that much shorter
/// from there on; it ends right after its last step.
pub proof fn lemma_run_steps(rows: Seq<Seq<char>>, k: LineKind, l: Lane, j: int, n: int, t: int)
    requires
        0 <= j <= t < j + n,
        run_len(rows, k, l, j) == n,
    ensures
        t < l.len,
        continues_run(k, lane_char(rows, l, t)),
        run_len(rows, k, l, t) == n - (t - j),
        run_len(rows, k, l, t + 1) == n - (t - j) - 1,
    decreases t - j,
{
    if t > j {
        lemma_run_steps(rows, k, l, j, n, t - 1);
        assert(run_len(rows, k, l, t - 1) == 1 + run_len(rows, k, l, t));
    }
    assert(run_len(rows, k, l, t) >= 1);
    assert(0 <= t < l.len && continues_run(k, lane_char(rows, l, t)));
}

/// Inside a run that opens at `j` after a step outside any run, every step
/// is in the run, with the run's length split around it.
pub proof fn lemma_run_span(rows: Seq<Seq<char>>, k: LineKind, l: Lane, j: int, n: int, t: int)
    requires
        0 <= j <= t < j + n,
        starts_run(k, lane_char(rows, l, j)),
        !in_run(rows, k, l, j - 1),
        run_len(rows, k, l, j) == n,
    ensures
        in_run(rows, k, l, t),
        run_before(rows, k, l, t) == t - j + 1,
        run_len(rows, k, l, t + 1) == n - (t - j) - 1,
        run_marked(rows, k, l, t) == (n >= min_run(k)),
    decreases t - j,
{
    lemma_run_steps(rows, k, l, j, n, t);
    if t > j {
        lemma_run_span(rows, k, l, j, n, t - 1);
    } else {
        assert(run_before(rows, k, l, j - 1) == 0);
    }
}

/// Consumes the cells of steps `start..end` of a lane.
fn consume_steps(
    grid: &mut Grid,
    x0: i32,
    y0: i32,
    dx: i32,
    dy: i32,
    len: i32,
    start: i32,
    end: i32,
)
    requires
        old(grid).wf(),
        lane_fits(*old(grid), lane_of(x0, y0, dx, dy, len)),
        0 <= start <= end <= len,
    ensures
        final(grid).wf(),
        final(grid).same_chars(&*old(grid)),
        forall|a: int, b: int|
            #[trigger] final(grid).used_at(a, b) == (old(grid).used_at(a, b) || (on_lane(
                lane_of(x0, y0, dx, dy, len),
                a,
                b,
            ) && start <= lane_index(lane_of(x0, y0, dx, dy, len), a, b) < end)),
{
    let ghost g0 = *old(grid);
    let ghost l = lane_of(x0, y0, dx, dy, len);
    let mut t = start;
    while t < end
        invariant
            start <= t <= end <= len,
            0 <= start,
            l == lane_of(x0, y0, dx, dy, len),
            g0.wf(),
            lane_fits(g0, l),
            grid.wf(),
            grid.same_chars(&g0),
            forall|a: int, b: int|
                #[trigger] grid.used_at(a, b) == (g0.used_at(a, b) || (on_lane(l, a, b) && start
                    <= lane_index(l, a, b) < t)),
        decreases end - t,
    {
        assert(g0.in_bounds(lane_x(l, t as int), lane_y(l, t as int)));
        let cx = if dx > 0 {
            x0 + t
        } else if dx < 0 {
            x0 - t
        } else {
            x0
        };
        let cy = if dy > 0 {
            y0 + t
        } else {
            y0
        };
        grid.set_used(cx, cy);
        t += 1;
    }
}

/// Scans one lane for runs of kind `k`; the cells of a run are consumed
/// only when the run becomes a path.
fn scan_lane(
    grid: &mut Grid,
    paths: &mut PathSet,
    k: LineKind,
    x0: i32,
    y0: i32,
    dx: i32,
    dy: i32,
    len: i32,
)
    requires
        old(grid).wf(),
        lane_fits(*old(grid), lane_of(x0, y0, dx, dy, len)),
    ensures
        final(grid).wf(),
        final(grid).same_chars(&*old(grid)),
        final(paths)@ == old(paths)@ + lane_paths(
            old(grid).rows(),
            k,
            lane_of(x0, y0, dx, dy, len),
            0,
        ),
        forall|a: int, b: int|
            #[trigger] final(grid).used_at(a, b) == (old(grid).used_at(a, b) || (on_lane(
                lane_of(x0, y0, dx, dy, len),
                a,
                b,
            ) && run_marked(
                old(grid).rows(),
                k,
                lane_of(x0, y0, dx, dy, len),
                lane_index(lane_of(x0, y0, dx, dy, len), a, b),
            ))),
{
    let ghost g0 = *old(grid);
    let ghost rows = g0.rows();
    let ghost l = lane_of(x0, y0, dx, dy, len);
    let ghost ps0 = old(paths)@;
    let mut i: i32 = 0;
    proof {
        assert(!in_run(rows, k, l, -1));
        lemma_start_continues(k, lane_char(rows, l, 0));
    }
    while i < len
        invariant
            0 <= i <= len,
            l == lane_of(x0, y0, dx, dy, len),
            rows == g0.rows(),
            g0.wf(),
            lane_fits(g0, l),
            grid.wf(),
            grid.same_chars(&g0),
            paths@ + lane_paths(rows, k, l, i as int) == ps0 + lane_paths(rows, k, l, 0),
            i < len ==> (in_run(rows, k, l, i as int) == starts_run(k, lane_char(rows, l, i as int))),
            0 < i < len && in_run(rows, k, l, i - 1) ==> !continues_run(
                k,
                lane_char(rows, l, i as int),
            ),
            forall|a: int, b: int|
                #[trigger] grid.used_at(a, b) == (g0.used_at(a, b) || (on_lane(l, a, b)
                    && lane_index(l, a, b) < i && run_marked(rows, k, l, lane_index(l, a, b)))),
        decreases len - i,
    {
        let x = if dx > 0 {
            x0 + i
        } else if dx < 0 {
            x0 - i
        } else {
            x0
        };
        let y = if dy > 0 {
            y0 + i
        } else {
            y0
        };
        assert(g0.in_bounds(lane_x(l, i as int), lane_y(l, i as int)));
        let c = grid.get(x, y);
        if starts_run_exec(k, c) {
            let start = i;
            let sx = x;
            let sy = y;
            let mut ex = x;
            let mut ey = y;
            proof {
                lemma_start_continues(k, c);
                assert(!in_run(rows, k, l, start - 1));
            }
            while i < len
                invariant
                    start <= i <= len,
                    0 <= start < len,
                    l == lane_of(x0, y0, dx, dy, len),
                    rows == g0.rows(),
                    g0.wf(),
                    lane_fits(g0, l),
                    grid.wf(),
                    grid.same_chars(&g0),
                    run_len(rows, k, l, start as int) == (i - start) + run_len(rows, k, l, i as int),
                    i > start ==> ex == lane_x(l, i - 1) && ey == lane_y(l, i - 1),
                    i == start ==> ex == lane_x(l, i as int) && ey == lane_y(l, i as int),
                ensures
                    i == len || !continues_run(k, lane_char(rows, l, i as int)),
                decreases len - i,
            {
                let cx = if dx > 0 {
                    x0 + i
                } else if dx < 0 {
                    x0 - i
                } else {
                    x0
                };
                let cy = if dy > 0 {
                    y0 + i
                } else {
                    y0
                };
                assert(g0.in_bounds(lane_x(l, i as int), lane_y(l, i as int)));
                if !continues_run_exec(k, grid.get(cx, cy)) {
                    break;
                }
                ex = cx;
                ey = cy;
                i += 1;
            }
            proof {
                lemma_run_len_bounds(rows, k, l, i as int);
                if i < len {
                    lemma_start_continues(k, lane_char(rows, l, i as int));
                }
            }
            assert(run_len(rows, k, l, i as int) == 0);
            let ghost n = i - start;
            assert(n >= 1);
            let long_enough = i - start >= min_run_exec(k);
            if long_enough {
                consume_steps(grid, x0, y0, dx, dy, len, start, i);
                let p = run_path_exec(grid, k, sx, sy, ex, ey);
                paths.insert(p);
            }
            proof {
                assert forall|a: int, b: int|
                    #[trigger] grid.used_at(a, b) == (g0.used_at(a, b) || (on_lane(l, a, b)
                        && lane_index(l, a, b) < i && run_marked(rows, k, l, lane_index(l, a, b)))) by {
                    let t = lane_index(l, a, b);
                    if on_lane(l, a, b) && start <= t < i {
                        lemma_run_span(rows, k, l, start as int, n, t);
                    }
                }
            }
        } else {
            i += 1;
        }
    }
}

// ---------------------------------------------------------------------------
// Sweeps: every lane of one kind
// ---------------------------------------------------------------------------

pub open spec fn vertical_kind(k: LineKind) -> bool {
    k == LineKind::SolidVertical || k == LineKind::DoubleVertical
}

pub open spec fn horizontal_kind(k: LineKind) -> bool {
    k == LineKind::SolidHorizontal || k == LineKind::Squiggle || k == LineKind::DoubleHorizontal
        || k == LineKind::Underscore
}

pub open spec fn min_int(a: int, b: int) -> int {
    if a <= b {
        a
    } else {
        b
    }
}

/// How many lanes a `w` by `h` grid has for kind `k`: one per column, one
/// per row, or one per diagonal.
pub open spec fn lane_count(k: LineKind, w: int, h: int) -> int {
    if vertical_kind(k) {
        w
    } else if horizontal_kind(k) {
        h
    } else if w + h >= 1 {
        w + h - 1
    } else {
        0
    }
}

/// Lane `s` of kind `k`: columns top to bottom; rows left to right;
/// `\` diagonals walking down-right from the top row (left to right) then
/// from the left column (top to bottom); `/` diagonals walking down-left from
/// the top row (right to left) then from the right column (top to bottom).
pub open spec fn kind_lane(k: LineKind, w: int, h: int, s: int) -> Lane {
    if vertical_kind(k) {
        Lane { x0: s, y0: 0, dx: 0, dy: 1, len: h }
    } else if horizontal_kind(k) {
        Lane { x0: 0, y0: s, dx: 1, dy: 0, len: w }
    } else if k == LineKind::BackDiagonal {
        if s < w {
            Lane { x0: s, y0: 0, dx: 1, dy: 1, len: min_int(w - s, h) }
        } else {
            Lane { x0: 0, y0: s - w + 1, dx: 1, dy: 1, len: min_int(w, h - (s - w + 1)) }
        }
    } else {
        if s < w {
            Lane { x0: w - 1 - s, y0: 0, dx: -1, dy: 1, len: min_int(w - s, h) }
        } else {
            Lane { x0: w - 1, y0: s - w + 1, dx: -1, dy: 1, len: min_int(w, h - (s - w + 1)) }
        }
    }
}

/// The lane of kind `k` that holds cell `(a, b)`.
pub open spec fn cell_lane(k: LineKind, w: int, h: int, a: int, b: int) -> int {
    if vertical_kind(k) {
        a
    } else if horizontal_kind(k) {
        b
    } else if k == LineKind::BackDiagonal {
        if a >= b {
            a - b
        } else {
            w - 1 + b - a
        }
    } else {
        if a + b <= w - 1 {
            w - 1 - a - b
        } else {
            a + b
        }
    }
}

/// The paths of all lanes `0..n` of kind `k`, lane after lane.
pub open spec fn sweep(rows: Seq<Seq<char>>, k: LineKind, w: int, h: int, n: int) -> Seq<Path>
    decreases n,
{
    if n <= 0 {
        Seq::empty()
    } else {
        sweep(rows, k, w, h, n - 1) + lane_paths(rows, k, kind_lane(k, w, h, n - 1), 0)
    }
}

/// The paths a pass of kind `k` finds in a `w` by `h` grid.
pub open spec fn kind_paths(rows: Seq<Seq<char>>, k: LineKind, w: int, h: int) -> Seq<Path> {
    sweep(rows, k, w, h, lane_count(k, w, h))
}

/// Cell `(a, b)` is consumed by a pass of kind `k`: it lies in a run long
/// enough to become a path.
pub open spec fn kind_marks(rows: Seq<Seq<char>>, k: LineKind, w: int, h: int, a: int, b: int) -> bool {
    let l = kind_lane(k, w, h, cell_lane(k, w, h, a, b));
    0 <= a < w && 0 <= b < h && run_marked(rows, k, l, lane_index(l, a, b))
}

/// Lane `s` of kind `k` stays inside a `w` by `h` grid, and holds exactly
/// the cells that `cell_lane` assigns to it.
pub proof fn lemma_kind_lane(k: LineKind, w: int, h: int, s: int)
    requires
        0 <= w,
        0 <= h,
        0 <= s < lane_count(k, w, h),
    ensures
        0 <= kind_lane(k, w, h, s).len,
        forall|i: int|
            0 <= i < kind_lane(k, w, h, s).len ==> 0 <= #[trigger] lane_x(kind_lane(k, w, h, s), i)
                < w && 0 <= lane_y(kind_lane(k, w, h, s), i) < h,
        forall|a: int, b: int|
            #[trigger] on_lane(kind_lane(k, w, h, s), a, b) == (0 <= a < w && 0 <= b < h
                && cell_lane(k, w, h, a, b) == s),
{
    let l = kind_lane(k, w, h, s);
    assert forall|i: int| 0 <= i < l.len implies 0 <= #[trigger] lane_x(l, i) < w && 0 <= lane_y(
        l,
        i,
    ) < h by {}
    assert forall|a: int, b: int|
        #[trigger] on_lane(l, a, b) == (0 <= a < w && 0 <= b < h && cell_lane(k, w, h, a, b)
            == s) by {}
}

fn lane_params(k: LineKind, w: i32, h: i32, s: i32) -> (r: (i32, i32, i32, i32, i32))
    requires
        0 <= w <= MAX_DIM,
        0 <= h <= MAX_DIM,
        0 <= s < lane_count(k, w as int, h as int),
    ensures
        lane_of(r.0, r.1, r.2, r.3, r.4) == kind_lane(k, w as int, h as int, s as int),
{
    match k {
        LineKind::SolidVertical | LineKind::DoubleVertical => (s, 0, 0, 1, h),
        LineKind::SolidHorizontal
        | LineKind::Squiggle
        | LineKind::DoubleHorizontal
        | LineKind::Underscore => (0, s, 1, 0, w),
        LineKind::BackDiagonal => {
            if s < w {
                (s, 0, 1, 1, if w - s <= h {
                    w - s
                } else {
                    h
                })
            } else {
                let y0 = s - w + 1;
                (0, y0, 1, 1, if w <= h - y0 {
                    w
                } else {
                    h - y0
                })
            }
        },
        LineKind::ForwardDiagonal => {
            if s < w {
                (w - 1 - s, 0, -1, 1, if w - s <= h {
                    w - s
                } else {
                    h
                })
            } else {
                let y0 = s - w + 1;
                (w - 1, y0, -1, 1, if w <= h - y0 {
                    w
                } else {
                    h - y0
                })
            }
        },
    }
}

fn lane_count_exec(k: LineKind, w: i32, h: i32) -> (r: i32)
    requires
        0 <= w <= MAX_DIM,
        0 <= h <= MAX_DIM,
    ensures
        r == lane_count(k, w as int, h as int),
{
    match k {
        LineKind::SolidVertical | LineKind::DoubleVertical => w,
        LineKind::SolidHorizontal
        | LineKind::Squiggle
        | LineKind::DoubleHorizontal
        | LineKind::Underscore => h,
        _ => if w + h >= 1 {
            w + h - 1
        } else {
            0
        },
    }
}

/// Runs the pass of kind `k` over every lane of the grid.
pub fn scan_kind(grid: &mut Grid, paths: &mut PathSet, k: LineKind)
    requires
        old(grid).wf(),
    ensures
        final(grid).wf(),
        final(grid).same_chars(&*old(grid)),
        final(paths)@ == old(paths)@ + kind_paths(
            old(grid).rows(),
            k,
            old(grid).width as int,
            old(grid).height as int,
        ),
        forall|a: int, b: int|
            #[trigger] final(grid).used_at(a, b) == (old(grid).used_at(a, b) || kind_marks(
                old(grid).rows(),
                k,
                old(grid).width as int,
                old(grid).height as int,
                a,
                b,
            )),
{
    let ghost g0 = *old(grid);
    let ghost rows = g0.rows();
    let ghost ps0 = old(paths)@;
    let w = grid.width as i32;
    let h = grid.height as i32;
    let n = lane_count_exec(k, w, h);
    let mut s: i32 = 0;
    while s < n
        invariant
            0 <= s <= n,
            n == lane_count(k, w as int, h as int),
            w == g0.width,
            h == g0.height,
            rows == g0.rows(),
            g0.wf(),
            grid.wf(),
            grid.same_chars(&g0),
            paths@ == ps0 + sweep(rows, k, w as int, h as int, s as int),
            forall|a: int, b: int|
                #[trigger] grid.used_at(a, b) == (g0.used_at(a, b) || (g0.in_bounds(a, b)
                    && cell_lane(k, w as int, h as int, a, b) < s && kind_marks(
                    rows,
                    k,
                    w as int,
                    h as int,
                    a,
                    b,
                ))),
        decreases n - s,
    {
        let (x0, y0, dx, dy, len) = lane_params(k, w, h, s);
        let ghost gp = *grid;
        proof {
            lemma_kind_lane(k, w as int, h as int, s as int);
            let l = kind_lane(k, w as int, h as int, s as int);
            assert forall|i: int| 0 <= i < l.len implies g0.in_bounds(
                #[trigger] lane_x(l, i),
                lane_y(l, i),
            ) by {}
        }
        scan_lane(grid, paths, k, x0, y0, dx, dy, len);
        proof {
            let l = kind_lane(k, w as int, h as int, s as int);
            assert forall|a: int, b: int|
                #[trigger] grid.used_at(a, b) == (g0.used_at(a, b) || (g0.in_bounds(a, b)
                    && cell_lane(k, w as int, h as int, a, b) < s + 1 && kind_marks(
                    rows,
                    k,
                    w as int,
                    h as int,
                    a,
                    b,
                ))) by {
                assert(gp.used_at(a, b) == (g0.used_at(a, b) || (g0.in_bounds(a, b) && cell_lane(
                    k,
                    w as int,
                    h as int,
                    a,
                    b,
                ) < s && kind_marks(rows, k, w as int, h as int, a, b))));
                assert(on_lane(l, a, b) == (g0.in_bounds(a, b) && cell_lane(
                    k,
                    w as int,
                    h as int,
                    a,
                    b,
                ) == s));
            }
            assert(paths@ =~= ps0 + sweep(rows, k, w as int, h as int, s + 1));
        }
        s += 1;
    }
}

// ---------------------------------------------------------------------------
// Row-major cell passes
// ---------------------------------------------------------------------------

/// What `f` yields for the first `x` cells of row `y`, left to right.
pub open spec fn row_items<T>(f: spec_fn(int, int) -> Seq<T>, y: int, x: int) -> Seq<T>
    decreases x,
{
    if x <= 0 {
        Seq::empty()
    } else {
        row_items(f, y, x - 1) + f(x - 1, y)
    }
}

/// What `f` yields for the first `y` rows of width `w`, in row-major order.
pub open spec fn grid_items<T>(f: spec_fn(int, int) -> Seq<T>, w: int, y: int) -> Seq<T>
    decreases y,
{
    if y <= 0 {
        Seq::empty()
    } else {
        grid_items(f, w, y - 1) + row_items(f, y - 1, w)
    }
}

/// Cell `(a, b)` comes before `(x, y)` in row-major order.
pub open spec fn before(a: int, b: int, x: int, y: int) -> bool {
    b < y || (b == y && a < x)
}

// ---------------------------------------------------------------------------
// Curved corners
// ---------------------------------------------------------------------------

/// The quarter curves at a corner glyph `(x, y)`: a `.` or `,` joins a
/// solid horizontal neighbour on the left and/or right to a solid vertical
/// line below; a `'` or `` ` `` joins them to a solid vertical line above.
/// Both control points sit at the cell's centre.
pub open spec fn corner_paths(rows: Seq<Seq<char>>, x: int, y: int) -> Seq<Path> {
    let c = char_in(rows, x, y);
    let left = solid_h_char(char_in(rows, x - 1, y));
    let right = solid_h_char(char_in(rows, x + 1, y));
    let centre = cell_pos(x, y);
    if c == '.' || c == ',' {
        let down = solid_v_char(char_in(rows, x, y + 1));
        let end = cell_offset(x, y, 0, 1);
        (if left && down {
            seq![curve_path(cell_offset(x, y, -1, 0), end, centre, centre)]
        } else {
            Seq::empty()
        }) + (if right && down {
            seq![curve_path(cell_offset(x, y, 1, 0), end, centre, centre)]
        } else {
            Seq::empty()
        })
    } else if c == '\'' || c == '`' {
        let up = solid_v_char(char_in(rows, x, y - 1));
        let end = cell_offset(x, y, 0, -1);
        (if left && up {
            seq![curve_path(cell_offset(x, y, -1, 0), end, centre, centre)]
        } else {
            Seq::empty()
        }) + (if right && up {
            seq![curve_path(cell_offset(x, y, 1, 0), end, centre, centre)]
        } else {
            Seq::empty()
        })
    } else {
        Seq::empty()
    }
}

pub open spec fn corner_fn(rows: Seq<Seq<char>>) -> spec_fn(int, int) -> Seq<Path> {
    |x: int, y: int| corner_paths(rows, x, y)
}

/// Pass 8: curved corners, in row-major order; a cell that yields a curve
/// is consumed.
pub fn find_curved_corners(grid: &mut Grid, paths: &mut PathSet)
    requires
        old(grid).wf(),
    ensures
        final(grid).wf(),
        final(grid).same_chars(&*old(grid)),
        final(paths)@ == old(paths)@ + grid_items(
            corner_fn(old(grid).rows()),
            old(grid).width as int,
            old(grid).height as int,
        ),
        forall|a: int, b: int|
            #[trigger] final(grid).used_at(a, b) == (old(grid).used_at(a, b) || (old(
                grid,
            ).in_bounds(a, b) && corner_paths(old(grid).rows(), a, b).len() > 0)),
{
    let ghost g0 = *old(grid);
    let ghost rows = g0.rows();
    let ghost ps0 = old(paths)@;
    let ghost f = corner_fn(rows);
    let w = grid.width as i32;
    let h = grid.height as i32;
    let mut y: i32 = 0;
    while y < h
        invariant
            0 <= y <= h,
            w == g0.width,
            h == g0.height,
            rows == g0.rows(),
            f == corner_fn(rows),
            g0.wf(),
            grid.wf(),
            grid.same_chars(&g0),
            paths@ == ps0 + grid_items(f, w as int, y as int),
            forall|a: int, b: int|
                #[trigger] grid.used_at(a, b) == (g0.used_at(a, b) || (g0.in_bounds(a, b) && b
                    < y && corner_paths(rows, a, b).len() > 0)),
        decreases h - y,
    {
        let mut x: i32 = 0;
        while x < w
            invariant
                0 <= x <= w,
                0 <= y < h,
                w == g0.width,
                h == g0.height,
                rows == g0.rows(),
                f == corner_fn(rows),
                g0.wf(),
                grid.wf(),
                grid.same_chars(&g0),
                paths@ == ps0 + grid_items(f, w as int, y as int) + row_items(f, y as int, x as int),
                forall|a: int, b: int|
                    #[trigger] grid.used_at(a, b) == (g0.used_at(a, b) || (g0.in_bounds(a, b)
                        && before(a, b, x as int, y as int) && corner_paths(rows, a, b).len() > 0)),
            decreases w - x,
        {
            let ghost before_paths = paths@;
            let ghost gp = *grid;
            let c = grid.get(x, y);
            let left = is_solid_h_line(grid.get(x - 1, y));
            let right = is_solid_h_line(grid.get(x + 1, y));
            let centre = Pos::from_grid(x, y);
            let mut found = false;
            if c == '.' || c == ',' {
                let down = is_solid_v_line(grid.get(x, y + 1));
                let end = Pos::from_grid_offset(x, y, 0, 1);
                if left && down {
                    paths.insert(Path::curve(Pos::from_grid_offset(x, y, -1, 0), end, centre, centre));
                    found = true;
                }
                if right && down {
                    paths.insert(Path::curve(Pos::from_grid_offset(x, y, 1, 0), end, centre, centre));
                    found = true;
                }
            } else if c == '\'' || c == '`' {
                let up = is_solid_v_line(grid.get(x, y - 1));
                let end = Pos::from_grid_offset(x, y, 0, -1);
                if left && up {
                    paths.insert(Path::curve(Pos::from_grid_offset(x, y, -1, 0), end, centre, centre));
                    found = true;
                }
                if right && up {
                    paths.insert(Path::curve(Pos::from_grid_offset(x, y, 1, 0), end, centre, centre));
                    found = true;
                }
            }
            assert(paths@ =~= before_paths + corner_paths(rows, x as int, y as int));
            assert(found == (corner_paths(rows, x as int, y as int).len() > 0));
            if found {
                grid.set_used(x, y);
            }
            assert(paths@ =~= ps0 + grid_items(f, w as int, y as int) + row_items(
                f,
                y as int,
                x + 1,
            ));
            x += 1;
        }
        assert(paths@ =~= ps0 + grid_items(f, w as int, y + 1));
        y += 1;
    }
}

/// Pass 1: solid vertical runs, column by column. A run of one cell makes no
/// path and stays unconsumed; an end extends onto a vertex glyph just past it (`.`, `,` or `+` above, `'`, `` ` `` or `+` below).
pub fn find_solid_vertical_lines(grid: &mut Grid, paths: &mut PathSet)
    requires
        old(grid).wf(),
    ensures
        final(grid).wf(),
        final(grid).same_chars(&*old(grid)),
        final(paths)@ == old(paths)@ + kind_paths(
            old(grid).rows(),
            LineKind::SolidVertical,
            old(grid).width as int,
            old(grid).height as int,
        ),
        forall|a: int, b: int|
            #[trigger] final(grid).used_at(a, b) == (old(grid).used_at(a, b) || kind_marks(
                old(grid).rows(),
                LineKind::SolidVertical,
                old(grid).width as int,
                old(grid).height as int,
                a,
                b,
            )),
{
    scan_kind(grid, paths, LineKind::SolidVertical);
}

/// Pass 2: double vertical runs (`║`), column by column; a single cell is kept.
pub fn find_double_vertical_lines(grid: &mut Grid, paths: &mut PathSet)
    requires
        old(grid).wf(),
    ensures
        final(grid).wf(),
        final(grid).same_chars(&*old(grid)),
        final(paths)@ == old(paths)@ + kind_paths(
            old(grid).rows(),
            LineKind::DoubleVertical,
            old(grid).width as int,
            old(grid).height as int,
        ),
        forall|a: int, b: int|
            #[trigger] final(grid).used_at(a, b) == (old(grid).used_at(a, b) || kind_marks(
                old(grid).rows(),
                LineKind::DoubleVertical,
                old(grid).width as int,
                old(grid).height as int,
                a,
                b,
            )),
{
    scan_kind(grid, paths, LineKind::DoubleVertical);
}

/// Pass 3: solid horizontal runs, row by row. A run opens on `-` or `─`, passes through `+`, needs two cells, and extends onto any vertex glyph just past either end.
pub fn find_solid_horizontal_lines(grid: &mut Grid, paths: &mut PathSet)
    requires
        old(grid).wf(),
    ensures
        final(grid).wf(),
        final(grid).same_chars(&*old(grid)),
        final(paths)@ == old(paths)@ + kind_paths(
            old(grid).rows(),
            LineKind::SolidHorizontal,
            old(grid).width as int,
            old(grid).height as int,
        ),
        forall|a: int, b: int|
            #[trigger] final(grid).used_at(a, b) == (old(grid).used_at(a, b) || kind_marks(
                old(grid).rows(),
                LineKind::SolidHorizontal,
                old(grid).width as int,
                old(grid).height as int,
                a,
                b,
            )),
{
    scan_kind(grid, paths, LineKind::SolidHorizontal);
}

/// Pass 4: squiggle runs (`~`), row by row; a single cell makes no path and
/// stays unconsumed.
pub fn find_squiggle_horizontal_lines(grid: &mut Grid, paths: &mut PathSet)
    requires
        old(grid).wf(),
    ensures
        final(grid).wf(),
        final(grid).same_chars(&*old(grid)),
        final(paths)@ == old(paths)@ + kind_paths(
            old(grid).rows(),
            LineKind::Squiggle,
            old(grid).width as int,
            old(grid).height as int,
        ),
        forall|a: int, b: int|
            #[trigger] final(grid).used_at(a, b) == (old(grid).used_at(a, b) || kind_marks(
                old(grid).rows(),
                LineKind::Squiggle,
                old(grid).width as int,
                old(grid).height as int,
                a,
                b,
            )),
{
    scan_kind(grid, paths, LineKind::Squiggle);
}

/// Pass 5: double horizontal runs (`=`, `═`), row by row; a single cell is kept.
pub fn find_double_horizontal_lines(grid: &mut Grid, paths: &mut PathSet)
    requires
        old(grid).wf(),
    ensures
        final(grid).wf(),
        final(grid).same_chars(&*old(grid)),
        final(paths)@ == old(paths)@ + kind_paths(
            old(grid).rows(),
            LineKind::DoubleHorizontal,
            old(grid).width as int,
            old(grid).height as int,
        ),
        forall|a: int, b: int|
            #[trigger] final(grid).used_at(a, b) == (old(grid).used_at(a, b) || kind_marks(
                old(grid).rows(),
                LineKind::DoubleHorizontal,
                old(grid).width as int,
                old(grid).height as int,
                a,
                b,
            )),
{
    scan_kind(grid, paths, LineKind::DoubleHorizontal);
}

/// Pass 6: `\` runs along the down-right diagonals, passing through `+`; a
/// single cell makes no path and stays unconsumed.
pub fn find_backslash_diagonals(grid: &mut Grid, paths: &mut PathSet)
    requires
        old(grid).wf(),
    ensures
        final(grid).wf(),
        final(grid).same_chars(&*old(grid)),
        final(paths)@ == old(paths)@ + kind_paths(
            old(grid).rows(),
            LineKind::BackDiagonal,
            old(grid).width as int,
            old(grid).height as int,
        ),
        forall|a: int, b: int|
            #[trigger] final(grid).used_at(a, b) == (old(grid).used_at(a, b) || kind_marks(
                old(grid).rows(),
                LineKind::BackDiagonal,
                old(grid).width as int,
                old(grid).height as int,
                a,
                b,
            )),
{
    scan_kind(grid, paths, LineKind::BackDiagonal);
}

/// Pass 7: `/` runs along the down-left diagonals, passing through `+`; a
/// single cell makes no path and stays unconsumed, and each path runs from
/// its bottom-left to its top-right cell.
pub fn find_forward_slash_diagonals(grid: &mut Grid, paths: &mut PathSet)
    requires
        old(grid).wf(),
    ensures
        final(grid).wf(),
        final(grid).same_chars(&*old(grid)),
        final(paths)@ == old(paths)@ + kind_paths(
            old(grid).rows(),
            LineKind::ForwardDiagonal,
            old(grid).width as int,
            old(grid).height as int,
        ),
        forall|a: int, b: int|
            #[trigger] final(grid).used_at(a, b) == (old(grid).used_at(a, b) || kind_marks(
                old(grid).rows(),
                LineKind::ForwardDiagonal,
                old(grid).width as int,
                old(grid).height as int,
                a,
                b,
            )),
{
    scan_kind(grid, paths, LineKind::ForwardDiagonal);
}

/// Pass 9: underscore runs, row by row, drawn half a cell below the centre
/// line; a single cell makes no path and stays unconsumed.
pub fn find_underscore_lines(grid: &mut Grid, paths: &mut PathSet)
    requires
        old(grid).wf(),
    ensures
        final(grid).wf(),
        final(grid).same_chars(&*old(grid)),
        final(paths)@ == old(paths)@ + kind_paths(
            old(grid).rows(),
            LineKind::Underscore,
            old(grid).width as int,
            old(grid).height as int,
        ),
        forall|a: int, b: int|
            #[trigger] final(grid).used_at(a, b) == (old(grid).used_at(a, b) || kind_marks(
                old(grid).rows(),
                LineKind::Underscore,
                old(grid).width as int,
                old(grid).height as int,
                a,
                b,
            )),
{
    scan_kind(grid, paths, LineKind::Underscore);
}

/// Everything the path passes find, in pass order.
pub open spec fn found_paths(rows: Seq<Seq<char>>, w: int, h: int) -> Seq<Path> {
    kind_paths(rows, LineKind::SolidVertical, w, h) + kind_paths(
        rows,
        LineKind::DoubleVertical,
        w,
        h,
    ) + kind_paths(rows, LineKind::SolidHorizontal, w, h) + kind_paths(
        rows,
        LineKind::Squiggle,
        w,
        h,
    ) + kind_paths(rows, LineKind::DoubleHorizontal, w, h) + kind_paths(
        rows,
        LineKind::BackDiagonal,
        w,
        h,
    ) + kind_paths(rows, LineKind::ForwardDiagonal, w, h) + grid_items(corner_fn(rows), w, h)
        + kind_paths(rows, LineKind::Underscore, w, h)
}

/// Cell `(a, b)` is consumed by some path pass.
pub open spec fn path_marks(rows: Seq<Seq<char>>, w: int, h: int, a: int, b: int) -> bool {
    ||| kind_marks(rows, LineKind::SolidVertical, w, h, a, b)
    ||| kind_marks(rows, LineKind::DoubleVertical, w, h, a, b)
    ||| kind_marks(rows, LineKind::SolidHorizontal, w, h, a, b)
    ||| kind_marks(rows, LineKind::Squiggle, w, h, a, b)
    ||| kind_marks(rows, LineKind::DoubleHorizontal, w, h, a, b)
    ||| kind_marks(rows, LineKind::BackDiagonal, w, h, a, b)
    ||| kind_marks(rows, LineKind::ForwardDiagonal, w, h, a, b)
    ||| (0 <= a < w && 0 <= b < h && corner_paths(rows, a, b).len() > 0)
    ||| kind_marks(rows, LineKind::Underscore, w, h, a, b)
}

/// Runs the nine path passes in their fixed order: solid vertical, double
/// vertical, solid horizontal, squiggle, double horizontal, back diagonal,
/// forward diagonal, curved corners, underscores.
pub fn find_paths(grid: &mut Grid, paths: &mut PathSet)
    requires
        old(grid).wf(),
    ensures
        final(grid).wf(),
        final(grid).same_chars(&*old(grid)),
        final(paths)@ == old(paths)@ + found_paths(
            old(grid).rows(),
            old(grid).width as int,
            old(grid).height as int,
        ),
        forall|a: int, b: int|
            #[trigger] final(grid).used_at(a, b) == (old(grid).used_at(a, b) || path_marks(
                old(grid).rows(),
                old(grid).width as int,
                old(grid).height as int,
                a,
                b,
            )),
{
    let ghost g0 = *old(grid);
    let ghost ps0 = old(paths)@;
    let ghost rows = g0.rows();
    let ghost w = g0.width as int;
    let ghost h = g0.height as int;
    find_solid_vertical_lines(grid, paths);
    let ghost g1 = *grid;
    find_double_vertical_lines(grid, paths);
    let ghost g2 = *grid;
    find_solid_horizontal_lines(grid, paths);
    let ghost g3 = *grid;
    find_squiggle_horizontal_lines(grid, paths);
    let ghost g4 = *grid;
    find_double_horizontal_lines(grid, paths);
    let ghost g5 = *grid;
    find_backslash_diagonals(grid, paths);
    let ghost g6 = *grid;
    find_forward_slash_diagonals(grid, paths);
    let ghost g7 = *grid;
    find_curved_corners(grid, paths);
    let ghost g8 = *grid;
    find_underscore_lines(grid, paths);
    proof {
        assert forall|a: int, b: int|
            #[trigger] grid.used_at(a, b) == (g0.used_at(a, b) || path_marks(rows, w, h, a, b)) by {
            assert(g1.used_at(a, b) == (g0.used_at(a, b) || kind_marks(rows, LineKind::SolidVertical, w, h, a, b)));
            assert(g2.used_at(a, b) == (g1.used_at(a, b) || kind_marks(rows, LineKind::DoubleVertical, w, h, a, b)));
            assert(g3.used_at(a, b) == (g2.used_at(a, b) || kind_marks(rows, LineKind::SolidHorizontal, w, h, a, b)));
            assert(g4.used_at(a, b) == (g3.used_at(a, b) || kind_marks(rows, LineKind::Squiggle, w, h, a, b)));
            assert(g5.used_at(a, b) == (g4.used_at(a, b) || kind_marks(rows, LineKind::DoubleHorizontal, w, h, a, b)));
            assert(g6.used_at(a, b) == (g5.used_at(a, b) || kind_marks(rows, LineKind::BackDiagonal, w, h, a, b)));
            assert(g7.used_at(a, b) == (g6.used_at(a, b) || kind_marks(rows, LineKind::ForwardDiagonal, w, h, a, b)));
            assert(g8.used_at(a, b) == (g7.used_at(a, b) || (g7.in_bounds(a, b) && corner_paths(rows, a, b).len() > 0)));
            assert(grid.used_at(a, b) == (g8.used_at(a, b) || kind_marks(rows, LineKind::Underscore, w, h, a, b)));
        }
        assert(paths@ =~= ps0 + found_paths(rows, w, h));
    }
}

// ---------------------------------------------------------------------------
// Decorations
// ---------------------------------------------------------------------------

/// The decoration passes, in the order they run.
#[derive(Clone, Copy, Debug, PartialEq, Eq, Structural)]
pub enum DecorationPass {
    Arrows,
    Points,
    Jumps,
    Grays,
    Triangles,
}

/// The arrowhead a glyph at `(x, y)` makes, given the paths found. A `>`
/// needs a horizontal path ending at or crossing the cell on its left, else a
/// `/` path whose upper end is down-left of it, else a `\` path whose lower
/// end is up-left of it; `<` mirrors this; `^` needs a vertical path ending
/// at or crossing the cell below, `v` and `V` the cell above.
pub open spec fn arrow_at(rows: Seq<Seq<char>>, ps: Seq<Path>, x: int, y: int) -> Option<Decoration> {
    let c = char_in(rows, x, y);
    if c == '>' {
        if any_answers(ps, Query::HorizontalEnd, x - 1, y) || any_answers(
            ps,
            Query::HorizontalThrough,
            x - 1,
            y,
        ) {
            Some(deco_at(x, y, DecorationType::Arrow, Heading::Right))
        } else if any_answers(ps, Query::ForwardUpperEnd, x - 1, y + 1) {
            Some(deco_at(x, y, DecorationType::Arrow, Heading::UpRight))
        } else if any_answers(ps, Query::BackLowerEnd, x - 1, y - 1) {
            Some(deco_at(x, y, DecorationType::Arrow, Heading::DownRight))
        } else {
            None
        }
    } else if c == '<' {
        if any_answers(ps, Query::HorizontalEnd, x + 1, y) || any_answers(
            ps,
            Query::HorizontalThrough,
            x + 1,
            y,
        ) {
            Some(deco_at(x, y, DecorationType::Arrow, Heading::Left))
        } else if any_answers(ps, Query::ForwardLowerEnd, x + 1, y - 1) {
            Some(deco_at(x, y, DecorationType::Arrow, Heading::DownLeft))
        } else if any_answers(ps, Query::BackUpperEnd, x + 1, y + 1) {
            Some(deco_at(x, y, DecorationType::Arrow, Heading::UpLeft))
        } else {
            None
        }
    } else if c == '^' {
        if any_answers(ps, Query::VerticalEnd, x, y + 1) || any_answers(
            ps,
            Query::VerticalThrough,
            x,
            y + 1,
        ) {
            Some(deco_at(x, y, DecorationType::Arrow, Heading::Up))
        } else {
            None
        }
    } else if c == 'v' || c == 'V' {
        if any_answers(ps, Query::VerticalEnd, x, y - 1) || any_answers(
            ps,
            Query::VerticalThrough,
            x,
            y - 1,
        ) {
            Some(deco_at(x, y, DecorationType::Arrow, Heading::Down))
        } else {
            None
        }
    } else {
        None
    }
}

/// Some neighbour of `(x, y)` holds a line glyph running towards it: solid
/// horizontal left or right, solid vertical above or below, `/` down-left or
/// up-right, `\` up-left or down-right.
pub open spec fn line_adjacent(rows: Seq<Seq<char>>, x: int, y: int) -> bool {
    ||| solid_h_char(char_in(rows, x - 1, y))
    ||| solid_h_char(char_in(rows, x + 1, y))
    ||| solid_v_char(char_in(rows, x, y - 1))
    ||| solid_v_char(char_in(rows, x, y + 1))
    ||| forward_diag_char(char_in(rows, x - 1, y + 1))
    ||| forward_diag_char(char_in(rows, x + 1, y - 1))
    ||| back_diag_char(char_in(rows, x - 1, y - 1))
    ||| back_diag_char(char_in(rows, x + 1, y + 1))
}

/// The point a glyph at `(x, y)` makes: `*` and `o` only next to a line,
/// the other five point glyphs always.
pub open spec fn point_at(rows: Seq<Seq<char>>, x: int, y: int) -> Option<Decoration> {
    let c = char_in(rows, x, y);
    if c == '*' && line_adjacent(rows, x, y) {
        Some(deco_at(x, y, DecorationType::ClosedPoint, Heading::Right))
    } else if c == 'o' && line_adjacent(rows, x, y) {
        Some(deco_at(x, y, DecorationType::OpenPoint, Heading::Right))
    } else if c == '◌' {
        Some(deco_at(x, y, DecorationType::DottedPoint, Heading::Right))
    } else if c == '○' {
        Some(deco_at(x, y, DecorationType::OpenPoint, Heading::Right))
    } else if c == '◍' {
        Some(deco_at(x, y, DecorationType::ShadedPoint, Heading::Right))
    } else if c == '●' {
        Some(deco_at(x, y, DecorationType::ClosedPoint, Heading::Right))
    } else if c == '⊕' {
        Some(deco_at(x, y, DecorationType::XorPoint, Heading::Right))
    } else {
        None
    }
}

/// The jump a `(` or `)` at `(x, y)` makes when a vertical path crosses its
/// cell; the bridge spans half a cell above and below the centre.
pub open spec fn jump_at(rows: Seq<Seq<char>>, ps: Seq<Path>, x: int, y: int) -> Option<Decoration> {
    if jump_char(char_in(rows, x, y)) && any_answers(ps, Query::VerticalThrough, x, y) {
        Some(
            Decoration {
                jump_from: Some(cell_offset(x, y, 0, -1)),
                jump_to: Some(cell_offset(x, y, 0, 1)),
                ..deco_at(x, y, DecorationType::Jump, Heading::Right)
            },
        )
    } else {
        None
    }
}

/// What pass `pass` yields at `(x, y)`, ignoring whether the cell is consumed.
pub open spec fn decoration_for(
    pass: DecorationPass,
    rows: Seq<Seq<char>>,
    ps: Seq<Path>,
    x: int,
    y: int,
) -> Option<Decoration> {
    let c = char_in(rows, x, y);
    match pass {
        DecorationPass::Arrows => arrow_at(rows, ps, x, y),
        DecorationPass::Points => point_at(rows, x, y),
        DecorationPass::Jumps => jump_at(rows, ps, x, y),
        DecorationPass::Grays => if gray_char(c) {
            Some(deco_at(x, y, DecorationType::Gray(gray_level_of(c)), Heading::Right))
        } else {
            None
        },
        DecorationPass::Triangles => if tri_char(c) {
            Some(
                deco_at(x, y, DecorationType::Triangle, heading_of_degrees(tri_angle_of(c))),
            )
        } else {
            None
        },
    }
}

/// What pass `pass` yields at `(x, y)`: nothing on a consumed cell.
pub open spec fn pass_at(
    pass: DecorationPass,
    rows: Seq<Seq<char>>,
    marks: Seq<Seq<bool>>,
    ps: Seq<Path>,
    x: int,
    y: int,
) -> Option<Decoration> {
    if mark_in(marks, x, y) {
        None
    } else {
        decoration_for(pass, rows, ps, x, y)
    }
}

pub open spec fn opt_seq<T>(o: Option<T>) -> Seq<T> {
    match o {
        Some(v) => seq![v],
        None => Seq::empty(),
    }
}

pub open spec fn pass_fn(
    pass: DecorationPass,
    rows: Seq<Seq<char>>,
    marks: Seq<Seq<bool>>,
    ps: Seq<Path>,
) -> spec_fn(int, int) -> Seq<Decoration> {
    |x: int, y: int| opt_seq(pass_at(pass, rows, marks, ps, x, y))
}

fn decide(pass: DecorationPass, grid: &Grid, paths: &PathSet, x: i32, y: i32) -> (r: Option<
    Decoration,
>)
    requires
        grid.wf(),
        0 <= x <= MAX_DIM,
        0 <= y <= MAX_DIM,
    ensures
        r == decoration_for(pass, grid.rows(), paths@, x as int, y as int),
{
    let c = grid.get(x, y);
    match pass {
        DecorationPass::Arrows => {
            if c == '>' {
                if paths.horizontal_ends_at(x - 1, y) || paths.horizontal_passes_through(x - 1, y) {
                    Some(Decoration::arrow(x, y, Heading::Right))
                } else if paths.answers_at(Query::ForwardUpperEnd, x - 1, y + 1) {
                    Some(Decoration::arrow(x, y, Heading::UpRight))
                } else if paths.answers_at(Query::BackLowerEnd, x - 1, y - 1) {
                    Some(Decoration::arrow(x, y, Heading::DownRight))
                } else {
                    None
                }
            } else if c == '<' {
                if paths.horizontal_ends_at(x + 1, y) || paths.horizontal_passes_through(x + 1, y) {
                    Some(Decoration::arrow(x, y, Heading::Left))
                } else if paths.answers_at(Query::ForwardLowerEnd, x + 1, y - 1) {
                    Some(Decoration::arrow(x, y, Heading::DownLeft))
                } else if paths.answers_at(Query::BackUpperEnd, x + 1, y + 1) {
                    Some(Decoration::arrow(x, y, Heading::UpLeft))
                } else {
                    None
                }
            } else if c == '^' {
                if paths.vertical_ends_at(x, y + 1) || paths.vertical_passes_through(x, y + 1) {
                    Some(Decoration::arrow(x, y, Heading::Up))
                } else {
                    None
                }
            } else if c == 'v' || c == 'V' {
                if paths.vertical_ends_at(x, y - 1) || paths.vertical_passes_through(x, y - 1) {
                    Some(Decoration::arrow(x, y, Heading::Down))
                } else {
                    None
                }
            } else {
                None
            }
        },
        DecorationPass::Points => {
            let adjacent = is_solid_h_line(grid.get(x - 1, y)) || is_solid_h_line(grid.get(x + 1, y))
                || is_solid_v_line(grid.get(x, y - 1)) || is_solid_v_line(grid.get(x, y + 1))
                || is_solid_d_line(grid.get(x - 1, y + 1)) || is_solid_d_line(grid.get(x + 1, y - 1))
                || is_solid_b_line(grid.get(x - 1, y - 1)) || is_solid_b_line(grid.get(x + 1, y + 1));
            if c == '*' && adjacent {
                Some(Decoration::closed_point(x, y))
            } else if c == 'o' && adjacent {
                Some(Decoration::open_point(x, y))
            } else if c == '◌' {
                Some(Decoration::dotted_point(x, y))
            } else if c == '○' {
                Some(Decoration::open_point(x, y))
            } else if c == '◍' {
                Some(Decoration::shaded_point(x, y))
            } else if c == '●' {
                Some(Decoration::closed_point(x, y))
            } else if c == '⊕' {
                Some(Decoration::xor_point(x, y))
            } else {
                None
            }
        },
        DecorationPass::Jumps => {
            if is_jump(c) && paths.vertical_passes_through(x, y) {
                let from = Pos::from_grid_offset(x, y, 0, -1);
                let to = Pos::from_grid_offset(x, y, 0, 1);
                Some(Decoration::jump(x, y, from, to))
            } else {
                None
            }
        },
        DecorationPass::Grays => {
            if is_gray(c) {
                Some(Decoration::gray(x, y, c))
            } else {
                None
            }
        },
        DecorationPass::Triangles => {
            if is_tri(c) {
                Some(Decoration::triangle(x, y, c))
            } else {
                None
            }
        },
    }
}

/// Runs decoration pass `pass` over the grid in row-major order. Consumed
/// cells are skipped; a cell that yields a decoration is consumed.
pub fn run_decoration_pass(
    grid: &mut Grid,
    paths: &PathSet,
    decorations: &mut DecorationSet,
    pass: DecorationPass,
)
    requires
        old(grid).wf(),
    ensures
        final(grid).wf(),
        final(grid).same_chars(&*old(grid)),
        final(decorations)@ == old(decorations)@ + grid_items(
            pass_fn(pass, old(grid).rows(), old(grid).marks(), paths@),
            old(grid).width as int,
            old(grid).height as int,
        ),
        forall|a: int, b: int|
            #[trigger] final(grid).used_at(a, b) == (old(grid).used_at(a, b) || (old(
                grid,
            ).in_bounds(a, b) && pass_at(pass, old(grid).rows(), old(grid).marks(), paths@, a, b)
                is Some)),
{
    let ghost g0 = *old(grid);
    let ghost rows = g0.rows();
    let ghost m0 = g0.marks();
    let ghost d0 = old(decorations)@;
    let ghost f = pass_fn(pass, rows, m0, paths@);
    let w = grid.width as i32;
    let h = grid.height as i32;
    let mut y: i32 = 0;
    while y < h
        invariant
            0 <= y <= h,
            w == g0.width,
            h == g0.height,
            rows == g0.rows(),
            m0 == g0.marks(),
            f == pass_fn(pass, rows, m0, paths@),
            g0.wf(),
            grid.wf(),
            grid.same_chars(&g0),
            decorations@ == d0 + grid_items(f, w as int, y as int),
            forall|a: int, b: int|
                #[trigger] grid.used_at(a, b) == (g0.used_at(a, b) || (g0.in_bounds(a, b) && b
                    < y && pass_at(pass, rows, m0, paths@, a, b) is Some)),
        decreases h - y,
    {
        let mut x: i32 = 0;
        while x < w
            invariant
                0 <= x <= w,
                0 <= y < h,
                w == g0.width,
                h == g0.height,
                rows == g0.rows(),
                m0 == g0.marks(),
                f == pass_fn(pass, rows, m0, paths@),
                g0.wf(),
                grid.wf(),
                grid.same_chars(&g0),
                decorations@ == d0 + grid_items(f, w as int, y as int) + row_items(
                    f,
                    y as int,
                    x as int,
                ),
                forall|a: int, b: int|
                    #[trigger] grid.used_at(a, b) == (g0.used_at(a, b) || (g0.in_bounds(a, b)
                        && before(a, b, x as int, y as int) && pass_at(pass, rows, m0, paths@, a, b)
                        is Some)),
            decreases w - x,
        {
            let ghost before_decos = decorations@;
            assert(grid.used_at(x as int, y as int) == g0.used_at(x as int, y as int));
            if !grid.is_used(x, y) {
                match decide(pass, grid, paths, x, y) {
                    Some(d) => {
                        decorations.insert(d);
                        grid.set_used(x, y);
                    },
                    None => {},
                }
            }
            assert(decorations@ =~= before_decos + opt_seq(
                pass_at(pass, rows, m0, paths@, x as int, y as int),
            ));
            assert(decorations@ =~= d0 + grid_items(f, w as int, y as int) + row_items(
                f,
                y as int,
                x + 1,
            ));
            x += 1;
        }
        assert(decorations@ =~= d0 + grid_items(f, w as int, y + 1));
        y += 1;
    }
}

/// Decoration pass 1: arrowheads that a line ends at or runs through.
pub fn find_arrow_heads(grid: &mut Grid, paths: &PathSet, decorations: &mut DecorationSet)
    requires
        old(grid).wf(),
    ensures
        final(grid).wf(),
        final(grid).same_chars(&*old(grid)),
        final(decorations)@ == old(decorations)@ + grid_items(
            pass_fn(DecorationPass::Arrows, old(grid).rows(), old(grid).marks(), paths@),
            old(grid).width as int,
            old(grid).height as int,
        ),
        forall|a: int, b: int|
            #[trigger] final(grid).used_at(a, b) == (old(grid).used_at(a, b) || (old(
                grid,
            ).in_bounds(a, b) && pass_at(
                DecorationPass::Arrows,
                old(grid).rows(),
                old(grid).marks(),
                paths@,
                a,
                b,
            ) is Some)),
{
    run_decoration_pass(grid, paths, decorations, DecorationPass::Arrows);
}

/// Decoration pass 2: points; `*` and `o` only next to a line glyph.
pub fn find_points(grid: &mut Grid, paths: &PathSet, decorations: &mut DecorationSet)
    requires
        old(grid).wf(),
    ensures
        final(grid).wf(),
        final(grid).same_chars(&*old(grid)),
        final(decorations)@ == old(decorations)@ + grid_items(
            pass_fn(DecorationPass::Points, old(grid).rows(), old(grid).marks(), paths@),
            old(grid).width as int,
            old(grid).height as int,
        ),
        forall|a: int, b: int|
            #[trigger] final(grid).used_at(a, b) == (old(grid).used_at(a, b) || (old(
                grid,
            ).in_bounds(a, b) && pass_at(
                DecorationPass::Points,
                old(grid).rows(),
                old(grid).marks(),
                paths@,
                a,
                b,
            ) is Some)),
{
    run_decoration_pass(grid, paths, decorations, DecorationPass::Points);
}

/// Decoration pass 3: jumps, where a vertical path crosses a `(` or `)`.
pub fn find_jumps(grid: &mut Grid, paths: &PathSet, decorations: &mut DecorationSet)
    requires
        old(grid).wf(),
    ensures
        final(grid).wf(),
        final(grid).same_chars(&*old(grid)),
        final(decorations)@ == old(decorations)@ + grid_items(
            pass_fn(DecorationPass::Jumps, old(grid).rows(), old(grid).marks(), paths@),
            old(grid).width as int,
            old(grid).height as int,
        ),
        forall|a: int, b: int|
            #[trigger] final(grid).used_at(a, b) == (old(grid).used_at(a, b) || (old(
                grid,
            ).in_bounds(a, b) && pass_at(
                DecorationPass::Jumps,
                old(grid).rows(),
                old(grid).marks(),
                paths@,
                a,
                b,
            ) is Some)),
{
    run_decoration_pass(grid, paths, decorations, DecorationPass::Jumps);
}

/// Decoration pass 4: every gray fill glyph.
pub fn find_gray_fills(grid: &mut Grid, decorations: &mut DecorationSet)
    requires
        old(grid).wf(),
    ensures
        final(grid).wf(),
        final(grid).same_chars(&*old(grid)),
        final(decorations)@ == old(decorations)@ + grid_items(
            pass_fn(DecorationPass::Grays, old(grid).rows(), old(grid).marks(), Seq::empty()),
            old(grid).width as int,
            old(grid).height as int,
        ),
        forall|a: int, b: int|
            #[trigger] final(grid).used_at(a, b) == (old(grid).used_at(a, b) || (old(
                grid,
            ).in_bounds(a, b) && pass_at(
                DecorationPass::Grays,
                old(grid).rows(),
                old(grid).marks(),
                Seq::empty(),
                a,
                b,
            ) is Some)),
{
    let none = PathSet::new();
    run_decoration_pass(grid, &none, decorations, DecorationPass::Grays);
}

/// Decoration pass 5: every triangle glyph.
pub fn find_triangles(grid: &mut Grid, decorations: &mut DecorationSet)
    requires
        old(grid).wf(),
    ensures
        final(grid).wf(),
        final(grid).same_chars(&*old(grid)),
        final(decorations)@ == old(decorations)@ + grid_items(
            pass_fn(DecorationPass::Triangles, old(grid).rows(), old(grid).marks(), Seq::empty()),
            old(grid).width as int,
            old(grid).height as int,
        ),
        forall|a: int, b: int|
            #[trigger] final(grid).used_at(a, b) == (old(grid).used_at(a, b) || (old(
                grid,
            ).in_bounds(a, b) && pass_at(
                DecorationPass::Triangles,
                old(grid).rows(),
                old(grid).marks(),
                Seq::empty(),
                a,
                b,
            ) is Some)),
{
    let none = PathSet::new();
    run_decoration_pass(grid, &none, decorations, DecorationPass::Triangles);
}

/// The decoration pass that runs `i`-th: arrowheads, points, jumps, gray
/// fills, then triangles.
pub open spec fn pass_order(i: int) -> DecorationPass {
    if i == 0 {
        DecorationPass::Arrows
    } else if i == 1 {
        DecorationPass::Points
    } else if i == 2 {
        DecorationPass::Jumps
    } else if i == 3 {
        DecorationPass::Grays
    } else {
        DecorationPass::Triangles
    }
}

/// What the first `n` decoration passes find on a grid whose consumed cells
/// are `marks`, pass after pass.
pub open spec fn passes_items(
    rows: Seq<Seq<char>>,
    marks: Seq<Seq<bool>>,
    ps: Seq<Path>,
    w: int,
    h: int,
    n: int,
) -> Seq<Decoration>
    decreases n,
{
    if n <= 0 {
        Seq::empty()
    } else {
        passes_items(rows, marks, ps, w, h, n - 1) + grid_items(
            pass_fn(pass_order(n - 1), rows, marks, ps),
            w,
            h,
        )
    }
}

/// One of the first `n` decoration passes yields a decoration at `(a, b)`.
pub open spec fn passes_mark(
    rows: Seq<Seq<char>>,
    marks: Seq<Seq<bool>>,
    ps: Seq<Path>,
    n: int,
    a: int,
    b: int,
) -> bool
    decreases n,
{
    n > 0 && (passes_mark(rows, marks, ps, n - 1, a, b) || pass_at(
        pass_order(n - 1),
        rows,
        marks,
        ps,
        a,
        b,
    ) is Some)
}

/// Everything the decoration passes find on a grid whose consumed cells are
/// `marks`, in pass order.
pub open spec fn found_decorations(
    rows: Seq<Seq<char>>,
    marks: Seq<Seq<bool>>,
    ps: Seq<Path>,
    w: int,
    h: int,
) -> Seq<Decoration> {
    passes_items(rows, marks, ps, w, h, 5)
}

/// Some decoration pass yields a decoration at `(a, b)`.
pub open spec fn decoration_marks(
    rows: Seq<Seq<char>>,
    marks: Seq<Seq<bool>>,
    ps: Seq<Path>,
    a: int,
    b: int,
) -> bool {
    passes_mark(rows, marks, ps, 5, a, b)
}

/// Two different decoration passes never claim the same glyph.
proof fn lemma_passes_disjoint(
    p: DecorationPass,
    q: DecorationPass,
    rows: Seq<Seq<char>>,
    ps: Seq<Path>,
    x: int,
    y: int,
)
    requires
        p != q,
        decoration_for(p, rows, ps, x, y) is Some,
    ensures
        decoration_for(q, rows, ps, x, y) is None,
{
}

/// A pass sees the same cells under `m1` as under `m0` when the two differ
/// only where the pass yields nothing anyway.
proof fn lemma_pass_same_marks(
    pass: DecorationPass,
    rows: Seq<Seq<char>>,
    m0: Seq<Seq<bool>>,
    m1: Seq<Seq<bool>>,
    ps: Seq<Path>,
)
    requires
        forall|a: int, b: int|
            #[trigger] mark_in(m1, a, b) != mark_in(m0, a, b) ==> decoration_for(
                pass,
                rows,
                ps,
                a,
                b,
            ) is None,
    ensures
        pass_fn(pass, rows, m1, ps) == pass_fn(pass, rows, m0, ps),
{
    let f1 = pass_fn(pass, rows, m1, ps);
    let f0 = pass_fn(pass, rows, m0, ps);
    assert forall|a: int, b: int| #[trigger] f1(a, b) == f0(a, b) by {
        if mark_in(m1, a, b) != mark_in(m0, a, b) {
            assert(decoration_for(pass, rows, ps, a, b) is None);
        }
    }
    assert(f1 =~= f0);
}

/// A cell an earlier pass claims is one that a later pass would not take.
pub proof fn lemma_earlier_passes_exclude(
    rows: Seq<Seq<char>>,
    m: Seq<Seq<bool>>,
    ps: Seq<Path>,
    n: int,
    k: int,
    a: int,
    b: int,
)
    requires
        passes_mark(rows, m, ps, n, a, b),
        n <= k < 5,
    ensures
        decoration_for(pass_order(k), rows, ps, a, b) is None,
    decreases n,
{
    if passes_mark(rows, m, ps, n - 1, a, b) {
        lemma_earlier_passes_exclude(rows, m, ps, n - 1, k, a, b);
    } else {
        lemma_passes_disjoint(pass_order(n - 1), pass_order(k), rows, ps, a, b);
    }
}

/// Runs the five decoration passes in their fixed order: arrowheads,
/// points, jumps, gray fills, triangles. They run after every path pass, so
/// they can ask about the finished paths.
pub fn find_decorations(grid: &mut Grid, paths: &PathSet, decorations: &mut DecorationSet)
    requires
        old(grid).wf(),
    ensures
        final(grid).wf(),
        final(grid).same_chars(&*old(grid)),
        final(decorations)@ == old(decorations)@ + found_decorations(
            old(grid).rows(),
            old(grid).marks(),
            paths@,
            old(grid).width as int,
            old(grid).height as int,
        ),
        forall|a: int, b: int|
            #[trigger] final(grid).used_at(a, b) == (old(grid).used_at(a, b) || (old(
                grid,
            ).in_bounds(a, b) && decoration_marks(old(grid).rows(), old(grid).marks(), paths@, a, b))),
{
    let ghost g0 = *old(grid);
    let ghost rows = g0.rows();
    let ghost m0 = g0.marks();
    let ghost ps = paths@;
    let ghost d0 = old(decorations)@;
    let ghost w = g0.width as int;
    let ghost h = g0.height as int;
    let mut n: usize = 0;
    while n < 5
        invariant
            n <= 5,
            rows == g0.rows(),
            m0 == g0.marks(),
            ps == paths@,
            w == g0.width,
            h == g0.height,
            g0.wf(),
            grid.wf(),
            grid.same_chars(&g0),
            decorations@ == d0 + passes_items(rows, m0, ps, w, h, n as int),
            forall|a: int, b: int|
                #[trigger] grid.used_at(a, b) == (g0.used_at(a, b) || (g0.in_bounds(a, b)
                    && passes_mark(rows, m0, ps, n as int, a, b))),
        decreases 5 - n,
    {
        let pass = match n {
            0 => DecorationPass::Arrows,
            1 => DecorationPass::Points,
            2 => DecorationPass::Jumps,
            3 => DecorationPass::Grays,
            _ => DecorationPass::Triangles,
        };
        let ghost gp = *grid;
        proof {
            assert(pass == pass_order(n as int));
            assert forall|a: int, b: int| #[trigger]
                mark_in(gp.marks(), a, b) != mark_in(m0, a, b) implies decoration_for(
                pass,
                rows,
                ps,
                a,
                b,
            ) is None by {
                assert(gp.used_at(a, b) != g0.used_at(a, b));
                lemma_earlier_passes_exclude(rows, m0, ps, n as int, n as int, a, b);
            }
            lemma_pass_same_marks(pass, rows, m0, gp.marks(), ps);
        }
        run_decoration_pass(grid, paths, decorations, pass);
        proof {
            assert(decorations@ =~= d0 + passes_items(rows, m0, ps, w, h, n + 1));
            assert forall|a: int, b: int|
                #[trigger] grid.used_at(a, b) == (g0.used_at(a, b) || (g0.in_bounds(a, b)
                    && passes_mark(rows, m0, ps, n + 1, a, b))) by {
                let f = pass_fn(pass, rows, m0, ps);
                assert(pass_fn(pass, rows, gp.marks(), ps)(a, b) == f(a, b));
                assert(f(a, b) == opt_seq(pass_at(pass, rows, m0, ps, a, b)));
                assert(pass_fn(pass, rows, gp.marks(), ps)(a, b) == opt_seq(
                    pass_at(pass, rows, gp.marks(), ps, a, b),
                ));
                assert(pass_at(pass, rows, gp.marks(), ps, a, b) is Some <==> pass_at(
                    pass,
                    rows,
                    m0,
                    ps,
                    a,
                    b,
                ) is Some);
            }
        }
        n += 1;
    }
}

} // verus!
