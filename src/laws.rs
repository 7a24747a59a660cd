//! Properties that hold of every diagram, proved over the passes' contracts.
use vstd::prelude::*;

use crate::finder::{
    continues_run, decoration_for, grid_items, pass_order, passes_items, passes_mark, kind_marks, lemma_kind_lane, lemma_run_len_bounds, lemma_run_span, lemma_run_steps,
    lemma_start_continues, on_lane, in_run, kind_lane, kind_paths, lane_count,
    lane_paths, lane_x, lane_y, min_run, opt_seq, pass_at, pass_fn, row_items, run_len, run_path,
    starts_run, sweep, DecorationPass, Lane, LineKind,
};
use crate::decoration::Decoration;
use crate::finder::{corner_fn, corner_paths, decoration_marks, found_decorations, found_paths, path_marks};
use crate::grid::{char_in, mark_in, MAX_DIM};
use crate::marks_after_paths;
use crate::normalize::{hidden, hide_line, unhidden};
use crate::path::{cell_pos, strictly_between, Path};

verus! {

/// Path `p` comes from a run of kind `k` of `n` cells starting at step `j`
/// of lane `l`.
pub open spec fn from_run(rows: Seq<Seq<char>>, k: LineKind, l: Lane, j: int, n: int, p: Path) -> bool {
    &&& 0 <= j
    &&& starts_run(k, crate::finder::lane_char(rows, l, j))
    &&& !in_run(rows, k, l, j - 1)
    &&& run_len(rows, k, l, j) == n
    &&& min_run(k) <= n
    &&& j + n <= l.len
    &&& p == run_path(rows, k, lane_x(l, j), lane_y(l, j), lane_x(l, j + n - 1), lane_y(l, j + n - 1))
}

/// The run of lane `l`, at or after step `i`, that path `q` of
/// `lane_paths(rows, k, l, i)` comes from: its first step and its length.
proof fn lemma_lane_path_run(rows: Seq<Seq<char>>, k: LineKind, l: Lane, i: int, q: int) -> (r: (
    int,
    int,
))
    requires
        0 <= i <= l.len,
        0 <= q < lane_paths(rows, k, l, i).len(),
        i < l.len && in_run(rows, k, l, i - 1) ==> !continues_run(
            k,
            crate::finder::lane_char(rows, l, i),
        ),
    ensures
        from_run(rows, k, l, r.0, r.1, lane_paths(rows, k, l, i)[q]),
    decreases l.len - i,
{
    let c = crate::finder::lane_char(rows, l, i);
    let all = lane_paths(rows, k, l, i);
    if i >= l.len {
        assert(all.len() == 0);
        (0, 0)
    } else if starts_run(k, c) {
        let n = run_len(rows, k, l, i);
        lemma_run_len_bounds(rows, k, l, i);
        lemma_run_len_bounds(rows, k, l, i + 1);
        assert(continues_run(k, c));
        assert(n >= 1);
        lemma_run_steps(rows, k, l, i, n, i + n - 1);
        if i + n < l.len {
            lemma_run_len_bounds(rows, k, l, i + n + 1);
            assert(!continues_run(k, crate::finder::lane_char(rows, l, i + n)));
        }
        let rest = lane_paths(rows, k, l, i + n);
        if n >= min_run(k) && q == 0 {
            (i, n)
        } else {
            let r = if n >= min_run(k) {
                q - 1
            } else {
                q
            };
            assert(all[q] == rest[r]);
            lemma_lane_path_run(rows, k, l, i + n, r)
        }
    } else {
        lemma_start_continues(k, c);
        assert(!in_run(rows, k, l, i));
        let rest = lane_paths(rows, k, l, i + 1);
        assert(all[q] == rest[q]);
        lemma_lane_path_run(rows, k, l, i + 1, q)
    }
}

/// Every path of the first `m` lanes of kind `k` comes from a run: the
/// result names its lane, first step and length; the run opens after a step
/// outside any run and has at least `min_run(k)` cells.
pub proof fn lemma_sweep_run(rows: Seq<Seq<char>>, k: LineKind, w: int, h: int, m: int, q: int) -> (r: (
    int,
    int,
    int,
))
    requires
        0 <= m <= lane_count(k, w, h),
        0 <= w,
        0 <= h,
        0 <= q < sweep(rows, k, w, h, m).len(),
    ensures
        0 <= r.0 < m,
        from_run(rows, k, kind_lane(k, w, h, r.0), r.1, r.2, sweep(rows, k, w, h, m)[q]),
    decreases m,
{
    if m <= 0 {
        assert(sweep(rows, k, w, h, m).len() == 0);
        (0, 0, 0)
    } else {
        let l = kind_lane(k, w, h, m - 1);
        let front = sweep(rows, k, w, h, m - 1);
        let last = lane_paths(rows, k, l, 0);
        let all = sweep(rows, k, w, h, m);
        assert(all == front + last);
        if q < front.len() {
            assert(all[q] == front[q]);
            lemma_sweep_run(rows, k, w, h, m - 1, q)
        } else {
            assert(all[q] == last[q - front.len()]);
            assert(!in_run(rows, k, l, -1));
            let (j, n) = lemma_lane_path_run(rows, k, l, 0, q - front.len());
            (m - 1, j, n)
        }
    }
}

/// The place, in the paths of lane `l` from step `i` on, of the path of
/// the run that opens at step `j`.
proof fn lemma_lane_run_found(rows: Seq<Seq<char>>, k: LineKind, l: Lane, i: int, j: int) -> (q: int)
    requires
        0 <= i <= j < l.len,
        in_run(rows, k, l, i - 1) ==> !continues_run(k, crate::finder::lane_char(rows, l, i)),
        starts_run(k, crate::finder::lane_char(rows, l, j)),
        !in_run(rows, k, l, j - 1),
        run_len(rows, k, l, j) >= min_run(k),
    ensures
        0 <= q < lane_paths(rows, k, l, i).len(),
        lane_paths(rows, k, l, i)[q] == run_path(
            rows,
            k,
            lane_x(l, j),
            lane_y(l, j),
            lane_x(l, j + run_len(rows, k, l, j) - 1),
            lane_y(l, j + run_len(rows, k, l, j) - 1),
        ),
    decreases l.len - i,
{
    let c = crate::finder::lane_char(rows, l, i);
    let all = lane_paths(rows, k, l, i);
    if starts_run(k, c) {
        let n = run_len(rows, k, l, i);
        lemma_start_continues(k, c);
        lemma_run_len_bounds(rows, k, l, i);
        lemma_run_len_bounds(rows, k, l, i + 1);
        assert(n >= 1);
        if i == j {
            0
        } else {
            assert(j >= i + n) by {
                if j < i + n {
                    lemma_run_span(rows, k, l, i, n, j - 1);
                }
            }
            lemma_run_steps(rows, k, l, i, n, i + n - 1);
            if i + n < l.len {
                lemma_run_len_bounds(rows, k, l, i + n + 1);
            }
            let rest = lane_paths(rows, k, l, i + n);
            let q2 = lemma_lane_run_found(rows, k, l, i + n, j);
            if n >= min_run(k) {
                assert(all[q2 + 1] == rest[q2]);
                q2 + 1
            } else {
                q2
            }
        }
    } else {
        lemma_start_continues(k, c);
        assert(!in_run(rows, k, l, i));
        lemma_lane_run_found(rows, k, l, i + 1, j)
    }
}

/// The place in the first `m` lanes' paths of path `q0` of lane `s`.
proof fn lemma_sweep_contains(
    rows: Seq<Seq<char>>,
    k: LineKind,
    w: int,
    h: int,
    m: int,
    s: int,
    q0: int,
) -> (q: int)
    requires
        0 <= s < m,
        0 <= q0 < lane_paths(rows, k, kind_lane(k, w, h, s), 0).len(),
    ensures
        0 <= q < sweep(rows, k, w, h, m).len(),
        sweep(rows, k, w, h, m)[q] == lane_paths(rows, k, kind_lane(k, w, h, s), 0)[q0],
    decreases m,
{
    let front = sweep(rows, k, w, h, m - 1);
    let last = lane_paths(rows, k, kind_lane(k, w, h, m - 1), 0);
    assert(sweep(rows, k, w, h, m) == front + last);
    if s == m - 1 {
        front.len() + q0
    } else {
        lemma_sweep_contains(rows, k, w, h, m - 1, s, q0)
    }
}

/// Every run of kind `k` that is long enough becomes a path of the pass: on
/// lane `s`, a run opening at step `j` (after a step that lies in no run)
/// with at least `min_run(k)` cells yields the path `run_path` makes of its
/// first and last cells, wherever the run lies. With `lemma_sweep_run`,
/// the paths of a pass are exactly those of its long enough runs.
pub proof fn lemma_runs_become_paths(rows: Seq<Seq<char>>, k: LineKind, w: int, h: int, s: int, j: int) -> (q: int)
    requires
        0 <= w,
        0 <= h,
        0 <= s < lane_count(k, w, h),
        0 <= j < kind_lane(k, w, h, s).len,
        starts_run(k, crate::finder::lane_char(rows, kind_lane(k, w, h, s), j)),
        !in_run(rows, k, kind_lane(k, w, h, s), j - 1),
        run_len(rows, k, kind_lane(k, w, h, s), j) >= min_run(k),
    ensures
        0 <= q < kind_paths(rows, k, w, h).len(),
        kind_paths(rows, k, w, h)[q] == run_path(
            rows,
            k,
            lane_x(kind_lane(k, w, h, s), j),
            lane_y(kind_lane(k, w, h, s), j),
            lane_x(kind_lane(k, w, h, s), j + run_len(rows, k, kind_lane(k, w, h, s), j) - 1),
            lane_y(kind_lane(k, w, h, s), j + run_len(rows, k, kind_lane(k, w, h, s), j) - 1),
        ),
{
    let l = kind_lane(k, w, h, s);
    assert(!in_run(rows, k, l, -1));
    let q0 = lemma_lane_run_found(rows, k, l, 0, j);
    lemma_sweep_contains(rows, k, w, h, lane_count(k, w, h), s, q0)
}

/// Every `/` path runs from its bottom-left cell up to its top-right cell,
/// whichever end the scan met first: its first end lies left of and below
/// its second, one cell across for each cell up.
pub proof fn lemma_forward_diagonals_oriented(rows: Seq<Seq<char>>, w: int, h: int)
    requires
        0 <= w <= MAX_DIM,
        0 <= h <= MAX_DIM,
    ensures
        forall|q: int|
            0 <= q < kind_paths(rows, LineKind::ForwardDiagonal, w, h).len() ==> {
                let p = #[trigger] kind_paths(rows, LineKind::ForwardDiagonal, w, h)[q];
                &&& p.ctrl is None
                &&& p.start.x < p.end.x
                &&& p.start.y > p.end.y
                &&& p.end.x - p.start.x == p.start.y - p.end.y
            },
{
    let k = LineKind::ForwardDiagonal;
    let all = kind_paths(rows, k, w, h);
    assert forall|q: int| 0 <= q < all.len() implies {
        let p = #[trigger] all[q];
        &&& p.ctrl is None
        &&& p.start.x < p.end.x
        &&& p.start.y > p.end.y
        &&& p.end.x - p.start.x == p.start.y - p.end.y
    } by {
        let (s, j, n) = lemma_sweep_run(rows, k, w, h, lane_count(k, w, h), q);
        let l = kind_lane(k, w, h, s);
        let ax = lane_x(l, j);
        let ay = lane_y(l, j);
        let bx = lane_x(l, j + n - 1);
        let by = lane_y(l, j + n - 1);
        assert(0 <= bx < ax <= MAX_DIM);
        assert(0 <= ay < by <= 2 * MAX_DIM);
        assert(all[q] == crate::path::straight(cell_pos(bx, by), cell_pos(ax, ay)));
    }
}

/// A solid, squiggle, diagonal or underscore run of a single cell never
/// becomes a path: each such path spans two distinct ends. A double-line
/// run of a single cell does become one.
pub proof fn lemma_run_minimums(rows: Seq<Seq<char>>, k: LineKind, w: int, h: int)
    requires
        0 <= w <= MAX_DIM,
        0 <= h <= MAX_DIM,
    ensures
        k != LineKind::DoubleVertical && k != LineKind::DoubleHorizontal ==> forall|q: int|
            0 <= q < kind_paths(rows, k, w, h).len() ==> #[trigger] kind_paths(rows, k, w, h)[q].start
                != kind_paths(rows, k, w, h)[q].end,
        min_run(LineKind::DoubleVertical) == 1 && min_run(LineKind::DoubleHorizontal) == 1,
{
    let all = kind_paths(rows, k, w, h);
    if k != LineKind::DoubleVertical && k != LineKind::DoubleHorizontal {
        assert forall|q: int| 0 <= q < all.len() implies #[trigger] all[q].start != all[q].end by {
            let (s, j, n) = lemma_sweep_run(rows, k, w, h, lane_count(k, w, h), q);
            let l = kind_lane(k, w, h, s);
            let ax = lane_x(l, j);
            let ay = lane_y(l, j);
            let bx = lane_x(l, j + n - 1);
            let by = lane_y(l, j + n - 1);
            assert(0 <= ax <= MAX_DIM && 0 <= bx <= MAX_DIM);
            assert(0 <= ay <= 2 * MAX_DIM && 0 <= by <= 2 * MAX_DIM);
            assert(ax != bx || ay != by);
        }
    }
}

/// The cell that item `q` of `row_items(f, y, x)` comes from, and its
/// place among that cell's items.
proof fn lemma_row_item_origin<T>(f: spec_fn(int, int) -> Seq<T>, y: int, x: int, q: int) -> (r: (
    int,
    int,
))
    requires
        0 <= q < row_items(f, y, x).len(),
    ensures
        0 <= r.0 < x,
        0 <= r.1 < f(r.0, y).len(),
        row_items(f, y, x)[q] == f(r.0, y)[r.1],
    decreases x,
{
    if x <= 0 {
        assert(row_items(f, y, x).len() == 0);
        (0, 0)
    } else {
        let front = row_items(f, y, x - 1);
        let all = row_items(f, y, x);
        assert(all == front + f(x - 1, y));
        if q < front.len() {
            assert(all[q] == front[q]);
            lemma_row_item_origin(f, y, x - 1, q)
        } else {
            assert(all[q] == f(x - 1, y)[q - front.len()]);
            (x - 1, q - front.len())
        }
    }
}

/// The cell that item `q` of `grid_items(f, w, y)` comes from, and its
/// place among that cell's items.
proof fn lemma_grid_item_origin<T>(f: spec_fn(int, int) -> Seq<T>, w: int, y: int, q: int) -> (r: (
    int,
    int,
    int,
))
    requires
        0 <= q < grid_items(f, w, y).len(),
    ensures
        0 <= r.0 < w,
        0 <= r.1 < y,
        0 <= r.2 < f(r.0, r.1).len(),
        grid_items(f, w, y)[q] == f(r.0, r.1)[r.2],
    decreases y,
{
    if y <= 0 {
        assert(grid_items(f, w, y).len() == 0);
        (0, 0, 0)
    } else {
        let front = grid_items(f, w, y - 1);
        let all = grid_items(f, w, y);
        assert(all == front + row_items(f, y - 1, w));
        if q < front.len() {
            assert(all[q] == front[q]);
            lemma_grid_item_origin(f, w, y - 1, q)
        } else {
            assert(all[q] == row_items(f, y - 1, w)[q - front.len()]);
            let (x, i) = lemma_row_item_origin(f, y - 1, w, q - front.len());
            (x, y - 1, i)
        }
    }
}

/// A decoration sits on a non-blank cell.
proof fn lemma_decoration_glyph(
    pass: DecorationPass,
    rows: Seq<Seq<char>>,
    ps: Seq<Path>,
    a: int,
    b: int,
)
    requires
        decoration_for(pass, rows, ps, a, b) is Some,
    ensures
        char_in(rows, a, b) != ' ',
        decoration_for(pass, rows, ps, a, b)->0.pos == cell_pos(a, b),
{
}

/// The cell that decoration `q` found by pass `pass` sits on.
proof fn lemma_pass_origin(
    pass: DecorationPass,
    rows: Seq<Seq<char>>,
    m: Seq<Seq<bool>>,
    ps: Seq<Path>,
    w: int,
    h: int,
    q: int,
) -> (r: (int, int))
    requires
        0 <= q < grid_items(pass_fn(pass, rows, m, ps), w, h).len(),
    ensures
        0 <= r.0 < w,
        0 <= r.1 < h,
        pass_at(pass, rows, m, ps, r.0, r.1) is Some,
        char_in(rows, r.0, r.1) != ' ',
        grid_items(pass_fn(pass, rows, m, ps), w, h)[q].pos == cell_pos(r.0, r.1),
{
    let f = pass_fn(pass, rows, m, ps);
    let (a, b, i) = lemma_grid_item_origin(f, w, h, q);
    assert(f(a, b) == opt_seq(pass_at(pass, rows, m, ps, a, b)));
    lemma_decoration_glyph(pass, rows, ps, a, b);
    (a, b)
}

/// The centre of cell `(a, b)` lies on straight path `p`, strictly between
/// its two ends.
pub open spec fn strictly_inside(p: Path, a: int, b: int) -> bool {
    let sx = p.start.x as int;
    let sy = p.start.y as int;
    let ex = p.end.x as int;
    let ey = p.end.y as int;
    p.ctrl is None && if sy == ey {
        2 * b == sy && strictly_between(2 * a, sx, ex)
    } else if sx == ex {
        2 * a == sx && strictly_between(2 * b, sy, ey)
    } else if ex - sx == ey - sy {
        2 * a - sx == 2 * b - sy && strictly_between(2 * a, sx, ex)
    } else if ex - sx == sy - ey {
        2 * a - sx == sy - 2 * b && strictly_between(2 * a, sx, ex)
    } else {
        false
    }
}

/// A cell strictly inside a path of kind `k` is consumed by that pass and
/// holds a line glyph.
proof fn lemma_straight_claims(rows: Seq<Seq<char>>, k: LineKind, w: int, h: int, q: int, a: int, b: int)
    requires
        0 <= w <= MAX_DIM,
        0 <= h <= MAX_DIM,
        0 <= q < kind_paths(rows, k, w, h).len(),
        strictly_inside(kind_paths(rows, k, w, h)[q], a, b),
    ensures
        kind_marks(rows, k, w, h, a, b),
        char_in(rows, a, b) != ' ',
{
    let p = kind_paths(rows, k, w, h)[q];
    let (s, j, n) = lemma_sweep_run(rows, k, w, h, lane_count(k, w, h), q);
    let l = kind_lane(k, w, h, s);
    lemma_kind_lane(k, w, h, s);
    lemma_run_steps(rows, k, l, j, n, j + n - 1);
    let ax = lane_x(l, j);
    let ay = lane_y(l, j);
    let bx = lane_x(l, j + n - 1);
    let by = lane_y(l, j + n - 1);
    assert(0 <= ax < w && 0 <= ay < h);
    assert(0 <= bx < w && 0 <= by < h);
    let t = if l.dy > 0 {
        b - l.y0
    } else {
        a - l.x0
    };
    assert(j <= t < j + n && lane_x(l, t) == a && lane_y(l, t) == b);
    lemma_run_span(rows, k, l, j, n, t);
    assert(on_lane(l, a, b));
}

/// The cells a path claims: those strictly inside a straight path, and the
/// corner cell of a curve, where its control points sit.
pub open spec fn path_claims(p: Path, a: int, b: int) -> bool {
    match p.ctrl {
        Some(c) => c.0 == cell_pos(a, b),
        None => strictly_inside(p, a, b),
    }
}

/// The cell a decoration claims: the one it is centred on.
pub open spec fn decoration_claims(d: Decoration, a: int, b: int) -> bool {
    d.pos == cell_pos(a, b)
}

proof fn lemma_kind_paths_straight(rows: Seq<Seq<char>>, k: LineKind, w: int, h: int, q: int)
    requires
        0 <= w,
        0 <= h,
        0 <= q < kind_paths(rows, k, w, h).len(),
    ensures
        kind_paths(rows, k, w, h)[q].ctrl is None,
{
    lemma_sweep_run(rows, k, w, h, lane_count(k, w, h), q);
}

proof fn lemma_kind_claims(rows: Seq<Seq<char>>, k: LineKind, w: int, h: int, q: int, a: int, b: int)
    requires
        0 <= w <= MAX_DIM,
        0 <= h <= MAX_DIM,
        0 <= q < kind_paths(rows, k, w, h).len(),
        path_claims(kind_paths(rows, k, w, h)[q], a, b),
    ensures
        kind_marks(rows, k, w, h, a, b),
        char_in(rows, a, b) != ' ',
{
    lemma_kind_paths_straight(rows, k, w, h, q);
    lemma_straight_claims(rows, k, w, h, q, a, b);
}

proof fn lemma_corner_claims(rows: Seq<Seq<char>>, w: int, h: int, q: int, a: int, b: int)
    requires
        0 <= w <= MAX_DIM,
        0 <= h <= MAX_DIM,
        -MAX_DIM <= a <= MAX_DIM,
        -MAX_DIM <= b <= MAX_DIM,
        0 <= q < grid_items(corner_fn(rows), w, h).len(),
        path_claims(grid_items(corner_fn(rows), w, h)[q], a, b),
    ensures
        0 <= a < w && 0 <= b < h,
        corner_paths(rows, a, b).len() > 0,
        char_in(rows, a, b) != ' ',
{
    let f = corner_fn(rows);
    let (x, y, i) = lemma_grid_item_origin(f, w, h, q);
    assert(f(x, y) == corner_paths(rows, x, y));
    let p = corner_paths(rows, x, y)[i];
    assert(p.ctrl == Some((cell_pos(x, y), cell_pos(x, y))));
    assert(x == a && y == b);
}

/// Every cell that a path or a decoration found on a fresh grid claims is
/// consumed by the passes and holds a non-blank glyph, so no text run read
/// afterwards can take it.
pub proof fn lemma_claimed_cells_consumed(rows: Seq<Seq<char>>, w: int, h: int, a: int, b: int)
    requires
        0 <= w <= MAX_DIM,
        0 <= h <= MAX_DIM,
        -MAX_DIM <= a <= MAX_DIM,
        -MAX_DIM <= b <= MAX_DIM,
    ensures
        forall|q: int|
            0 <= q < found_paths(rows, w, h).len() && path_claims(
                #[trigger] found_paths(rows, w, h)[q],
                a,
                b,
            ) ==> 0 <= a < w && 0 <= b < h && path_marks(rows, w, h, a, b) && char_in(rows, a, b)
                != ' ',
        forall|q: int|
            0 <= q < found_decorations(
                rows,
                marks_after_paths(rows, w, h),
                found_paths(rows, w, h),
                w,
                h,
            ).len() && decoration_claims(
                #[trigger] found_decorations(
                    rows,
                    marks_after_paths(rows, w, h),
                    found_paths(rows, w, h),
                    w,
                    h,
                )[q],
                a,
                b,
            ) ==> 0 <= a < w && 0 <= b < h && decoration_marks(
                rows,
                marks_after_paths(rows, w, h),
                found_paths(rows, w, h),
                a,
                b,
            ) && char_in(rows, a, b) != ' ',
{
    let ps = found_paths(rows, w, h);
    let k1 = kind_paths(rows, LineKind::SolidVertical, w, h);
    let k2 = kind_paths(rows, LineKind::DoubleVertical, w, h);
    let k3 = kind_paths(rows, LineKind::SolidHorizontal, w, h);
    let k4 = kind_paths(rows, LineKind::Squiggle, w, h);
    let k5 = kind_paths(rows, LineKind::DoubleHorizontal, w, h);
    let k6 = kind_paths(rows, LineKind::BackDiagonal, w, h);
    let k7 = kind_paths(rows, LineKind::ForwardDiagonal, w, h);
    let cs = grid_items(corner_fn(rows), w, h);
    let k9 = kind_paths(rows, LineKind::Underscore, w, h);
    assert(ps == k1 + k2 + k3 + k4 + k5 + k6 + k7 + cs + k9);
    assert forall|q: int|
        0 <= q < ps.len() && path_claims(#[trigger] ps[q], a, b) implies 0 <= a < w && 0 <= b < h
        && path_marks(rows, w, h, a, b) && char_in(rows, a, b) != ' ' by {
        let n1 = k1.len() as int;
        let n2 = n1 + k2.len();
        let n3 = n2 + k3.len();
        let n4 = n3 + k4.len();
        let n5 = n4 + k5.len();
        let n6 = n5 + k6.len();
        let n7 = n6 + k7.len();
        let n8 = n7 + cs.len();
        if q < n1 {
            assert(ps[q] == k1[q]);
            lemma_kind_claims(rows, LineKind::SolidVertical, w, h, q, a, b);
        } else if q < n2 {
            assert(ps[q] == k2[q - n1]);
            lemma_kind_claims(rows, LineKind::DoubleVertical, w, h, q - n1, a, b);
        } else if q < n3 {
            assert(ps[q] == k3[q - n2]);
            lemma_kind_claims(rows, LineKind::SolidHorizontal, w, h, q - n2, a, b);
        } else if q < n4 {
            assert(ps[q] == k4[q - n3]);
            lemma_kind_claims(rows, LineKind::Squiggle, w, h, q - n3, a, b);
        } else if q < n5 {
            assert(ps[q] == k5[q - n4]);
            lemma_kind_claims(rows, LineKind::DoubleHorizontal, w, h, q - n4, a, b);
        } else if q < n6 {
            assert(ps[q] == k6[q - n5]);
            lemma_kind_claims(rows, LineKind::BackDiagonal, w, h, q - n5, a, b);
        } else if q < n7 {
            assert(ps[q] == k7[q - n6]);
            lemma_kind_claims(rows, LineKind::ForwardDiagonal, w, h, q - n6, a, b);
        } else if q < n8 {
            assert(ps[q] == cs[q - n7]);
            lemma_corner_claims(rows, w, h, q - n7, a, b);
        } else {
            assert(ps[q] == k9[q - n8]);
            lemma_kind_claims(rows, LineKind::Underscore, w, h, q - n8, a, b);
        }
    }
    let m = marks_after_paths(rows, w, h);
    let ds = found_decorations(rows, m, ps, w, h);
    assert forall|q: int|
        0 <= q < ds.len() && decoration_claims(#[trigger] ds[q], a, b) implies 0 <= a < w && 0
        <= b < h && decoration_marks(rows, m, ps, a, b) && char_in(rows, a, b) != ' ' by {
        let (x, y) = lemma_decoration_origin(rows, m, ps, w, h, q);
        assert(x == a && y == b);
    }
}

/// Decoration `q` found on a grid whose consumed cells are `m` sits on a
/// non-blank cell `r` of the grid that was not consumed before the
/// decoration passes and that they consume, so no later reading of text
/// takes it.
pub proof fn lemma_decoration_origin(
    rows: Seq<Seq<char>>,
    m: Seq<Seq<bool>>,
    ps: Seq<Path>,
    w: int,
    h: int,
    q: int,
) -> (r: (int, int))
    requires
        0 <= q < found_decorations(rows, m, ps, w, h).len(),
    ensures
        0 <= r.0 < w,
        0 <= r.1 < h,
        found_decorations(rows, m, ps, w, h)[q].pos == cell_pos(r.0, r.1),
        !mark_in(m, r.0, r.1),
        decoration_marks(rows, m, ps, r.0, r.1),
        char_in(rows, r.0, r.1) != ' ',
{
    lemma_passes_origin(rows, m, ps, w, h, 5, q)
}

/// The cell that decoration `q` of the first `n` decoration passes sits on.
proof fn lemma_passes_origin(
    rows: Seq<Seq<char>>,
    m: Seq<Seq<bool>>,
    ps: Seq<Path>,
    w: int,
    h: int,
    n: int,
    q: int,
) -> (r: (int, int))
    requires
        0 <= q < passes_items(rows, m, ps, w, h, n).len(),
    ensures
        0 <= r.0 < w,
        0 <= r.1 < h,
        passes_items(rows, m, ps, w, h, n)[q].pos == cell_pos(r.0, r.1),
        !mark_in(m, r.0, r.1),
        passes_mark(rows, m, ps, n, r.0, r.1),
        char_in(rows, r.0, r.1) != ' ',
    decreases n,
{
    if n <= 0 {
        assert(passes_items(rows, m, ps, w, h, n).len() == 0);
        (0, 0)
    } else {
        let front = passes_items(rows, m, ps, w, h, n - 1);
        let last = grid_items(pass_fn(pass_order(n - 1), rows, m, ps), w, h);
        assert(passes_items(rows, m, ps, w, h, n) == front + last);
        if q < front.len() {
            assert(passes_items(rows, m, ps, w, h, n)[q] == front[q]);
            lemma_passes_origin(rows, m, ps, w, h, n - 1, q)
        } else {
            assert(passes_items(rows, m, ps, w, h, n)[q] == last[q - front.len()]);
            lemma_pass_origin(pass_order(n - 1), rows, m, ps, w, h, q - front.len())
        }
    }
}

/// Position `p` comes before `q` in row-major order.
pub open spec fn pos_before(p: crate::path::Pos, q: crate::path::Pos) -> bool {
    p.y < q.y || (p.y == q.y && p.x < q.x)
}

/// The decorations one pass finds in the first `x` cells of row `y` lie in
/// that row, left to right.
proof fn lemma_row_positions(
    pass: DecorationPass,
    rows: Seq<Seq<char>>,
    m: Seq<Seq<bool>>,
    ps: Seq<Path>,
    y: int,
    x: int,
)
    requires
        0 <= y <= MAX_DIM,
        0 <= x <= MAX_DIM,
    ensures
        forall|q: int|
            0 <= q < row_items(pass_fn(pass, rows, m, ps), y, x).len() ==> {
                let p = #[trigger] row_items(pass_fn(pass, rows, m, ps), y, x)[q].pos;
                p.y == 2 * y && 0 <= p.x < 2 * x
            },
        forall|q1: int, q2: int|
            0 <= q1 < q2 < row_items(pass_fn(pass, rows, m, ps), y, x).len() ==> #[trigger] row_items(
                pass_fn(pass, rows, m, ps),
                y,
                x,
            )[q1].pos.x < #[trigger] row_items(pass_fn(pass, rows, m, ps), y, x)[q2].pos.x,
    decreases x,
{
    let f = pass_fn(pass, rows, m, ps);
    if x > 0 {
        lemma_row_positions(pass, rows, m, ps, y, x - 1);
        let front = row_items(f, y, x - 1);
        let all = row_items(f, y, x);
        assert(all == front + f(x - 1, y));
        assert(f(x - 1, y) == opt_seq(pass_at(pass, rows, m, ps, x - 1, y)));
        if pass_at(pass, rows, m, ps, x - 1, y) is Some {
            lemma_decoration_glyph(pass, rows, ps, x - 1, y);
        }
        assert forall|q: int| 0 <= q < all.len() implies {
            let p = #[trigger] all[q].pos;
            p.y == 2 * y && 0 <= p.x < 2 * x
        } by {
            if q < front.len() {
                assert(all[q] == front[q]);
            }
        }
        assert forall|q1: int, q2: int| 0 <= q1 < q2 < all.len() implies #[trigger] all[q1].pos.x
            < #[trigger] all[q2].pos.x by {
            assert(all[q1] == front[q1]);
            if q2 < front.len() {
                assert(all[q2] == front[q2]);
            }
        }
    } else {
        assert(row_items(f, y, x).len() == 0);
    }
}

/// The decorations one pass finds in the first `y` rows lie in those rows,
/// in row-major order.
proof fn lemma_grid_positions(
    pass: DecorationPass,
    rows: Seq<Seq<char>>,
    m: Seq<Seq<bool>>,
    ps: Seq<Path>,
    w: int,
    y: int,
)
    requires
        0 <= y <= MAX_DIM,
        0 <= w <= MAX_DIM,
    ensures
        forall|q: int|
            0 <= q < grid_items(pass_fn(pass, rows, m, ps), w, y).len() ==> {
                let p = #[trigger] grid_items(pass_fn(pass, rows, m, ps), w, y)[q].pos;
                0 <= p.y < 2 * y
            },
        forall|q1: int, q2: int|
            0 <= q1 < q2 < grid_items(pass_fn(pass, rows, m, ps), w, y).len() ==> pos_before(
                #[trigger] grid_items(pass_fn(pass, rows, m, ps), w, y)[q1].pos,
                #[trigger] grid_items(pass_fn(pass, rows, m, ps), w, y)[q2].pos,
            ),
    decreases y,
{
    let f = pass_fn(pass, rows, m, ps);
    if y > 0 {
        lemma_grid_positions(pass, rows, m, ps, w, y - 1);
        lemma_row_positions(pass, rows, m, ps, y - 1, w);
        let front = grid_items(f, w, y - 1);
        let row = row_items(f, y - 1, w);
        let all = grid_items(f, w, y);
        assert(all == front + row);
        assert forall|q: int| 0 <= q < all.len() implies {
            let p = #[trigger] all[q].pos;
            0 <= p.y < 2 * y
        } by {
            if q < front.len() {
                assert(all[q] == front[q]);
            } else {
                assert(all[q] == row[q - front.len()]);
            }
        }
        assert forall|q1: int, q2: int| 0 <= q1 < q2 < all.len() implies pos_before(
            #[trigger] all[q1].pos,
            #[trigger] all[q2].pos,
        ) by {
            if q2 < front.len() {
                assert(all[q1] == front[q1]);
                assert(all[q2] == front[q2]);
            } else if q1 < front.len() {
                assert(all[q1] == front[q1]);
                assert(all[q2] == row[q2 - front.len()]);
            } else {
                assert(all[q1] == row[q1 - front.len()]);
                assert(all[q2] == row[q2 - front.len()]);
            }
        }
    } else {
        assert(grid_items(f, w, y).len() == 0);
    }
}

/// No two decorations of the first `n` passes share a cell.
proof fn lemma_passes_distinct(
    rows: Seq<Seq<char>>,
    m: Seq<Seq<bool>>,
    ps: Seq<Path>,
    w: int,
    h: int,
    n: int,
)
    requires
        0 <= w <= MAX_DIM,
        0 <= h <= MAX_DIM,
        n <= 5,
    ensures
        forall|q1: int, q2: int|
            0 <= q1 < q2 < passes_items(rows, m, ps, w, h, n).len() ==> #[trigger] passes_items(
                rows,
                m,
                ps,
                w,
                h,
                n,
            )[q1].pos != #[trigger] passes_items(rows, m, ps, w, h, n)[q2].pos,
    decreases n,
{
    if n > 0 {
        lemma_passes_distinct(rows, m, ps, w, h, n - 1);
        let pass = pass_order(n - 1);
        lemma_grid_positions(pass, rows, m, ps, w, h);
        let front = passes_items(rows, m, ps, w, h, n - 1);
        let last = grid_items(pass_fn(pass, rows, m, ps), w, h);
        let all = passes_items(rows, m, ps, w, h, n);
        assert(all == front + last);
        assert forall|q1: int, q2: int| 0 <= q1 < q2 < all.len() implies #[trigger] all[q1].pos
            != #[trigger] all[q2].pos by {
            if q2 < front.len() {
                assert(all[q1] == front[q1]);
                assert(all[q2] == front[q2]);
            } else if q1 >= front.len() {
                assert(all[q1] == last[q1 - front.len()]);
                assert(all[q2] == last[q2 - front.len()]);
            } else {
                assert(all[q1] == front[q1]);
                assert(all[q2] == last[q2 - front.len()]);
                let (a1, b1) = lemma_passes_origin(rows, m, ps, w, h, n - 1, q1);
                let (a2, b2) = lemma_pass_origin(pass, rows, m, ps, w, h, q2 - front.len());
                if a1 == a2 && b1 == b2 {
                    crate::finder::lemma_earlier_passes_exclude(rows, m, ps, n - 1, n - 1, a1, b1);
                }
            }
        }
    } else {
        assert(passes_items(rows, m, ps, w, h, n).len() == 0);
    }
}

/// No two decorations the decoration passes find share a cell.
pub proof fn lemma_decorations_distinct(
    rows: Seq<Seq<char>>,
    m: Seq<Seq<bool>>,
    ps: Seq<Path>,
    w: int,
    h: int,
)
    requires
        0 <= w <= MAX_DIM,
        0 <= h <= MAX_DIM,
    ensures
        forall|q1: int, q2: int|
            0 <= q1 < q2 < found_decorations(rows, m, ps, w, h).len() ==> #[trigger] found_decorations(
                rows,
                m,
                ps,
                w,
                h,
            )[q1].pos != #[trigger] found_decorations(rows, m, ps, w, h)[q2].pos,
{
    lemma_passes_distinct(rows, m, ps, w, h, 5);
}

/// One of the private-use characters that stand in for hidden markers.
pub open spec fn stand_in(c: char) -> bool {
    c == '\u{E000}' || c == '\u{E001}' || c == '\u{E002}'
}

/// Restoring the markers of a hidden line gives the line back.
proof fn lemma_hide_line_round_trip(l: Seq<char>)
    requires
        forall|i: int| 0 <= i < l.len() ==> !stand_in(#[trigger] l[i]),
    ensures
        unhidden(hide_line(l)) == l,
{
    assert(unhidden(hide_line(l)) =~= l);
}

/// Hiding the marker letters of a text and restoring them gives back the
/// text, as long as it holds no stand-in character of its own.
pub proof fn lemma_marker_round_trip(s: Seq<char>)
    requires
        forall|i: int| 0 <= i < s.len() ==> !stand_in(#[trigger] s[i]),
    ensures
        unhidden(hidden(s)) == s,
{
    lemma_hide_line_round_trip(s);
}

} // verus!
