//! Recognised line and curve paths, and the queries later scanners ask of them.
//!
//! Positions are kept in half-cell units: the centre of grid cell `(x, y)`
//! is `(2x, 2y)`, so the half-cell offsets used by corners and underscores
//! stay exact. Scaling to drawing units belongs to the renderer.
use vstd::prelude::*;

verus! {

/// A point in half-cell units.
#[derive(Clone, Copy, Debug, PartialEq, Eq, Structural)]
pub struct Pos {
    pub x: i64,
    pub y: i64,
}

/// The centre of grid cell `(x, y)`.
pub open spec fn cell_pos(x: int, y: int) -> Pos {
    Pos { x: (2 * x) as i64, y: (2 * y) as i64 }
}

/// The centre of `(x, y)` moved by `(dx, dy)` half cells.
pub open spec fn cell_offset(x: int, y: int, dx: int, dy: int) -> Pos {
    Pos { x: (2 * x + dx) as i64, y: (2 * y + dy) as i64 }
}

impl Pos {
    /// The centre of grid cell `(x, y)`.
    pub fn from_grid(x: i32, y: i32) -> (r: Pos)
        ensures
            r == cell_pos(x as int, y as int),
    {
        Pos { x: 2 * (x as i64), y: 2 * (y as i64) }
    }

    /// The centre of grid cell `(x, y)` moved by `(dx, dy)` half cells.
    pub fn from_grid_offset(x: i32, y: i32, dx: i8, dy: i8) -> (r: Pos)
        ensures
            r == cell_offset(x as int, y as int, dx as int, dy as int),
    {
        Pos { x: 2 * (x as i64) + dx as i64, y: 2 * (y as i64) + dy as i64 }
    }
}

/// A straight segment, or a curve with two control points.
#[derive(Clone, Copy, Debug)]
pub struct Path {
    pub start: Pos,
    pub end: Pos,
    /// Control points of a curve; `None` for a straight segment.
    pub ctrl: Option<(Pos, Pos)>,
    /// Drawn with a double stroke.
    pub double: bool,
    /// Drawn as a wave.
    pub squiggle: bool,
}

pub open spec fn straight(a: Pos, b: Pos) -> Path {
    Path { start: a, end: b, ctrl: None, double: false, squiggle: false }
}

pub open spec fn curve_path(a: Pos, b: Pos, c1: Pos, c2: Pos) -> Path {
    Path { start: a, end: b, ctrl: Some((c1, c2)), double: false, squiggle: false }
}

impl Path {
    /// A plain straight segment from `a` to `b`.
    pub fn line(a: Pos, b: Pos) -> (r: Path)
        ensures
            r == straight(a, b),
    {
        Path { start: a, end: b, ctrl: None, double: false, squiggle: false }
    }

    /// A plain straight segment between the centres of two cells.
    pub fn line_from_grid(x0: i32, y0: i32, x1: i32, y1: i32) -> (r: Path)
        ensures
            r == straight(cell_pos(x0 as int, y0 as int), cell_pos(x1 as int, y1 as int)),
    {
        Path::line(Pos::from_grid(x0, y0), Pos::from_grid(x1, y1))
    }

    /// A curve from `a` to `b` with control points `c1` and `c2`.
    pub fn curve(a: Pos, b: Pos, c1: Pos, c2: Pos) -> (r: Path)
        ensures
            r == curve_path(a, b, c1, c2),
    {
        Path { start: a, end: b, ctrl: Some((c1, c2)), double: false, squiggle: false }
    }

    /// The same path with the double-stroke flag set to `d`.
    pub fn with_double(self, d: bool) -> (r: Path)
        ensures
            r == (Path { double: d, ..self }),
    {
        Path { double: d, ..self }
    }

    /// The same path with the squiggle flag set to `s`.
    pub fn with_squiggle(self, s: bool) -> (r: Path)
        ensures
            r == (Path { squiggle: s, ..self }),
    {
        Path { squiggle: s, ..self }
    }

    /// Whether this is a curve.
    pub fn is_curved(&self) -> (r: bool)
        ensures
            r == self.ctrl is Some,
    {
        self.ctrl.is_some()
    }
}

// ---------------------------------------------------------------------------
// Geometric queries
// ---------------------------------------------------------------------------

pub open spec fn is_horizontal(p: Path) -> bool {
    p.ctrl is None && p.start.y == p.end.y
}

pub open spec fn is_vertical(p: Path) -> bool {
    p.ctrl is None && p.start.x == p.end.x
}

/// A straight `/` segment: x grows as y shrinks.
pub open spec fn is_forward_diagonal(p: Path) -> bool {
    p.ctrl is None && p.end.x - p.start.x == p.start.y - p.end.y && p.end.x != p.start.x
}

/// A straight `\` segment: x and y grow together.
pub open spec fn is_back_diagonal(p: Path) -> bool {
    p.ctrl is None && p.end.x - p.start.x == p.end.y - p.start.y && p.end.x != p.start.x
}

/// The end with the smaller y.
pub open spec fn upper_end(p: Path) -> Pos {
    if p.start.y <= p.end.y {
        p.start
    } else {
        p.end
    }
}

/// The end with the larger y.
pub open spec fn lower_end(p: Path) -> Pos {
    if p.start.y <= p.end.y {
        p.end
    } else {
        p.start
    }
}

pub open spec fn strictly_between(v: int, a: int, b: int) -> bool {
    (a < v && v < b) || (b < v && v < a)
}

/// The kinds of question the decoration scanners ask about a cell.
#[derive(Clone, Copy, Debug, PartialEq, Eq, Structural)]
pub enum Query {
    /// A horizontal path has an end at the cell.
    HorizontalEnd,
    /// A horizontal path crosses the cell without ending there.
    HorizontalThrough,
    /// A vertical path has an end at the cell.
    VerticalEnd,
    /// A vertical path crosses the cell without ending there.
    VerticalThrough,
    /// A `/` path has its upper end at the cell.
    ForwardUpperEnd,
    /// A `/` path has its lower end at the cell.
    ForwardLowerEnd,
    /// A `\` path has its upper end at the cell.
    BackUpperEnd,
    /// A `\` path has its lower end at the cell.
    BackLowerEnd,
}

pub open spec fn answers(q: Query, p: Path, x: int, y: int) -> bool {
    let c = cell_pos(x, y);
    match q {
        Query::HorizontalEnd => is_horizontal(p) && (p.start == c || p.end == c),
        Query::HorizontalThrough => is_horizontal(p) && p.start.y == 2 * y && strictly_between(
            2 * x,
            p.start.x as int,
            p.end.x as int,
        ),
        Query::VerticalEnd => is_vertical(p) && (p.start == c || p.end == c),
        Query::VerticalThrough => is_vertical(p) && p.start.x == 2 * x && strictly_between(
            2 * y,
            p.start.y as int,
            p.end.y as int,
        ),
        Query::ForwardUpperEnd => is_forward_diagonal(p) && upper_end(p) == c,
        Query::ForwardLowerEnd => is_forward_diagonal(p) && lower_end(p) == c,
        Query::BackUpperEnd => is_back_diagonal(p) && upper_end(p) == c,
        Query::BackLowerEnd => is_back_diagonal(p) && lower_end(p) == c,
    }
}

/// Some path of `ps` answers `q` at `(x, y)`.
pub open spec fn any_answers(ps: Seq<Path>, q: Query, x: int, y: int) -> bool {
    exists|i: int| 0 <= i < ps.len() && answers(q, #[trigger] ps[i], x, y)
}

fn pos_eq(a: Pos, b: Pos) -> (r: bool)
    ensures
        r == (a == b),
{
    a.x == b.x && a.y == b.y
}

fn between(v: i64, a: i64, b: i64) -> (r: bool)
    ensures
        r == strictly_between(v as int, a as int, b as int),
{
    (a < v && v < b) || (b < v && v < a)
}

fn path_answers(q: Query, p: &Path, x: i32, y: i32) -> (r: bool)
    ensures
        r == answers(q, *p, x as int, y as int),
{
    let c = Pos::from_grid(x, y);
    let straight = p.ctrl.is_none();
    let dx = p.end.x as i128 - p.start.x as i128;
    let dy = p.end.y as i128 - p.start.y as i128;
    let fwd = straight && dx == -dy && dx != 0;
    let back = straight && dx == dy && dx != 0;
    let upper = if p.start.y <= p.end.y {
        p.start
    } else {
        p.end
    };
    let lower = if p.start.y <= p.end.y {
        p.end
    } else {
        p.start
    };
    match q {
        Query::HorizontalEnd => straight && p.start.y == p.end.y && (pos_eq(p.start, c) || pos_eq(
            p.end,
            c,
        )),
        Query::HorizontalThrough => straight && p.start.y == p.end.y && p.start.y == c.y
            && between(c.x, p.start.x, p.end.x),
        Query::VerticalEnd => straight && p.start.x == p.end.x && (pos_eq(p.start, c) || pos_eq(
            p.end,
            c,
        )),
        Query::VerticalThrough => straight && p.start.x == p.end.x && p.start.x == c.x && between(
            c.y,
            p.start.y,
            p.end.y,
        ),
        Query::ForwardUpperEnd => fwd && pos_eq(upper, c),
        Query::ForwardLowerEnd => fwd && pos_eq(lower, c),
        Query::BackUpperEnd => back && pos_eq(upper, c),
        Query::BackLowerEnd => back && pos_eq(lower, c),
    }
}

/// Ordered, append-only collection of paths.
pub struct PathSet {
    pub paths: Vec<Path>,
}

impl View for PathSet {
    type V = Seq<Path>;

    open spec fn view(&self) -> Seq<Path> {
        self.paths@
    }
}

impl PathSet {
    /// An empty collection.
    pub fn new() -> (r: PathSet)
        ensures
            r@ == Seq::<Path>::empty(),
    {
        PathSet { paths: Vec::new() }
    }

    /// Appends `p`.
    pub fn insert(&mut self, p: Path)
        ensures
            final(self)@ == old(self)@.push(p),
    {
        self.paths.push(p);
    }

    /// Number of paths.
    pub fn len(&self) -> (r: usize)
        ensures
            r == self@.len(),
    {
        self.paths.len()
    }

    /// Whether there are no paths.
    pub fn is_empty(&self) -> (r: bool)
        ensures
            r == (self@.len() == 0),
    {
        self.paths.len() == 0
    }

    /// The `i`-th path in insertion order.
    pub fn get(&self, i: usize) -> (r: Path)
        requires
            i < self@.len(),
        ensures
            r == self@[i as int],
    {
        self.paths[i]
    }

    /// Whether some path answers `q` at cell `(x, y)`.
    pub fn answers_at(&self, q: Query, x: i32, y: i32) -> (r: bool)
        ensures
            r == any_answers(self@, q, x as int, y as int),
    {
        let mut i: usize = 0;
        while i < self.paths.len()
            invariant
                i <= self.paths.len(),
                forall|j: int| 0 <= j < i ==> !answers(q, #[trigger] self.paths@[j], x as int, y as int),
            decreases self.paths.len() - i,
        {
            if path_answers(q, &self.paths[i], x, y) {
                return true;
            }
            i += 1;
        }
        false
    }

    /// A horizontal path has an end at `(x, y)`.
    pub fn horizontal_ends_at(&self, x: i32, y: i32) -> (r: bool)
        ensures
            r == any_answers(self@, Query::HorizontalEnd, x as int, y as int),
    {
        self.answers_at(Query::HorizontalEnd, x, y)
    }

    /// A horizontal path crosses `(x, y)` without ending there.
    pub fn horizontal_passes_through(&self, x: i32, y: i32) -> (r: bool)
        ensures
            r == any_answers(self@, Query::HorizontalThrough, x as int, y as int),
    {
        self.answers_at(Query::HorizontalThrough, x, y)
    }

    /// A vertical path has an end at `(x, y)`.
    pub fn vertical_ends_at(&self, x: i32, y: i32) -> (r: bool)
        ensures
            r == any_answers(self@, Query::VerticalEnd, x as int, y as int),
    {
        self.answers_at(Query::VerticalEnd, x, y)
    }

    /// A vertical path crosses `(x, y)` without ending there.
    pub fn vertical_passes_through(&self, x: i32, y: i32) -> (r: bool)
        ensures
            r == any_answers(self@, Query::VerticalThrough, x as int, y as int),
    {
        self.answers_at(Query::VerticalThrough, x, y)
    }
}

} // verus!
