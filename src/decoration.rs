//! Decorations: arrowheads, points, jumps, gray fills and triangles.
use vstd::prelude::*;

use crate::chars::{gray_level, gray_level_of, tri_angle, tri_angle_of};
use crate::path::{cell_pos, Pos};

verus! {

/// The kind of a decoration.
#[derive(Clone, Copy, Debug, PartialEq, Eq, Structural)]
pub enum DecorationType {
    /// Arrowhead.
    Arrow,
    /// Filled point (`*`, `●`).
    ClosedPoint,
    /// Open point (`o`, `○`).
    OpenPoint,
    /// Dotted point (`◌`).
    DottedPoint,
    /// Shaded point (`◍`).
    ShadedPoint,
    /// XOR point (`⊕`).
    XorPoint,
    /// Bridge of a horizontal line over a vertical one.
    Jump,
    /// Gray fill block of the given intensity.
    Gray(u8),
    /// Triangle.
    Triangle,
}

/// Where a decoration points. The four axis headings are 0, 90, 180 and 270
/// degrees, clockwise from pointing right; the diagonal ones follow the
/// slope of the line they end, whose angle depends on the renderer's cell
/// aspect ratio.
#[derive(Clone, Copy, Debug, PartialEq, Eq, Structural)]
pub enum Heading {
    Right,
    Down,
    Left,
    Up,
    UpRight,
    DownRight,
    DownLeft,
    UpLeft,
}

pub open spec fn heading_degrees(h: Heading) -> Option<u32> {
    match h {
        Heading::Right => Some(0),
        Heading::Down => Some(90),
        Heading::Left => Some(180),
        Heading::Up => Some(270),
        _ => None,
    }
}

/// The heading of a triangle rotated by `deg` degrees (0, 90, 180 or 270).
pub open spec fn heading_of_degrees(deg: u32) -> Heading {
    if deg == 90 {
        Heading::Down
    } else if deg == 180 {
        Heading::Left
    } else if deg == 270 {
        Heading::Up
    } else {
        Heading::Right
    }
}

/// A decoration centred on a grid cell.
#[derive(Clone, Copy, Debug)]
pub struct Decoration {
    /// Centre, in half-cell units.
    pub pos: Pos,
    pub kind: DecorationType,
    pub heading: Heading,
    /// For a jump: where the vertical line enters and leaves the bridge.
    pub jump_from: Option<Pos>,
    pub jump_to: Option<Pos>,
}

/// A decoration of kind `kind` at cell `(x, y)`.
pub open spec fn deco_at(x: int, y: int, kind: DecorationType, heading: Heading) -> Decoration {
    Decoration { pos: cell_pos(x, y), kind, heading, jump_from: None, jump_to: None }
}

impl Decoration {
    fn plain(x: i32, y: i32, kind: DecorationType, heading: Heading) -> (r: Decoration)
        ensures
            r == deco_at(x as int, y as int, kind, heading),
    {
        Decoration { pos: Pos::from_grid(x, y), kind, heading, jump_from: None, jump_to: None }
    }

    /// An arrowhead at `(x, y)` pointing along `heading`.
    pub fn arrow(x: i32, y: i32, heading: Heading) -> (r: Decoration)
        ensures
            r == deco_at(x as int, y as int, DecorationType::Arrow, heading),
    {
        Decoration::plain(x, y, DecorationType::Arrow, heading)
    }

    /// A filled point at `(x, y)`.
    pub fn closed_point(x: i32, y: i32) -> (r: Decoration)
        ensures
            r == deco_at(x as int, y as int, DecorationType::ClosedPoint, Heading::Right),
    {
        Decoration::plain(x, y, DecorationType::ClosedPoint, Heading::Right)
    }

    /// An open point at `(x, y)`.
    pub fn open_point(x: i32, y: i32) -> (r: Decoration)
        ensures
            r == deco_at(x as int, y as int, DecorationType::OpenPoint, Heading::Right),
    {
        Decoration::plain(x, y, DecorationType::OpenPoint, Heading::Right)
    }

    /// A dotted point at `(x, y)`.
    pub fn dotted_point(x: i32, y: i32) -> (r: Decoration)
        ensures
            r == deco_at(x as int, y as int, DecorationType::DottedPoint, Heading::Right),
    {
        Decoration::plain(x, y, DecorationType::DottedPoint, Heading::Right)
    }

    /// A shaded point at `(x, y)`.
    pub fn shaded_point(x: i32, y: i32) -> (r: Decoration)
        ensures
            r == deco_at(x as int, y as int, DecorationType::ShadedPoint, Heading::Right),
    {
        Decoration::plain(x, y, DecorationType::ShadedPoint, Heading::Right)
    }

    /// An XOR point at `(x, y)`.
    pub fn xor_point(x: i32, y: i32) -> (r: Decoration)
        ensures
            r == deco_at(x as int, y as int, DecorationType::XorPoint, Heading::Right),
    {
        Decoration::plain(x, y, DecorationType::XorPoint, Heading::Right)
    }

    /// A jump at `(x, y)` whose bridge runs from `from` to `to`.
    pub fn jump(x: i32, y: i32, from: Pos, to: Pos) -> (r: Decoration)
        ensures
            r == (Decoration {
                jump_from: Some(from),
                jump_to: Some(to),
                ..deco_at(x as int, y as int, DecorationType::Jump, Heading::Right)
            }),
    {
        Decoration {
            pos: Pos::from_grid(x, y),
            kind: DecorationType::Jump,
            heading: Heading::Right,
            jump_from: Some(from),
            jump_to: Some(to),
        }
    }

    /// A gray fill at `(x, y)` with the intensity of glyph `c`.
    pub fn gray(x: i32, y: i32, c: char) -> (r: Decoration)
        ensures
            r == deco_at(x as int, y as int, DecorationType::Gray(gray_level_of(c)), Heading::Right),
    {
        Decoration::plain(x, y, DecorationType::Gray(gray_level(c)), Heading::Right)
    }

    /// A triangle at `(x, y)` rotated as glyph `c` shows.
    pub fn triangle(x: i32, y: i32, c: char) -> (r: Decoration)
        ensures
            r == deco_at(
                x as int,
                y as int,
                DecorationType::Triangle,
                heading_of_degrees(tri_angle_of(c)),
            ),
    {
        let deg = tri_angle(c);
        let heading = if deg == 90 {
            Heading::Down
        } else if deg == 180 {
            Heading::Left
        } else if deg == 270 {
            Heading::Up
        } else {
            Heading::Right
        };
        Decoration::plain(x, y, DecorationType::Triangle, heading)
    }

    /// The rotation in degrees, clockwise from pointing right, for the four
    /// axis headings; `None` for a diagonal one.
    pub fn angle_degrees(&self) -> (r: Option<u32>)
        ensures
            r == heading_degrees(self.heading),
    {
        match self.heading {
            Heading::Right => Some(0),
            Heading::Down => Some(90),
            Heading::Left => Some(180),
            Heading::Up => Some(270),
            _ => None,
        }
    }
}

/// Ordered, append-only collection of decorations.
pub struct DecorationSet {
    pub decorations: Vec<Decoration>,
}

impl View for DecorationSet {
    type V = Seq<Decoration>;

    open spec fn view(&self) -> Seq<Decoration> {
        self.decorations@
    }
}

impl DecorationSet {
    /// An empty collection.
    pub fn new() -> (r: DecorationSet)
        ensures
            r@ == Seq::<Decoration>::empty(),
    {
        DecorationSet { decorations: Vec::new() }
    }

    /// Appends `d`.
    pub fn insert(&mut self, d: Decoration)
        ensures
            final(self)@ == old(self)@.push(d),
    {
        self.decorations.push(d);
    }

    /// Number of decorations.
    pub fn len(&self) -> (r: usize)
        ensures
            r == self@.len(),
    {
        self.decorations.len()
    }

    /// Whether there are no decorations.
    pub fn is_empty(&self) -> (r: bool)
        ensures
            r == (self@.len() == 0),
    {
        self.decorations.len() == 0
    }

    /// The `i`-th decoration in insertion order.
    pub fn get(&self, i: usize) -> (r: Decoration)
        requires
            i < self@.len(),
        ensures
            r == self@[i as int],
    {
        self.decorations[i]
    }
}

} // verus!
