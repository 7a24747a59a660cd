use aasvg::decoration::{Decoration, DecorationSet, DecorationType, Heading};
use aasvg::path::Pos;

#[test]
fn test_arrow_creation() {
    let arrow = Decoration::arrow(0, 0, Heading::Right);
    assert_eq!(arrow.kind, DecorationType::Arrow);
    assert_eq!(arrow.angle_degrees(), Some(0));
}

#[test]
fn test_point_creation() {
    let closed = Decoration::closed_point(1, 1);
    assert_eq!(closed.kind, DecorationType::ClosedPoint);

    let open = Decoration::open_point(2, 2);
    assert_eq!(open.kind, DecorationType::OpenPoint);
}

#[test]
fn test_decoration_set() {
    let mut set = DecorationSet::new();
    set.insert(Decoration::arrow(0, 0, Heading::Right));
    set.insert(Decoration::closed_point(1, 1));
    assert_eq!(set.len(), 2);
    assert!(!set.is_empty());
}

#[test]
fn jump_keeps_its_ends() {
    let from = Pos::from_grid_offset(3, 2, 0, -1);
    let to = Pos::from_grid_offset(3, 2, 0, 1);
    let jump = Decoration::jump(3, 2, from, to);
    assert_eq!(jump.pos, Pos { x: 6, y: 4 });
    assert_eq!(jump.jump_from, Some(Pos { x: 6, y: 3 }));
    assert_eq!(jump.jump_to, Some(Pos { x: 6, y: 5 }));
}

#[test]
fn gray_and_triangle_constructors() {
    assert_eq!(Decoration::gray(0, 0, '▂').kind, DecorationType::Gray(128));
    assert_eq!(Decoration::triangle(0, 0, '◤').heading, Heading::Left);
    assert_eq!(Decoration::arrow(0, 0, Heading::UpLeft).angle_degrees(), None);
}
