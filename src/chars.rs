//! Character classification: the role each glyph can play in a diagram.
//!
//! Every predicate is total over `char`; a glyph outside the known sets
//! gets `false`, level 0 or angle 0.
use vstd::prelude::*;

verus! {

// ---------------------------------------------------------------------------
// Vertex roles
// ---------------------------------------------------------------------------

pub open spec fn vertex_char(c: char) -> bool {
    c == '+' || c == '.' || c == '\'' || c == ',' || c == '`'
}

pub open spec fn top_vertex_char(c: char) -> bool {
    c == '.' || c == ',' || c == '+'
}

pub open spec fn bottom_vertex_char(c: char) -> bool {
    c == '\'' || c == '`' || c == '+'
}

/// True for the glyphs that join lines: `+ . ' , `` ` ``.
pub fn is_vertex(c: char) -> (r: bool)
    ensures
        r == vertex_char(c),
{
    c == '+' || c == '.' || c == '\'' || c == ',' || c == '`'
}

/// True for `+`, which joins lines in all four directions.
pub fn is_undirected_vertex(c: char) -> (r: bool)
    ensures
        r == (c == '+'),
{
    c == '+'
}

/// True when `c` can end a line arriving from below (`.`, `,` or `+`).
pub fn is_top_vertex(c: char) -> (r: bool)
    ensures
        r == top_vertex_char(c),
{
    c == '.' || c == ',' || c == '+'
}

/// True when `c` can end a line arriving from above (`'`, `` ` `` or `+`).
pub fn is_bottom_vertex(c: char) -> (r: bool)
    ensures
        r == bottom_vertex_char(c),
{
    c == '\'' || c == '`' || c == '+'
}

/// A top vertex or the upward arrow `^`.
pub fn is_top_vertex_or_decoration(c: char) -> (r: bool)
    ensures
        r == (top_vertex_char(c) || c == '^'),
{
    is_top_vertex(c) || c == '^'
}

/// A bottom vertex or one of the downward arrows `v`, `V`.
pub fn is_bottom_vertex_or_decoration(c: char) -> (r: bool)
    ensures
        r == (bottom_vertex_char(c) || c == 'v' || c == 'V'),
{
    is_bottom_vertex(c) || c == 'v' || c == 'V'
}

/// A vertex, the left arrow `<`, or a point glyph.
pub fn is_vertex_or_left_decoration(c: char) -> (r: bool)
    ensures
        r == (vertex_char(c) || c == '<' || point_char(c)),
{
    is_vertex(c) || c == '<' || is_point(c)
}

/// A vertex, the right arrow `>`, or a point glyph.
pub fn is_vertex_or_right_decoration(c: char) -> (r: bool)
    ensures
        r == (vertex_char(c) || c == '>' || point_char(c)),
{
    is_vertex(c) || c == '>' || is_point(c)
}

// ---------------------------------------------------------------------------
// Line roles
// ---------------------------------------------------------------------------

pub open spec fn solid_h_char(c: char) -> bool {
    c == '-' || c == '─' || c == '+' || c == '(' || c == ')'
}

pub open spec fn squiggle_h_char(c: char) -> bool {
    c == '~' || c == '+' || c == '(' || c == ')'
}

pub open spec fn double_h_char(c: char) -> bool {
    c == '=' || c == '═' || c == '+' || c == '(' || c == ')'
}

pub open spec fn solid_v_char(c: char) -> bool {
    c == '|' || c == '│' || c == '+'
}

pub open spec fn double_v_char(c: char) -> bool {
    c == '║' || c == '+'
}

pub open spec fn forward_diag_char(c: char) -> bool {
    c == '/' || c == '╱' || c == '+'
}

pub open spec fn back_diag_char(c: char) -> bool {
    c == '\\' || c == '╲' || c == '+'
}

/// Solid horizontal segment, or a glyph a solid horizontal line can cross.
pub fn is_solid_h_line(c: char) -> (r: bool)
    ensures
        r == solid_h_char(c),
{
    c == '-' || c == '─' || c == '+' || c == '(' || c == ')'
}

/// Squiggle (wave) horizontal segment, or a glyph it can cross.
pub fn is_squiggle_h_line(c: char) -> (r: bool)
    ensures
        r == squiggle_h_char(c),
{
    c == '~' || c == '+' || c == '(' || c == ')'
}

/// Double horizontal segment, or a glyph it can cross.
pub fn is_double_h_line(c: char) -> (r: bool)
    ensures
        r == double_h_char(c),
{
    c == '=' || c == '═' || c == '+' || c == '(' || c == ')'
}

pub open spec fn any_h_char(c: char) -> bool {
    solid_h_char(c) || squiggle_h_char(c) || double_h_char(c)
}

/// Any of the three horizontal line roles.
pub fn is_any_h_line(c: char) -> (r: bool)
    ensures
        r == any_h_char(c),
{
    is_solid_h_line(c) || is_squiggle_h_line(c) || is_double_h_line(c)
}

/// Solid vertical segment (`|`, `│`) or the junction `+`.
pub fn is_solid_v_line(c: char) -> (r: bool)
    ensures
        r == solid_v_char(c),
{
    c == '|' || c == '│' || c == '+'
}

/// Double vertical segment (`║`) or the junction `+`.
pub fn is_double_v_line(c: char) -> (r: bool)
    ensures
        r == double_v_char(c),
{
    c == '║' || c == '+'
}

/// Forward diagonal (`/`, `╱`) or the junction `+`.
pub fn is_solid_d_line(c: char) -> (r: bool)
    ensures
        r == forward_diag_char(c),
{
    c == '/' || c == '╱' || c == '+'
}

/// Back diagonal (`\`, `╲`) or the junction `+`.
pub fn is_solid_b_line(c: char) -> (r: bool)
    ensures
        r == back_diag_char(c),
{
    c == '\\' || c == '╲' || c == '+'
}

// ---------------------------------------------------------------------------
// Decoration roles
// ---------------------------------------------------------------------------

pub open spec fn gray_char(c: char) -> bool {
    c == '▁' || c == '▂' || c == '▃' || c == '█'
}

pub open spec fn tri_char(c: char) -> bool {
    c == '◢' || c == '◣' || c == '◤' || c == '◥'
}

pub open spec fn arrow_char(c: char) -> bool {
    c == '>' || c == 'v' || c == '<' || c == '^' || c == 'V'
}

pub open spec fn point_char(c: char) -> bool {
    c == 'o' || c == '*' || c == '◌' || c == '○' || c == '◍' || c == '●' || c == '⊕'
}

pub open spec fn jump_char(c: char) -> bool {
    c == '(' || c == ')'
}

/// One of the four gray fill glyphs.
pub fn is_gray(c: char) -> (r: bool)
    ensures
        r == gray_char(c),
{
    c == '▁' || c == '▂' || c == '▃' || c == '█'
}

/// One of the four triangle glyphs.
pub fn is_tri(c: char) -> (r: bool)
    ensures
        r == tri_char(c),
{
    c == '◢' || c == '◣' || c == '◤' || c == '◥'
}

/// One of the five arrowhead glyphs `> v < ^ V`.
pub fn is_arrow_head(c: char) -> (r: bool)
    ensures
        r == arrow_char(c),
{
    c == '>' || c == 'v' || c == '<' || c == '^' || c == 'V'
}

/// One of the seven point glyphs.
pub fn is_point(c: char) -> (r: bool)
    ensures
        r == point_char(c),
{
    c == 'o' || c == '*' || c == '◌' || c == '○' || c == '◍' || c == '●' || c == '⊕'
}

/// One of the two jump (bridge) glyphs `(` and `)`.
pub fn is_jump(c: char) -> (r: bool)
    ensures
        r == jump_char(c),
{
    c == '(' || c == ')'
}

/// Arrowhead, point, gray fill or triangle.
pub fn is_decoration(c: char) -> (r: bool)
    ensures
        r == (arrow_char(c) || point_char(c) || gray_char(c) || tri_char(c)),
{
    is_arrow_head(c) || is_point(c) || is_gray(c) || is_tri(c)
}

// ---------------------------------------------------------------------------
// Letters, fill levels and triangle angles
// ---------------------------------------------------------------------------

pub open spec fn ascii_letter(c: char) -> bool {
    ('a' <= c && c <= 'z') || ('A' <= c && c <= 'Z')
}

/// True for `a`..=`z` and `A`..=`Z`.
pub fn is_ascii_letter(c: char) -> (r: bool)
    ensures
        r == ascii_letter(c),
{
    ('a' <= c && c <= 'z') || ('A' <= c && c <= 'Z')
}

pub open spec fn gray_level_of(c: char) -> u8 {
    if c == '▁' {
        64
    } else if c == '▂' {
        128
    } else if c == '▃' {
        191
    } else if c == '█' {
        255
    } else {
        0
    }
}

/// Fill intensity of a gray glyph, 0 for any other glyph.
pub fn gray_level(c: char) -> (r: u8)
    ensures
        r == gray_level_of(c),
{
    match c {
        '▁' => 64,
        '▂' => 128,
        '▃' => 191,
        '█' => 255,
        _ => 0,
    }
}

pub open spec fn tri_angle_of(c: char) -> u32 {
    if c == '◣' {
        90
    } else if c == '◤' {
        180
    } else if c == '◥' {
        270
    } else {
        0
    }
}

/// Rotation of a triangle glyph in degrees, clockwise from pointing right;
/// 0 for any other glyph.
pub fn tri_angle(c: char) -> (r: u32)
    ensures
        r == tri_angle_of(c),
{
    match c {
        '◢' => 0,
        '◣' => 90,
        '◤' => 180,
        '◥' => 270,
        _ => 0,
    }
}

} // verus!
