//! Recognition of ASCII and Unicode line-art diagrams.
//!
//! A block of text is normalized into a [`grid::Grid`]; an ordered list of
//! scan passes then finds line and curve [`path::Path`]s and
//! [`decoration::Decoration`]s, marking every cell it attributes as
//! consumed. What is left unconsumed is read back as text runs. Turning the
//! result into a drawing is left to a renderer.
use vstd::prelude::*;

pub mod chars;
pub mod decoration;
pub mod finder;
pub mod grid;
pub mod laws;
pub mod lines;
pub mod normalize;
pub mod path;
pub mod text;

use crate::decoration::{Decoration, DecorationSet};
use crate::finder::{
    decoration_marks, find_decorations, find_paths, found_decorations, found_paths, path_marks,
};
use crate::grid::{grid_lines, Grid, MAX_DIM};
use crate::laws::{decoration_claims, lemma_claimed_cells_consumed, path_claims};
use crate::normalize::{max_len, pad_to, unhide_char};
use crate::path::{Path, PathSet};
use crate::text::{grid_texts, text_runs, TextRun};

verus! {

/// A recognized diagram: the grid with its consumed cells, and the paths
/// and decorations found, in the order they were found.
pub struct Diagram {
    pub grid: Grid,
    pub paths: PathSet,
    pub decorations: DecorationSet,
}

/// The consumed flags of a fresh `w` by `h` grid after the path passes.
pub open spec fn marks_after_paths(rows: Seq<Seq<char>>, w: int, h: int) -> Seq<Seq<bool>> {
    Seq::new(h as nat, |b: int| Seq::new(w as nat, |a: int| path_marks(rows, w, h, a, b)))
}

/// Normalizes `input`, then runs every path pass and every decoration pass
/// over it.
pub fn recognize(input: &str) -> (d: Diagram)
    requires
        grid_lines(input@).len() <= MAX_DIM,
        max_len(grid_lines(input@)) <= MAX_DIM,
    ensures
        d.grid.wf(),
        d.grid.height == grid_lines(input@).len(),
        d.grid.width == max_len(grid_lines(input@)),
        forall|y: int|
            0 <= y < d.grid.height ==> #[trigger] d.grid.rows()[y] == pad_to(
                grid_lines(input@)[y],
                d.grid.width as int,
            ),
        d.paths@ == found_paths(d.grid.rows(), d.grid.width as int, d.grid.height as int),
        d.decorations@ == found_decorations(
            d.grid.rows(),
            marks_after_paths(d.grid.rows(), d.grid.width as int, d.grid.height as int),
            d.paths@,
            d.grid.width as int,
            d.grid.height as int,
        ),
        forall|a: int, b: int|
            #[trigger] d.grid.used_at(a, b) == (d.grid.in_bounds(a, b) && (path_marks(
                d.grid.rows(),
                d.grid.width as int,
                d.grid.height as int,
                a,
                b,
            ) || decoration_marks(
                d.grid.rows(),
                marks_after_paths(d.grid.rows(), d.grid.width as int, d.grid.height as int),
                d.paths@,
                a,
                b,
            ))),
{
    let mut grid = Grid::new(input);
    let mut paths = PathSet::new();
    let mut decorations = DecorationSet::new();
    let ghost g0 = grid;
    find_paths(&mut grid, &mut paths);
    let ghost g1 = grid;
    proof {
        let rows = g0.rows();
        let w = g0.width as int;
        let h = g0.height as int;
        assert forall|b: int| 0 <= b < h implies #[trigger] g1.marks()[b] =~= marks_after_paths(
            rows,
            w,
            h,
        )[b] by {
            assert forall|a: int| 0 <= a < w implies g1.marks()[b][a] == marks_after_paths(
                rows,
                w,
                h,
            )[b][a] by {
                assert(g1.used_at(a, b) == g1.marks()[b][a]);
            }
        }
        assert(g1.marks() =~= marks_after_paths(rows, w, h));
    }
    find_decorations(&mut grid, &paths, &mut decorations);
    Diagram { grid, paths, decorations }
}

/// Path `p` claims the cell of character `j` of text run `t`.
pub open spec fn path_claims_char(p: Path, t: TextRun, j: int) -> bool {
    path_claims(p, t.x + j, t.y as int)
}

/// Decoration `d` claims the cell of character `j` of text run `t`.
pub open spec fn decoration_claims_char(d: Decoration, t: TextRun, j: int) -> bool {
    decoration_claims(d, t.x + j, t.y as int)
}

/// Recognizes `input`, then reads back the text left over, each run ending
/// at `spaces` blanks in a row: the runs are those of the recognized grid.
/// No character of a text run sits on a cell that a path or a decoration
/// claims.
pub fn recognize_with_text(input: &str, spaces: u32) -> (r: (Diagram, Vec<TextRun>))
    requires
        grid_lines(input@).len() <= MAX_DIM,
        max_len(grid_lines(input@)) <= MAX_DIM,
    ensures
        r.0.grid.wf(),
        r.0.paths@ == found_paths(r.0.grid.rows(), r.0.grid.width as int, r.0.grid.height as int),
        r.0.decorations@ == found_decorations(
            r.0.grid.rows(),
            marks_after_paths(r.0.grid.rows(), r.0.grid.width as int, r.0.grid.height as int),
            r.0.paths@,
            r.0.grid.width as int,
            r.0.grid.height as int,
        ),
        exists|g: Grid|
            {
                &&& #[trigger] g.same_chars(&r.0.grid)
                &&& forall|a: int, b: int|
                    #[trigger] g.used_at(a, b) == (g.in_bounds(a, b) && (path_marks(
                        g.rows(),
                        g.width as int,
                        g.height as int,
                        a,
                        b,
                    ) || decoration_marks(
                        g.rows(),
                        marks_after_paths(g.rows(), g.width as int, g.height as int),
                        r.0.paths@,
                        a,
                        b,
                    )))
                &&& r.1@.map_values(|t: TextRun| t@) == grid_texts(g, spaces as int, g.height as int)
            },
        forall|i: int, j: int, q: int|
            0 <= i < r.1.len() && 0 <= j < r.1@[i].text@.len() && 0 <= q < r.0.paths@.len()
                ==> !#[trigger] path_claims_char(r.0.paths@[q], r.1@[i], j),
        forall|i: int, j: int, q: int|
            0 <= i < r.1.len() && 0 <= j < r.1@[i].text@.len() && 0 <= q < r.0.decorations@.len()
                ==> !#[trigger] decoration_claims_char(r.0.decorations@[q], r.1@[i], j),
{
    let mut d = recognize(input);
    let ghost g = d.grid;
    let runs = text_runs(&mut d.grid, spaces);
    let out = (d, runs);
    proof {
        assert(g.same_chars(&out.0.grid));
        let rows = g.rows();
        let w = g.width as int;
        let h = g.height as int;
        assert forall|i: int, j: int, q: int|
            0 <= i < out.1.len() && 0 <= j < out.1@[i].text@.len() && 0 <= q < out.0.paths@.len()
                implies !#[trigger] path_claims_char(out.0.paths@[q], out.1@[i], j) by {
            let a = out.1@[i].x + j;
            let b = out.1@[i].y as int;
            lemma_claimed_cells_consumed(rows, w, h, a, b);
            assert(out.1@[i].text@[j] == unhide_char(g.char_at(a, b)));
        }
        assert forall|i: int, j: int, q: int|
            0 <= i < out.1.len() && 0 <= j < out.1@[i].text@.len() && 0 <= q < out.0.decorations@.len()
                implies !#[trigger] decoration_claims_char(out.0.decorations@[q], out.1@[i], j) by {
            let a = out.1@[i].x + j;
            let b = out.1@[i].y as int;
            lemma_claimed_cells_consumed(rows, w, h, a, b);
            assert(out.1@[i].text@[j] == unhide_char(g.char_at(a, b)));
        }
    }
    out
}

} // verus!
