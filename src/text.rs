//! Reading back the text that the recognition passes leave unconsumed.
use vstd::prelude::*;

use crate::grid::{blank_run, raw_text, stops_text, text_end, trim_end, Grid};
use crate::normalize::{unhide_char, unhide_markers, unhidden};

verus! {

/// A run of text left in the grid, with its marker letters restored.
pub struct TextRun {
    /// Column of its first character.
    pub x: i32,
    /// Its row.
    pub y: i32,
    pub text: String,
}

impl View for TextRun {
    type V = (int, int, Seq<char>);

    open spec fn view(&self) -> (int, int, Seq<char>) {
        (self.x as int, self.y as int, self.text@)
    }
}

/// The first column at or after `x` of row `y` that holds a non-blank,
/// unconsumed cell; `x` itself once past the last column.
pub open spec fn next_text(g: Grid, y: int, x: int) -> int
    decreases g.width - x,
{
    if x >= g.width {
        x
    } else if g.char_at(x, y) != ' ' && !g.used_at(x, y) {
        x
    } else {
        next_text(g, y, x + 1)
    }
}

/// The text runs of row `y` from column `x` on: each starts at the next
/// non-blank, unconsumed cell, reads as `extract_text` reads, has its
/// marker letters restored, and the search goes on where it stopped.
pub open spec fn row_texts(g: Grid, y: int, x: int, spaces: int) -> Seq<(int, int, Seq<char>)>
    decreases g.width - x,
    via row_texts_decreases
{
    let s = next_text(g, y, x);
    if s >= g.width {
        Seq::empty()
    } else {
        seq![(s, y, unhidden(trim_end(raw_text(g, s, y, spaces))))] + row_texts(
            g,
            y,
            text_end(g, s, y, spaces, s),
            spaces,
        )
    }
}

#[via_fn]
proof fn row_texts_decreases(g: Grid, y: int, x: int, spaces: int) {
    let s = next_text(g, y, x);
    lemma_next_text_bounds(g, y, x);
    if s < g.width {
        assert(!stops_text(g, s, y, spaces, s));
        lemma_text_end_bounds(g, s, y, spaces, s + 1);
    }
}

/// The text runs of the first `y` rows, row by row.
pub open spec fn grid_texts(g: Grid, spaces: int, y: int) -> Seq<(int, int, Seq<char>)>
    decreases y,
{
    if y <= 0 {
        Seq::empty()
    } else {
        grid_texts(g, spaces, y - 1) + row_texts(g, y - 1, 0, spaces)
    }
}

proof fn lemma_next_text_bounds(g: Grid, y: int, x: int)
    ensures
        next_text(g, y, x) >= x,
        x <= g.width ==> next_text(g, y, x) <= g.width,
        next_text(g, y, x) < g.width ==> g.char_at(next_text(g, y, x), y) != ' ' && !g.used_at(
            next_text(g, y, x),
            y,
        ),
    decreases g.width - x,
{
    if x < g.width && !(g.char_at(x, y) != ' ' && !g.used_at(x, y)) {
        lemma_next_text_bounds(g, y, x + 1);
    }
}

/// Where the search from `x` lands, when every cell from `x` up to `s`
/// is blank or consumed.
proof fn lemma_next_text_at(g: Grid, y: int, x: int, s: int)
    requires
        x <= s,
        forall|a: int| x <= a < s ==> #[trigger] g.char_at(a, y) == ' ' || g.used_at(a, y),
        s < g.width ==> g.char_at(s, y) != ' ' && !g.used_at(s, y),
        s >= g.width ==> x <= g.width && s == g.width,
    ensures
        next_text(g, y, x) == s,
    decreases s - x,
{
    if x < s {
        lemma_next_text_at(g, y, x + 1, s);
    }
}

/// Text read from `start` stops at the same place in two grids with the
/// same characters and the same consumed cells from `x` on in row `y`.
proof fn lemma_text_end_same(g1: Grid, g2: Grid, start: int, y: int, spaces: int, x: int)
    requires
        g1.same_chars(&g2),
        forall|a: int| a >= x ==> #[trigger] g1.used_at(a, y) == g2.used_at(a, y),
    ensures
        text_end(g1, start, y, spaces, x) == text_end(g2, start, y, spaces, x),
    decreases g1.width - x,
{
    if x < g1.width {
        lemma_blank_run_same(g1, g2, start, y, x + 1);
        lemma_text_end_same(g1, g2, start, y, spaces, x + 1);
    }
}

proof fn lemma_blank_run_same(g1: Grid, g2: Grid, start: int, y: int, x: int)
    requires
        g1.same_chars(&g2),
    ensures
        blank_run(g1, start, y, x) == blank_run(g2, start, y, x),
    decreases x - start,
{
    if x > start {
        lemma_blank_run_same(g1, g2, start, y, x - 1);
    }
}

/// Reads every text run left in the grid, row by row and left to right,
/// consuming their cells: each run starts at the next non-blank,
/// unconsumed cell and reads as `extract_text` does with `spaces`, and has
/// its marker letters restored. Afterwards every non-blank cell is consumed.
pub fn text_runs(grid: &mut Grid, spaces: u32) -> (runs: Vec<TextRun>)
    requires
        old(grid).wf(),
    ensures
        final(grid).wf(),
        final(grid).same_chars(&*old(grid)),
        runs@.map_values(|r: TextRun| r@) == grid_texts(
            *old(grid),
            spaces as int,
            old(grid).height as int,
        ),
        forall|a: int, b: int|
            #[trigger] final(grid).used_at(a, b) == (old(grid).used_at(a, b) || (old(
                grid,
            ).in_bounds(a, b) && old(grid).char_at(a, b) != ' ')),
        forall|i: int|
            0 <= i < runs.len() ==> {
                let r = #[trigger] runs@[i];
                &&& old(grid).in_bounds(r.x as int, r.y as int)
                &&& r.text@.len() > 0
                &&& r.x + r.text@.len() <= old(grid).width
                &&& forall|j: int|
                    0 <= j < r.text@.len() ==> r.text@[j] == unhide_char(
                        old(grid).char_at(r.x + j, r.y as int),
                    ) && (old(grid).char_at(r.x + j, r.y as int) == ' ' || !old(grid).used_at(
                        r.x + j,
                        r.y as int,
                    ))
            },
{
    let ghost g0 = *old(grid);
    let ghost sp = spaces as int;
    let mut runs: Vec<TextRun> = Vec::new();
    let h = grid.height as i32;
    let w = grid.width as i32;
    let mut y: i32 = 0;
    while y < h
        invariant
            0 <= y <= h,
            h == g0.height,
            w == g0.width,
            sp == spaces as int,
            g0.wf(),
            grid.wf(),
            grid.same_chars(&g0),
            runs@.map_values(|r: TextRun| r@) == grid_texts(g0, sp, y as int),
            forall|a: int, b: int|
                #[trigger] grid.used_at(a, b) == (g0.used_at(a, b) || (g0.in_bounds(a, b)
                    && g0.char_at(a, b) != ' ' && b < y)),
            forall|i: int|
                0 <= i < runs.len() ==> {
                    let r = #[trigger] runs@[i];
                    &&& g0.in_bounds(r.x as int, r.y as int)
                    &&& r.text@.len() > 0
                    &&& r.x + r.text@.len() <= g0.width
                    &&& forall|j: int|
                        0 <= j < r.text@.len() ==> r.text@[j] == unhide_char(
                            g0.char_at(r.x + j, r.y as int),
                        ) && (g0.char_at(r.x + j, r.y as int) == ' ' || !g0.used_at(
                            r.x + j,
                            r.y as int,
                        ))
                },
        decreases h - y,
    {
        let mut x: i32 = 0;
        let ghost mut e: int = 0;
        while x < w
            invariant
                0 <= x <= e <= w,
                0 <= y < h,
                h == g0.height,
                w == g0.width,
                sp == spaces as int,
                g0.wf(),
                grid.wf(),
                grid.same_chars(&g0),
                runs@.map_values(|r: TextRun| r@) + row_texts(g0, y as int, e, sp) == grid_texts(
                    g0,
                    sp,
                    y + 1,
                ),
                forall|a: int, b: int|
                    #[trigger] grid.used_at(a, b) == (g0.used_at(a, b) || (g0.in_bounds(a, b)
                        && g0.char_at(a, b) != ' ' && (b < y || (b == y && a < e)))),
                forall|i: int|
                    0 <= i < runs.len() ==> {
                        let r = #[trigger] runs@[i];
                        &&& g0.in_bounds(r.x as int, r.y as int)
                        &&& r.text@.len() > 0
                        &&& r.x + r.text@.len() <= g0.width
                        &&& forall|j: int|
                            0 <= j < r.text@.len() ==> r.text@[j] == unhide_char(
                                g0.char_at(r.x + j, r.y as int),
                            ) && (g0.char_at(r.x + j, r.y as int) == ' ' || !g0.used_at(
                                r.x + j,
                                r.y as int,
                            ))
                    },
            ensures
                runs@.map_values(|r: TextRun| r@) == grid_texts(g0, sp, y + 1),
                forall|a: int, b: int|
                    #[trigger] grid.used_at(a, b) == (g0.used_at(a, b) || (g0.in_bounds(a, b)
                        && g0.char_at(a, b) != ' ' && b < y + 1)),
            decreases w - x,
        {
            match grid.text_start(x, y, spaces) {
                None => {
                    proof {
                        assert forall|a: int| e <= a < w implies #[trigger] g0.char_at(a, y as int)
                            == ' ' || g0.used_at(a, y as int) by {
                            assert(grid.char_at(a, y as int) == ' ' || grid.used_at(a, y as int));
                            assert(grid.used_at(a, y as int) == g0.used_at(a, y as int));
                        }
                        lemma_next_text_at(g0, y as int, e, w as int);
                        assert(row_texts(g0, y as int, e, sp) =~= Seq::empty());
                        assert(runs@.map_values(|r: TextRun| r@) =~= grid_texts(g0, sp, y + 1));
                        assert forall|a: int, b: int|
                            #[trigger] grid.used_at(a, b) == (g0.used_at(a, b) || (g0.in_bounds(a, b)
                                && g0.char_at(a, b) != ' ' && b < y + 1)) by {
                            if b == y && e <= a < w && g0.char_at(a, b) != ' ' {
                                assert(grid.char_at(a, b) == ' ' || grid.used_at(a, b));
                            }
                        }
                        e = w as int;
                        assert(row_texts(g0, y as int, e, sp) =~= Seq::empty());
                    }
                    x = w;
                },
                Some(start) => {
                    let ghost gb = *grid;
                    proof {
                        assert forall|a: int| e <= a < start implies #[trigger] g0.char_at(
                            a,
                            y as int,
                        ) == ' ' || g0.used_at(a, y as int) by {
                            assert(grid.char_at(a, y as int) == ' ' || grid.used_at(a, y as int));
                            assert(grid.used_at(a, y as int) == g0.used_at(a, y as int));
                        }
                        assert(start >= e) by {
                            if start < e {
                                assert(grid.used_at(start as int, y as int));
                            }
                        }
                        lemma_next_text_at(g0, y as int, e, start as int);
                        assert forall|a: int| a >= start implies #[trigger] gb.used_at(a, y as int)
                            == g0.used_at(a, y as int) by {}
                        lemma_text_end_same(gb, g0, start as int, y as int, sp, start as int);
                    }
                    let raw = grid.extract_text(start, y, spaces);
                    let text = unhide_markers(raw.as_str());
                    let ghost e2 = text_end(g0, start as int, y as int, sp, start as int);
                    proof {
                        let full = raw_text(g0, start as int, y as int, sp);
                        assert(raw_text(gb, start as int, y as int, sp) =~= full);
                        lemma_trim_end_prefix(full);
                        assert(!stops_text(g0, start as int, y as int, sp, start as int));
                        lemma_text_end_bounds(g0, start as int, y as int, sp, start + 1);
                        assert(e2 == text_end(g0, start as int, y as int, sp, start + 1));
                        assert(start < e2 <= w);
                        assert(full[0] != ' ');
                        lemma_trim_end_keeps_nonblank(full);
                        assert forall|j: int| 0 <= j < text@.len() implies text@[j] == unhide_char(
                            g0.char_at(start + j, y as int),
                        ) && (g0.char_at(start + j, y as int) == ' ' || !g0.used_at(
                            start + j,
                            y as int,
                        )) by {
                            assert(raw@[j] == full[j]);
                            lemma_text_cells_free(g0, start as int, y as int, sp, start + j);
                        }
                        assert(row_texts(g0, y as int, e, sp) == seq![
                            (start as int, y as int, unhidden(trim_end(full))),
                        ] + row_texts(g0, y as int, e2, sp));
                    }
                    let ghost before = runs@.map_values(|r: TextRun| r@);
                    let run = TextRun { x: start, y, text };
                    runs.push(run);
                    proof {
                        assert(runs@.map_values(|r: TextRun| r@) =~= before.push(run@));
                        assert(runs@.map_values(|r: TextRun| r@) + row_texts(g0, y as int, e2, sp)
                            =~= grid_texts(g0, sp, y + 1));
                        assert forall|a: int, b: int|
                            #[trigger] grid.used_at(a, b) == (g0.used_at(a, b) || (g0.in_bounds(a, b)
                                && g0.char_at(a, b) != ' ' && (b < y || (b == y && a < e2)))) by {
                            assert(gb.used_at(a, b) == (g0.used_at(a, b) || (g0.in_bounds(a, b)
                                && g0.char_at(a, b) != ' ' && (b < y || (b == y && a < e)))));
                            if b == y && e <= a < start && g0.char_at(a, b) != ' ' {
                                assert(g0.used_at(a, b));
                            }
                        }
                        e = e2;
                    }
                    x = start + 1;
                },
            }
        }
        y += 1;
    }
    proof {
        assert forall|a: int, b: int|
            #[trigger] grid.used_at(a, b) == (g0.used_at(a, b) || (g0.in_bounds(a, b)
                && g0.char_at(a, b) != ' ')) by {}
    }
    runs
}

proof fn lemma_trim_end_prefix(s: Seq<char>)
    ensures
        trim_end(s).len() <= s.len(),
        forall|i: int|
            0 <= i < trim_end(s).len() ==> #[trigger] trim_end(s)[i]
                == s[i],
    decreases s.len(),
{
    if s.len() > 0 && s.last() == ' ' {
        lemma_trim_end_prefix(s.drop_last());
    }
}

proof fn lemma_trim_end_keeps_nonblank(s: Seq<char>)
    requires
        s.len() > 0,
        s[0] != ' ',
    ensures
        trim_end(s).len() > 0,
    decreases s.len(),
{
    if s.len() > 1 && s.last() == ' ' {
        lemma_trim_end_keeps_nonblank(s.drop_last());
    }
}

proof fn lemma_text_end_bounds(g: Grid, start: int, y: int, spaces: int, x: int)
    requires
        start <= x,
    ensures
        text_end(g, start, y, spaces, x) >= x,
        x <= g.width ==> text_end(g, start, y, spaces, x) <= g.width,
    decreases g.width - x,
{
    if x < g.width && !stops_text(g, start, y, spaces, x) {
        lemma_text_end_bounds(g, start, y, spaces, x + 1);
    }
}

/// Every non-blank cell before where the text stops is unconsumed.
proof fn lemma_text_cells_free(g: Grid, start: int, y: int, spaces: int, a: int)
    requires
        start <= a < text_end(g, start, y, spaces, start),
    ensures
        g.char_at(a, y) == ' ' || !g.used_at(a, y),
{
    lemma_text_end_before(g, start, y, spaces, start, a);
}

proof fn lemma_text_end_before(g: Grid, start: int, y: int, spaces: int, x: int, a: int)
    requires
        start <= x <= a < text_end(g, start, y, spaces, x),
    ensures
        !stops_text(g, start, y, spaces, a),
    decreases a - x,
{
    if x < a {
        lemma_text_end_before(g, start, y, spaces, x + 1, a);
    }
}

/// Every non-blank character that `extract_text` reads from `start` in row
/// `y` comes from a cell that was not consumed before the call (the call
/// then consumes it), so text never takes a cell already attributed to a
/// path or a decoration.
pub proof fn lemma_text_takes_free_cells(g: Grid, start: int, y: int, spaces: int)
    ensures
        forall|i: int|
            0 <= i < trim_end(raw_text(g, start, y, spaces)).len() && #[trigger] g.char_at(
                start + i,
                y,
            ) != ' ' ==> !g.used_at(start + i, y),
{
    let full = raw_text(g, start, y, spaces);
    lemma_trim_end_prefix(full);
    lemma_text_end_bounds(g, start, y, spaces, start);
    assert forall|i: int|
        0 <= i < trim_end(full).len() && #[trigger] g.char_at(start + i, y) != ' ' implies !g.used_at(
        start + i,
        y,
    ) by {
        lemma_text_cells_free(g, start, y, spaces, start + i);
    }
}

} // verus!
