//! The character grid of a diagram and its consumed-cell bitmap.
use vstd::prelude::*;

use crate::chars::{
    any_h_char, back_diag_char, bottom_vertex_char, double_h_char, double_v_char,
    forward_diag_char, is_any_h_line, is_bottom_vertex, is_double_h_line, is_double_v_line,
    is_solid_b_line, is_solid_d_line, is_solid_h_line, is_solid_v_line, is_squiggle_h_line,
    is_top_vertex, is_arrow_head, is_vertex, solid_h_char, solid_v_char, squiggle_h_char,
    top_vertex_char, arrow_char, vertex_char,
};
use crate::lines::{chars_of, lines_of, seqs, split_lines};
use crate::normalize::{
    common_indent, common_indent_exec, drop_all, hide_all, hide_lines, lemma_max_len, max_len,
    max_len_exec, pad_line, pad_to, strip_indent_lines,
};

verus! {

/// Largest width or height a grid may have, so that every coordinate and
/// the sum of the two dimensions fit in an `i32`.
pub const MAX_DIM: usize = 1073741823;

/// The character at `(x, y)` of `rows`; a blank outside them.
pub open spec fn char_in(rows: Seq<Seq<char>>, x: int, y: int) -> char {
    if 0 <= y < rows.len() && 0 <= x < rows[y].len() {
        rows[y][x]
    } else {
        ' '
    }
}

/// The flag at `(x, y)` of `marks`; `false` outside them.
pub open spec fn mark_in(marks: Seq<Seq<bool>>, x: int, y: int) -> bool {
    0 <= y < marks.len() && 0 <= x < marks[y].len() && marks[y][x]
}

/// Rectangular matrix of characters with a parallel "consumed" flag per cell.
pub struct Grid {
    /// The characters, row by row.
    pub chars: Vec<Vec<char>>,
    /// The consumed flags, row by row.
    pub used: Vec<Vec<bool>>,
    /// Number of columns.
    pub width: usize,
    /// Number of rows.
    pub height: usize,
}

impl Grid {
    pub open spec fn rows(&self) -> Seq<Seq<char>> {
        self.chars@.map_values(|r: Vec<char>| r@)
    }

    pub open spec fn marks(&self) -> Seq<Seq<bool>> {
        self.used@.map_values(|r: Vec<bool>| r@)
    }

    pub open spec fn wf(&self) -> bool {
        &&& self.width <= MAX_DIM
        &&& self.height <= MAX_DIM
        &&& self.rows().len() == self.height
        &&& self.marks().len() == self.height
        &&& forall|y: int| 0 <= y < self.height ==> #[trigger] self.rows()[y].len() == self.width
        &&& forall|y: int| 0 <= y < self.height ==> #[trigger] self.marks()[y].len() == self.width
    }

    pub open spec fn in_bounds(&self, x: int, y: int) -> bool {
        0 <= x < self.width && 0 <= y < self.height
    }

    /// The character at `(x, y)`; a blank outside the grid.
    pub open spec fn char_at(&self, x: int, y: int) -> char {
        char_in(self.rows(), x, y)
    }

    /// Whether `(x, y)` is consumed; never outside the grid.
    pub open spec fn used_at(&self, x: int, y: int) -> bool {
        mark_in(self.marks(), x, y)
    }

    /// Same characters and dimensions; only consumed flags may differ.
    pub open spec fn same_chars(&self, other: &Grid) -> bool {
        &&& self.rows() == other.rows()
        &&& self.width == other.width
        &&& self.height == other.height
    }

    proof fn lemma_wf_rows(&self, y: int)
        requires
            self.wf(),
            0 <= y < self.height,
        ensures
            self.chars@[y]@.len() == self.width,
            self.used@[y]@.len() == self.width,
            self.chars@.len() == self.height,
            self.used@.len() == self.height,
    {
        assert(self.rows()[y] == self.chars@[y]@);
        assert(self.marks()[y] == self.used@[y]@);
    }

    /// The character at `(x, y)`, or a blank for any coordinate outside the
    /// grid, negative ones included.
    pub fn get(&self, x: i32, y: i32) -> (r: char)
        requires
            self.wf(),
        ensures
            r == self.char_at(x as int, y as int),
            !self.in_bounds(x as int, y as int) ==> r == ' ',
    {
        if x < 0 || y < 0 {
            return ' ';
        }
        let xu = x as usize;
        let yu = y as usize;
        if yu >= self.height || xu >= self.width {
            return ' ';
        }
        proof {
            self.lemma_wf_rows(y as int);
        }
        self.chars[yu][xu]
    }

    /// Marks `(x, y)` consumed; does nothing outside the grid.
    pub fn set_used(&mut self, x: i32, y: i32)
        requires
            old(self).wf(),
        ensures
            final(self).wf(),
            final(self).same_chars(&*old(self)),
            forall|a: int, b: int|
                #[trigger] final(self).used_at(a, b) == (old(self).used_at(a, b) || (a == x && b
                    == y && old(self).in_bounds(a, b))),
    {
        if x < 0 || y < 0 {
            return ;
        }
        let xu = x as usize;
        let yu = y as usize;
        if yu < self.height && xu < self.width {
            proof {
                self.lemma_wf_rows(y as int);
            }
            let ghost pre = *self;
            let mut row = Vec::new();
            std::mem::swap(&mut row, &mut self.used[yu]);
            row.set(xu, true);
            self.used.set(yu, row);
            proof {
                assert(self.rows() =~= pre.rows());
                assert forall|a: int, b: int|
                    #[trigger] self.used_at(a, b) == (pre.used_at(a, b) || (a == x && b == y
                        && pre.in_bounds(a, b))) by {
                    if pre.in_bounds(a, b) {
                        assert(self.marks()[b] == self.used@[b]@);
                        assert(pre.marks()[b] == pre.used@[b]@);
                    }
                }
                assert forall|b: int| 0 <= b < self.height implies #[trigger] self.marks()[b].len()
                    == self.width by {
                    assert(self.marks()[b] == self.used@[b]@);
                    assert(pre.marks()[b] == pre.used@[b]@);
                }
            }
        }
    }

    /// Whether `(x, y)` is consumed; `false` outside the grid.
    pub fn is_used(&self, x: i32, y: i32) -> (r: bool)
        requires
            self.wf(),
        ensures
            r == self.used_at(x as int, y as int),
    {
        if x < 0 || y < 0 {
            return false;
        }
        let xu = x as usize;
        let yu = y as usize;
        if yu >= self.height || xu >= self.width {
            proof {
                if yu < self.height {
                    assert(self.marks()[y as int].len() == self.width);
                }
            }
            return false;
        }
        proof {
            self.lemma_wf_rows(y as int);
        }
        self.used[yu][xu]
    }
}

/// The lines of the grid built from `s`: the lines of its normalized form.
pub open spec fn grid_lines(s: Seq<char>) -> Seq<Seq<char>> {
    hide_all(drop_all(lines_of(s), common_indent(lines_of(s))))
}

/// Any text shorter than `MAX_DIM` characters makes a grid that fits.
pub proof fn lemma_grid_fits(s: Seq<char>)
    requires
        s.len() < MAX_DIM,
    ensures
        grid_lines(s).len() <= MAX_DIM,
        max_len(grid_lines(s)) <= MAX_DIM,
{
    let ls = lines_of(s);
    let gl = grid_lines(s);
    crate::lines::lemma_lines_have_no_break(s, 0, 0);
    lemma_max_len(gl);
    if gl.len() > 0 {
        let q = choose|q: int| 0 <= q < gl.len() && #[trigger] gl[q].len() == max_len(gl);
        let m = common_indent(ls);
        crate::normalize::lemma_common_indent_nonneg(ls);
        assert(drop_all(ls, m)[q] == crate::normalize::drop_indent(ls[q], m));
        assert(gl[q] == crate::normalize::hide_line(drop_all(ls, m)[q]));
        assert(gl[q].len() <= ls[q].len());
    }
}

/// Number of consecutive blanks just before column `x` of row `y`, counting
/// no further left than column `start`.
pub open spec fn blank_run(g: Grid, start: int, y: int, x: int) -> int
    decreases x - start,
{
    if x <= start {
        0
    } else if g.char_at(x - 1, y) == ' ' {
        1 + blank_run(g, start, y, x - 1)
    } else {
        0
    }
}

/// Text read from `start` stops at column `x`: the `spaces`-th blank in a
/// row (never when `spaces` is 0), or a consumed non-blank cell.
pub open spec fn stops_text(g: Grid, start: int, y: int, spaces: int, x: int) -> bool {
    if g.char_at(x, y) == ' ' {
        spaces > 0 && blank_run(g, start, y, x + 1) >= spaces
    } else {
        g.used_at(x, y)
    }
}

/// The column where text read from `start` stops, searching from `x`.
pub open spec fn text_end(g: Grid, start: int, y: int, spaces: int, x: int) -> int
    decreases g.width - x,
{
    if x >= g.width {
        x
    } else if stops_text(g, start, y, spaces, x) {
        x
    } else {
        text_end(g, start, y, spaces, x + 1)
    }
}

/// The characters read from `start` up to where the text stops.
pub open spec fn raw_text(g: Grid, start: int, y: int, spaces: int) -> Seq<char> {
    let e = text_end(g, start, y, spaces, start);
    Seq::new((e - start) as nat, |i: int| g.char_at(start + i, y))
}

/// `s` without its trailing blanks.
pub open spec fn trim_end(s: Seq<char>) -> Seq<char>
    decreases s.len(),
{
    if s.len() > 0 && s.last() == ' ' {
        trim_end(s.drop_last())
    } else {
        s
    }
}

impl Grid {
    /// Builds the grid of a diagram: one row per line of the input, each
    /// without the common indent of the non-blank lines, with its marker
    /// letters hidden, and padded with blanks to the widest; no cell is
    /// consumed yet.
    pub fn new(input: &str) -> (g: Grid)
        requires
            grid_lines(input@).len() <= MAX_DIM,
            max_len(grid_lines(input@)) <= MAX_DIM,
        ensures
            g.wf(),
            g.height == grid_lines(input@).len(),
            g.width == max_len(grid_lines(input@)),
            forall|y: int|
                0 <= y < g.height ==> #[trigger] g.rows()[y] == pad_to(
                    grid_lines(input@)[y],
                    g.width as int,
                ),
            forall|a: int, b: int| !#[trigger] g.used_at(a, b),
    {
        let text = chars_of(input);
        let raw = split_lines(&text);
        let m = common_indent_exec(&raw);
        let stripped = strip_indent_lines(&raw, m);
        let ls = hide_lines(&stripped);
        let ghost lines = seqs(ls@);
        assert(lines == grid_lines(input@));
        let w = max_len_exec(&ls);
        proof {
            lemma_max_len(lines);
        }
        let mut chars: Vec<Vec<char>> = Vec::new();
        let mut used: Vec<Vec<bool>> = Vec::new();
        let mut i: usize = 0;
        while i < ls.len()
            invariant
                i <= ls.len(),
                lines == seqs(ls@),
                w == max_len(lines),
                forall|j: int| 0 <= j < ls.len() ==> #[trigger] lines[j].len() <= w,
                chars.len() == i,
                used.len() == i,
                forall|j: int| 0 <= j < i ==> #[trigger] chars@[j]@ == pad_to(lines[j], w as int),
                forall|j: int| 0 <= j < i ==> #[trigger] used@[j]@ == Seq::new(w as nat, |k: int| false),
            decreases ls.len() - i,
        {
            assert(lines[i as int] == ls@[i as int]@);
            let row = pad_line(&ls[i], w);
            chars.push(row);
            let mut flags: Vec<bool> = Vec::new();
            while flags.len() < w
                invariant
                    flags.len() <= w,
                    flags@ == Seq::new(flags.len() as nat, |k: int| false),
                decreases w - flags.len(),
            {
                flags.push(false);
                assert(flags@ =~= Seq::new(flags.len() as nat, |k: int| false));
            }
            used.push(flags);
            i += 1;
        }
        let g = Grid { chars, used, width: w, height: ls.len() };
        assert forall|y: int| 0 <= y < g.height implies #[trigger] g.rows()[y].len() == g.width by {
            assert(g.rows()[y] == g.chars@[y]@);
        }
        assert forall|y: int| 0 <= y < g.height implies #[trigger] g.marks()[y].len() == g.width by {
            assert(g.marks()[y] == g.used@[y]@);
        }
        assert forall|y: int| 0 <= y < g.height implies #[trigger] g.rows()[y] == pad_to(
            grid_lines(input@)[y],
            g.width as int,
        ) by {
            assert(g.rows()[y] == g.chars@[y]@);
        }
        assert forall|a: int, b: int| !#[trigger] g.used_at(a, b) by {
            if 0 <= b < g.height && 0 <= a < g.width {
                assert(g.marks()[b] == g.used@[b]@);
            }
        }
        g
    }

    /// A solid vertical glyph at `(x, y)`.
    pub fn is_solid_v_line_at(&self, x: i32, y: i32) -> (r: bool)
        requires
            self.wf(),
        ensures
            r == solid_v_char(self.char_at(x as int, y as int)),
    {
        is_solid_v_line(self.get(x, y))
    }

    /// A double vertical glyph at `(x, y)`.
    pub fn is_double_v_line_at(&self, x: i32, y: i32) -> (r: bool)
        requires
            self.wf(),
        ensures
            r == double_v_char(self.char_at(x as int, y as int)),
    {
        is_double_v_line(self.get(x, y))
    }

    /// A solid horizontal glyph at `(x, y)`.
    pub fn is_solid_h_line_at(&self, x: i32, y: i32) -> (r: bool)
        requires
            self.wf(),
        ensures
            r == solid_h_char(self.char_at(x as int, y as int)),
    {
        is_solid_h_line(self.get(x, y))
    }

    /// A squiggle glyph at `(x, y)`.
    pub fn is_squiggle_h_line_at(&self, x: i32, y: i32) -> (r: bool)
        requires
            self.wf(),
        ensures
            r == squiggle_h_char(self.char_at(x as int, y as int)),
    {
        is_squiggle_h_line(self.get(x, y))
    }

    /// A double horizontal glyph at `(x, y)`.
    pub fn is_double_h_line_at(&self, x: i32, y: i32) -> (r: bool)
        requires
            self.wf(),
        ensures
            r == double_h_char(self.char_at(x as int, y as int)),
    {
        is_double_h_line(self.get(x, y))
    }

    /// Any horizontal glyph at `(x, y)`.
    pub fn is_any_h_line_at(&self, x: i32, y: i32) -> (r: bool)
        requires
            self.wf(),
        ensures
            r == any_h_char(self.char_at(x as int, y as int)),
    {
        is_any_h_line(self.get(x, y))
    }

    /// A `\` glyph at `(x, y)`.
    pub fn is_solid_b_line_at(&self, x: i32, y: i32) -> (r: bool)
        requires
            self.wf(),
        ensures
            r == back_diag_char(self.char_at(x as int, y as int)),
    {
        is_solid_b_line(self.get(x, y))
    }

    /// A `/` glyph at `(x, y)`.
    pub fn is_solid_d_line_at(&self, x: i32, y: i32) -> (r: bool)
        requires
            self.wf(),
        ensures
            r == forward_diag_char(self.char_at(x as int, y as int)),
    {
        is_solid_d_line(self.get(x, y))
    }

    /// The first column at or after `start_x` in row `y` that holds a
    /// non-blank, unconsumed cell.
    pub fn text_start(&self, start_x: i32, y: i32, _spaces: u32) -> (r: Option<i32>)
        requires
            self.wf(),
        ensures
            match r {
                Some(x) => start_x <= x < self.width && self.char_at(x as int, y as int) != ' '
                    && !self.used_at(x as int, y as int) && forall|t: int|
                    start_x <= t < x ==> #[trigger] self.char_at(t, y as int) == ' '
                        || self.used_at(t, y as int),
                None => forall|t: int|
                    start_x <= t < self.width ==> #[trigger] self.char_at(t, y as int) == ' '
                        || self.used_at(t, y as int),
            },
    {
        let mut x = start_x;
        let w = self.width as i32;
        while x < w
            invariant
                start_x <= x,
                x <= w || x == start_x,
                w == self.width,
                self.wf(),
                forall|t: int|
                    start_x <= t < x ==> #[trigger] self.char_at(t, y as int) == ' '
                        || self.used_at(t, y as int),
            decreases w - x,
        {
            let c = self.get(x, y);
            if c != ' ' && !self.is_used(x, y) {
                return Some(x);
            }
            x += 1;
        }
        None
    }

    /// Reads text rightward from `start_x` in row `y`, consuming each
    /// non-blank cell it takes. It stops at the `spaces`-th blank in a row
    /// (never when `spaces` is 0), at a consumed cell, or at the grid's edge,
    /// and drops trailing blanks.
    pub fn extract_text(&mut self, start_x: i32, y: i32, spaces: u32) -> (r: String)
        requires
            old(self).wf(),
        ensures
            final(self).wf(),
            final(self).same_chars(&*old(self)),
            r@ == trim_end(raw_text(*old(self), start_x as int, y as int, spaces as int)),
            forall|a: int, b: int|
                #[trigger] final(self).used_at(a, b) == (old(self).used_at(a, b) || (b == y
                    && start_x <= a < text_end(
                    *old(self),
                    start_x as int,
                    y as int,
                    spaces as int,
                    start_x as int,
                ) && old(self).char_at(a, b) != ' ')),
    {
        let ghost g0 = *old(self);
        let mut result: Vec<char> = Vec::new();
        let mut x = start_x;
        let w = self.width as i32;
        let mut space_count: u32 = 0;
        while x < w
            invariant
                start_x <= x,
                x <= w || x == start_x,
                w == g0.width,
                g0.wf(),
                self.wf(),
                self.same_chars(&g0),
                space_count == blank_run(g0, start_x as int, y as int, x as int),
                0 <= space_count <= x - start_x,
                text_end(g0, start_x as int, y as int, spaces as int, start_x as int) == text_end(
                    g0,
                    start_x as int,
                    y as int,
                    spaces as int,
                    x as int,
                ),
                result@ == Seq::new((x - start_x) as nat, |i: int| g0.char_at(start_x + i, y as int)),
                forall|a: int, b: int|
                    #[trigger] self.used_at(a, b) == (g0.used_at(a, b) || (b == y && start_x <= a
                        < x && g0.char_at(a, b) != ' ')),
            ensures
                result@ == raw_text(g0, start_x as int, y as int, spaces as int),
                forall|a: int, b: int|
                    #[trigger] self.used_at(a, b) == (g0.used_at(a, b) || (b == y && start_x <= a
                        < text_end(g0, start_x as int, y as int, spaces as int, start_x as int)
                        && g0.char_at(a, b) != ' ')),
            decreases w - x,
        {
            let c = self.get(x, y);
            if c == ' ' {
                assert(blank_run(g0, start_x as int, y as int, x + 1) == space_count + 1);
                if space_count + 1 >= spaces && spaces > 0 {
                    break;
                }
                space_count += 1;
                result.push(c);
            } else if self.is_used(x, y) {
                break;
            } else {
                assert(blank_run(g0, start_x as int, y as int, x + 1) == 0);
                space_count = 0;
                result.push(c);
                self.set_used(x, y);
            }
            assert(result@ =~= Seq::new((x + 1 - start_x) as nat, |i: int| g0.char_at(start_x + i, y as int)));
            x += 1;
        }
        let ghost raw = result@;
        while result.len() > 0 && result[result.len() - 1] == ' '
            invariant
                trim_end(result@) == trim_end(raw),
            decreases result.len(),
        {
            result.pop();
        }
        let r = crate::lines::string_of(&result);
        r
    }
}

/// `pred` answers `true` for `c`.
pub open spec fn holds<F: Fn(char) -> bool>(pred: F, c: char) -> bool {
    pred.ensures((c,), true)
}

/// `pred` can be called on every character and gives one answer for each.
pub open spec fn total_predicate<F: Fn(char) -> bool>(pred: F) -> bool {
    &&& forall|c: char| #[trigger] pred.requires((c,))
    &&& forall|c: char, b1: bool, b2: bool|
        #[trigger] pred.ensures((c,), b1) && #[trigger] pred.ensures((c,), b2) ==> b1 == b2
}

fn ask<F: Fn(char) -> bool>(pred: &F, c: char) -> (r: bool)
    requires
        total_predicate(*pred),
    ensures
        r == holds(*pred, c),
{
    let r = pred(c);
    proof {
        if !r && holds(*pred, c) {
            assert(pred.ensures((c,), false) && pred.ensures((c,), true));
        }
    }
    r
}

impl Grid {
    /// `pred` holds at `(x, y)` and the line continues: `pred` holds above or
    /// below, or a top vertex or arrowhead sits above, or a bottom vertex or
    /// arrowhead below.
    pub fn is_v_line_at_with<F: Fn(char) -> bool>(&self, x: i32, y: i32, pred: F) -> (r: bool)
        requires
            self.wf(),
            total_predicate(pred),
        ensures
            r == (holds(pred, self.char_at(x as int, y as int)) && (holds(
                pred,
                self.char_at(x as int, y - 1),
            ) || holds(pred, self.char_at(x as int, y + 1)) || top_vertex_char(
                self.char_at(x as int, y - 1),
            ) || bottom_vertex_char(self.char_at(x as int, y + 1)) || arrow_char(
                self.char_at(x as int, y - 1),
            ) || arrow_char(self.char_at(x as int, y + 1)))),
    {
        let c = self.get(x, y);
        if !ask(&pred, c) {
            return false;
        }
        let above = if y > i32::MIN {
            self.get(x, y - 1)
        } else {
            ' '
        };
        let below = if y < i32::MAX {
            self.get(x, y + 1)
        } else {
            ' '
        };
        ask(&pred, above) || ask(&pred, below) || is_top_vertex(above) || is_bottom_vertex(below)
            || is_arrow_head(above) || is_arrow_head(below)
    }

    /// `pred` holds at `(x, y)` and the line continues: `pred` holds left or
    /// right of it, or a vertex sits there.
    pub fn is_h_line_at_with<F: Fn(char) -> bool>(&self, x: i32, y: i32, pred: F) -> (r: bool)
        requires
            self.wf(),
            total_predicate(pred),
        ensures
            r == (holds(pred, self.char_at(x as int, y as int)) && (holds(
                pred,
                self.char_at(x - 1, y as int),
            ) || holds(pred, self.char_at(x + 1, y as int)) || vertex_char(
                self.char_at(x - 1, y as int),
            ) || vertex_char(self.char_at(x + 1, y as int)))),
    {
        let c = self.get(x, y);
        if !ask(&pred, c) {
            return false;
        }
        let left = if x > i32::MIN {
            self.get(x - 1, y)
        } else {
            ' '
        };
        let right = if x < i32::MAX {
            self.get(x + 1, y)
        } else {
            ' '
        };
        ask(&pred, left) || ask(&pred, right) || is_vertex(left) || is_vertex(right)
    }
}

} // verus!
