//! Input normalization: common-indent stripping, width equalization and
//! hiding of marker letters that sit inside words.
use vstd::prelude::*;

use crate::chars::{ascii_letter, is_ascii_letter};
use crate::lines::{
    chars_of, lemma_lines_have_no_break, lemma_text_of_lines, lines_of, no_break, seqs,
    split_lines, string_of, text_from_lines, text_of_lines,
};

verus! {

// ---------------------------------------------------------------------------
// Common indent
// ---------------------------------------------------------------------------

/// Number of blanks in `l` from position `i` up to its first non-blank.
pub open spec fn blanks_from(l: Seq<char>, i: int) -> int
    decreases l.len() - i,
{
    if 0 <= i < l.len() && l[i] == ' ' {
        1 + blanks_from(l, i + 1)
    } else {
        0
    }
}

pub open spec fn leading_blanks(l: Seq<char>) -> int {
    blanks_from(l, 0)
}

/// A line made only of blanks (or empty).
pub open spec fn blank_line(l: Seq<char>) -> bool {
    forall|i: int| 0 <= i < l.len() ==> l[i] == ' '
}

/// The smallest indent among the non-blank lines of `ls`, if there is one.
pub open spec fn min_indent(ls: Seq<Seq<char>>) -> Option<int>
    decreases ls.len(),
{
    if ls.len() == 0 {
        None
    } else {
        let rest = min_indent(ls.drop_last());
        let l = ls.last();
        if blank_line(l) {
            rest
        } else {
            match rest {
                None => Some(leading_blanks(l)),
                Some(m) => Some(if m <= leading_blanks(l) {
                    m
                } else {
                    leading_blanks(l)
                }),
            }
        }
    }
}

pub open spec fn common_indent(ls: Seq<Seq<char>>) -> int {
    match min_indent(ls) {
        Some(m) => m,
        None => 0,
    }
}

/// The common indent is never negative.
pub proof fn lemma_common_indent_nonneg(ls: Seq<Seq<char>>)
    ensures
        common_indent(ls) >= 0,
        min_indent(ls) matches Some(m) ==> m >= 0,
    decreases ls.len(),
{
    if ls.len() > 0 {
        lemma_common_indent_nonneg(ls.drop_last());
        lemma_blanks_from(ls.last(), 0);
    }
}

/// `l` without its first `m` characters; empty when it is shorter.
pub open spec fn drop_indent(l: Seq<char>, m: int) -> Seq<char> {
    if l.len() >= m {
        l.subrange(m, l.len() as int)
    } else {
        Seq::empty()
    }
}

/// `s` with the common indent of its non-blank lines removed from every
/// line, every line kept; `s` itself when that indent is zero.
pub open spec fn without_indent(s: Seq<char>) -> Seq<char> {
    let ls = lines_of(s);
    let m = common_indent(ls);
    if m == 0 {
        s
    } else {
        text_of_lines(drop_all(ls, m))
    }
}

pub open spec fn drop_all(ls: Seq<Seq<char>>, m: int) -> Seq<Seq<char>> {
    ls.map_values(|l: Seq<char>| drop_indent(l, m))
}

proof fn lemma_blanks_from(l: Seq<char>, i: int)
    requires
        0 <= i <= l.len(),
    ensures
        0 <= blanks_from(l, i) <= l.len() - i,
        blanks_from(l, i) == l.len() - i <==> (forall|j: int| i <= j < l.len() ==> l[j] == ' '),
    decreases l.len() - i,
{
    if i < l.len() {
        lemma_blanks_from(l, i + 1);
        if l[i] != ' ' {
            assert(blanks_from(l, i) == 0);
        }
    }
}

fn leading_blanks_exec(l: &Vec<char>) -> (r: usize)
    ensures
        r == leading_blanks(l@),
        r == l@.len() <==> blank_line(l@),
{
    let mut i: usize = 0;
    while i < l.len() && l[i] == ' '
        invariant
            i <= l.len(),
            blanks_from(l@, 0) == i + blanks_from(l@, i as int),
            forall|j: int| 0 <= j < i ==> l@[j] == ' ',
        decreases l.len() - i,
    {
        i += 1;
    }
    proof {
        lemma_blanks_from(l@, i as int);
        lemma_blanks_from(l@, 0);
    }
    i
}

pub fn common_indent_exec(ls: &Vec<Vec<char>>) -> (r: usize)
    ensures
        r == common_indent(seqs(ls@)),
{
    let mut best: Option<usize> = None;
    let mut i: usize = 0;
    while i < ls.len()
        invariant
            i <= ls.len(),
            match best {
                Some(b) => min_indent(seqs(ls@).take(i as int)) == Some(b as int),
                None => min_indent(seqs(ls@).take(i as int)) is None,
            },
        decreases ls.len() - i,
    {
        let ghost t = seqs(ls@).take(i + 1);
        assert(t.drop_last() =~= seqs(ls@).take(i as int));
        assert(t.last() == ls@[i as int]@);
        let n = leading_blanks_exec(&ls[i]);
        if n != ls[i].len() {
            best = match best {
                None => Some(n),
                Some(b) => Some(if b <= n {
                    b
                } else {
                    n
                }),
            };
        }
        i += 1;
    }
    assert(seqs(ls@).take(ls.len() as int) =~= seqs(ls@));
    match best {
        Some(b) => b,
        None => 0,
    }
}

/// The lines of `ls` each without their first `m` characters.
pub fn strip_indent_lines(ls: &Vec<Vec<char>>, m: usize) -> (r: Vec<Vec<char>>)
    ensures
        seqs(r@) == drop_all(seqs(ls@), m as int),
{
    let mut out: Vec<Vec<char>> = Vec::new();
    let mut i: usize = 0;
    while i < ls.len()
        invariant
            i <= ls.len(),
            seqs(out@) == drop_all(seqs(ls@).take(i as int), m as int),
        decreases ls.len() - i,
    {
        let line = &ls[i];
        let mut kept: Vec<char> = Vec::new();
        if line.len() >= m {
            let mut j: usize = m;
            while j < line.len()
                invariant
                    m <= j <= line.len(),
                    kept@ == line@.subrange(m as int, j as int),
                decreases line.len() - j,
            {
                kept.push(line[j]);
                assert(kept@ =~= line@.subrange(m as int, j + 1));
                j += 1;
            }
        }
        assert(kept@ =~= drop_indent(line@, m as int));
        let ghost before = seqs(out@);
        let ghost kv = kept@;
        out.push(kept);
        assert(seqs(out@) =~= before.push(kv));
        assert(drop_all(seqs(ls@).take(i + 1), m as int) =~= drop_all(seqs(ls@).take(i as int), m as int).push(
            drop_indent(ls@[i as int]@, m as int),
        ));
        i += 1;
    }
    assert(seqs(ls@).take(ls.len() as int) =~= seqs(ls@));
    out
}

/// Dropping no characters leaves every line as it is.
pub proof fn lemma_drop_nothing(ls: Seq<Seq<char>>)
    ensures
        drop_all(ls, 0) == ls,
{
    assert forall|q: int| 0 <= q < ls.len() implies #[trigger] drop_all(ls, 0)[q] == ls[q] by {
        assert(ls[q].subrange(0, ls[q].len() as int) =~= ls[q]);
    }
    assert(drop_all(ls, 0) =~= ls);
}

/// Removes the common indent (the fewest leading blanks over the non-blank
/// lines) from every line; returns the input unchanged when it is zero.
/// Every line is kept, a last empty one included.
pub fn remove_leading_space(input: &str) -> (r: String)
    ensures
        r@ == without_indent(input@),
        lines_of(r@) == drop_all(lines_of(input@), common_indent(lines_of(input@))),
{
    let text = chars_of(input);
    let ls = split_lines(&text);
    let m = common_indent_exec(&ls);
    proof {
        lemma_lines_have_no_break(input@, 0, 0);
    }
    if m == 0 {
        proof {
            lemma_drop_nothing(lines_of(input@));
        }
        return string_of(&text);
    }
    let out = strip_indent_lines(&ls, m);
    proof {
        let d = seqs(out@);
        assert forall|q: int| 0 <= q < d.len() implies no_break(#[trigger] d[q]) by {
            let l = seqs(ls@)[q];
            assert(no_break(l));
            assert forall|t: int| 0 <= t < d[q].len() implies #[trigger] d[q][t] != '\n' by {
                assert(d[q][t] == l[t + m]);
            }
        }
        lemma_text_of_lines(d);
    }
    let joined = text_from_lines(&out);
    string_of(&joined)
}

// ---------------------------------------------------------------------------
// Width equalization
// ---------------------------------------------------------------------------

/// The length of the longest line of `ls`, 0 when there is none.
pub open spec fn max_len(ls: Seq<Seq<char>>) -> int
    decreases ls.len(),
{
    if ls.len() == 0 {
        0
    } else {
        let m = max_len(ls.drop_last());
        if m >= ls.last().len() {
            m
        } else {
            ls.last().len() as int
        }
    }
}

/// `l` padded with blanks to length `w`.
pub open spec fn pad_to(l: Seq<char>, w: int) -> Seq<char> {
    l + Seq::new((w - l.len()) as nat, |i: int| ' ')
}

/// `s` with every line padded with blanks to the length of the longest.
pub open spec fn equalized(s: Seq<char>) -> Seq<char> {
    let ls = lines_of(s);
    let w = max_len(ls);
    text_of_lines(pad_all(ls, w))
}

pub open spec fn pad_all(ls: Seq<Seq<char>>, w: int) -> Seq<Seq<char>> {
    ls.map_values(|l: Seq<char>| pad_to(l, w))
}

pub proof fn lemma_max_len(ls: Seq<Seq<char>>)
    ensures
        max_len(ls) >= 0,
        forall|i: int| 0 <= i < ls.len() ==> #[trigger] ls[i].len() <= max_len(ls),
        ls.len() > 0 ==> exists|i: int| 0 <= i < ls.len() && #[trigger] ls[i].len() == max_len(ls),
    decreases ls.len(),
{
    if ls.len() > 0 {
        lemma_max_len(ls.drop_last());
        assert forall|i: int| 0 <= i < ls.len() implies #[trigger] ls[i].len() <= max_len(ls) by {
            if i < ls.len() - 1 {
                assert(ls[i] == ls.drop_last()[i]);
            }
        }
        if max_len(ls.drop_last()) >= ls.last().len() && ls.len() > 1 {
            let j = choose|j: int| 0 <= j < ls.drop_last().len() && #[trigger] ls.drop_last()[j].len() == max_len(ls.drop_last());
            assert(ls[j] == ls.drop_last()[j]);
        } else {
            assert(ls[ls.len() - 1].len() == max_len(ls));
        }
    }
}

pub fn max_len_exec(ls: &Vec<Vec<char>>) -> (r: usize)
    ensures
        r == max_len(seqs(ls@)),
{
    let mut best: usize = 0;
    let mut i: usize = 0;
    while i < ls.len()
        invariant
            i <= ls.len(),
            best == max_len(seqs(ls@).take(i as int)),
        decreases ls.len() - i,
    {
        let ghost t = seqs(ls@).take(i + 1);
        assert(t.drop_last() =~= seqs(ls@).take(i as int));
        assert(t.last() == ls@[i as int]@);
        if ls[i].len() > best {
            best = ls[i].len();
        }
        i += 1;
    }
    assert(seqs(ls@).take(ls.len() as int) =~= seqs(ls@));
    best
}

/// `l` padded with blanks up to length `w`.
pub fn pad_line(l: &Vec<char>, w: usize) -> (r: Vec<char>)
    requires
        l@.len() <= w,
    ensures
        r@ == pad_to(l@, w as int),
{
    let mut out: Vec<char> = Vec::new();
    crate::lines::push_all(&mut out, l);
    while out.len() < w
        invariant
            l@.len() <= out@.len() <= w,
            out@ == pad_to(l@, out@.len() as int),
        decreases w - out.len(),
    {
        out.push(' ');
        assert(out@ =~= pad_to(l@, out@.len() as int));
    }
    out
}

/// The lines of `ls` each padded with blanks to length `w`.
pub fn pad_lines(ls: &Vec<Vec<char>>, w: usize) -> (r: Vec<Vec<char>>)
    requires
        forall|j: int| 0 <= j < ls.len() ==> #[trigger] seqs(ls@)[j].len() <= w,
    ensures
        seqs(r@) == pad_all(seqs(ls@), w as int),
{
    let mut out: Vec<Vec<char>> = Vec::new();
    let mut i: usize = 0;
    while i < ls.len()
        invariant
            i <= ls.len(),
            forall|j: int| 0 <= j < ls.len() ==> #[trigger] seqs(ls@)[j].len() <= w,
            seqs(out@) == pad_all(seqs(ls@).take(i as int), w as int),
        decreases ls.len() - i,
    {
        assert(seqs(ls@)[i as int] == ls@[i as int]@);
        let padded = pad_line(&ls[i], w);
        let ghost before = seqs(out@);
        let ghost pv = padded@;
        out.push(padded);
        assert(seqs(out@) =~= before.push(pv));
        assert(pad_all(seqs(ls@).take(i + 1), w as int) =~= pad_all(seqs(ls@).take(i as int), w as int).push(
            pad_to(ls@[i as int]@, w as int),
        ));
        i += 1;
    }
    assert(seqs(ls@).take(ls.len() as int) =~= seqs(ls@));
    out
}

/// Pads every line with trailing blanks to the length, in characters, of
/// the longest line. Every line is kept, a last empty one included.
pub fn equalize_line_lengths(input: &str) -> (r: String)
    ensures
        r@ == equalized(input@),
        lines_of(r@) == pad_all(lines_of(input@), max_len(lines_of(input@))),
{
    let text = chars_of(input);
    let ls = split_lines(&text);
    let w = max_len_exec(&ls);
    proof {
        lemma_max_len(seqs(ls@));
        lemma_lines_have_no_break(input@, 0, 0);
    }
    let out = pad_lines(&ls, w);
    proof {
        let d = seqs(out@);
        assert forall|q: int| 0 <= q < d.len() implies no_break(#[trigger] d[q]) by {
            let l = seqs(ls@)[q];
            assert(no_break(l));
            assert forall|t: int| 0 <= t < d[q].len() implies #[trigger] d[q][t] != '\n' by {
                if t < l.len() {
                    assert(d[q][t] == l[t]);
                }
            }
        }
        lemma_text_of_lines(d);
    }
    let joined = text_from_lines(&out);
    string_of(&joined)
}

// ---------------------------------------------------------------------------
// Marker hiding
// ---------------------------------------------------------------------------

/// The private-use stand-in for a marker letter that belongs to a word.
pub open spec fn placeholder(c: char) -> char {
    if c == 'o' {
        '\u{E000}'
    } else if c == 'v' {
        '\u{E001}'
    } else if c == 'V' {
        '\u{E002}'
    } else {
        c
    }
}

/// The marker letter a stand-in replaced; any other character unchanged.
pub open spec fn unhide_char(c: char) -> char {
    if c == '\u{E000}' {
        'o'
    } else if c == '\u{E001}' {
        'v'
    } else if c == '\u{E002}' {
        'V'
    } else {
        c
    }
}

/// The character at `x` of line `l`; a blank outside it.
pub open spec fn near(l: Seq<char>, x: int) -> char {
    if 0 <= x < l.len() {
        l[x]
    } else {
        ' '
    }
}

/// `o`, `v` or `V` with an ASCII letter just left or right of it is part
/// of a word.
pub open spec fn marker_in_word(l: Seq<char>, x: int) -> bool {
    let c = l[x];
    (c == 'o' || c == 'v' || c == 'V') && (ascii_letter(near(l, x - 1)) || ascii_letter(
        near(l, x + 1),
    ))
}

/// `l` with each marker letter that is part of a word replaced by its
/// stand-in.
pub open spec fn hide_line(l: Seq<char>) -> Seq<char> {
    Seq::new(
        l.len(),
        |x: int|
            if marker_in_word(l, x) {
                placeholder(l[x])
            } else {
                l[x]
            },
    )
}

/// `s` with each marker letter that is part of a word replaced by its
/// stand-in, character for character. A line break is no letter, so the
/// neighbours that count are those on the same line.
pub open spec fn hidden(s: Seq<char>) -> Seq<char> {
    hide_line(s)
}

pub open spec fn hide_all(ls: Seq<Seq<char>>) -> Seq<Seq<char>> {
    ls.map_values(|l: Seq<char>| hide_line(l))
}

pub fn hide_line_exec(l: &Vec<char>) -> (r: Vec<char>)
    ensures
        r@ == hide_line(l@),
{
    let mut out: Vec<char> = Vec::new();
    let n = l.len();
    let mut x: usize = 0;
    while x < n
        invariant
            x <= n,
            n == l@.len(),
            out@ == hide_line(l@).take(x as int),
        decreases n - x,
    {
        let c = l[x];
        let left = if x > 0 {
            l[x - 1]
        } else {
            ' '
        };
        let right = if x + 1 < n {
            l[x + 1]
        } else {
            ' '
        };
        let in_word = (c == 'o' || c == 'v' || c == 'V') && (is_ascii_letter(left)
            || is_ascii_letter(right));
        let h = if in_word {
            match c {
                'o' => '\u{E000}',
                'v' => '\u{E001}',
                _ => '\u{E002}',
            }
        } else {
            c
        };
        out.push(h);
        assert(out@ =~= hide_line(l@).take(x + 1));
        x += 1;
    }
    assert(out@ =~= hide_line(l@));
    out
}

/// The lines of `ls` each with their marker letters hidden.
pub fn hide_lines(ls: &Vec<Vec<char>>) -> (r: Vec<Vec<char>>)
    ensures
        seqs(r@) == hide_all(seqs(ls@)),
{
    let mut out: Vec<Vec<char>> = Vec::new();
    let mut i: usize = 0;
    while i < ls.len()
        invariant
            i <= ls.len(),
            seqs(out@) == hide_all(seqs(ls@).take(i as int)),
        decreases ls.len() - i,
    {
        let hl = hide_line_exec(&ls[i]);
        let ghost before = seqs(out@);
        let ghost hv = hl@;
        out.push(hl);
        assert(seqs(out@) =~= before.push(hv));
        assert(hide_all(seqs(ls@).take(i + 1)) =~= hide_all(seqs(ls@).take(i as int)).push(
            hide_line(ls@[i as int]@),
        ));
        i += 1;
    }
    assert(seqs(ls@).take(ls.len() as int) =~= seqs(ls@));
    out
}

/// Replaces `o`, `v` and `V` that have an ASCII letter just left or right of
/// them, on the same line, by private-use stand-ins, so that later passes
/// read them as text rather than as points or arrows. Every other character,
/// line breaks included, is kept as it is.
pub fn hide_markers(input: &str) -> (r: String)
    ensures
        r@ == hidden(input@),
        r@.len() == input@.len(),
        forall|i: int|
            0 <= i < input@.len() ==> #[trigger] r@[i] == input@[i] || r@[i] == placeholder(
                input@[i],
            ),
{
    let text = chars_of(input);
    let out = hide_line_exec(&text);
    string_of(&out)
}

/// `s` with every stand-in turned back into its marker letter.
pub open spec fn unhidden(s: Seq<char>) -> Seq<char> {
    s.map_values(|c: char| unhide_char(c))
}

/// Puts back the marker letters that `hide_markers` replaced.
pub fn unhide_markers(input: &str) -> (r: String)
    ensures
        r@ == unhidden(input@),
{
    let text = chars_of(input);
    let mut out: Vec<char> = Vec::new();
    let mut i: usize = 0;
    while i < text.len()
        invariant
            i <= text.len(),
            text@ == input@,
            out@ == unhidden(input@.take(i as int)),
        decreases text.len() - i,
    {
        let c = text[i];
        let u = if c == '\u{E000}' {
            'o'
        } else if c == '\u{E001}' {
            'v'
        } else if c == '\u{E002}' {
            'V'
        } else {
            c
        };
        out.push(u);
        assert(out@ =~= unhidden(input@.take(i + 1)));
        i += 1;
    }
    assert(input@.take(text.len() as int) =~= input@);
    assert(out@ =~= unhidden(input@));
    string_of(&out)
}

/// The three normalization steps in order: indent, width, markers.
pub open spec fn preprocessed(s: Seq<char>) -> Seq<char> {
    hidden(equalized(without_indent(s)))
}

/// Normalizes a diagram: strips the common indent, equalizes line widths,
/// then hides marker letters that are part of words.
pub fn preprocess(input: &str) -> (r: String)
    ensures
        r@ == preprocessed(input@),
{
    let a = remove_leading_space(input);
    let b = equalize_line_lengths(a.as_str());
    hide_markers(b.as_str())
}

} // verus!
