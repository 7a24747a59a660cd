//! Text as a sequence of lines: splitting, joining, and moving between
//! `&str`, `String` and vectors of characters.
use vstd::prelude::*;

verus! {

/// `l` without one trailing carriage return.
pub open spec fn strip_cr(l: Seq<char>) -> Seq<char> {
    if l.len() > 0 && l.last() == '\r' {
        l.drop_last()
    } else {
        l
    }
}

/// The lines of `s` from position `i` on, the current line having started
/// at `start`. A line ends at each `\n`, which is dropped together with a
/// `\r` just before it; a last line without `\n` is kept when not empty.
pub open spec fn lines_acc(s: Seq<char>, start: int, i: int) -> Seq<Seq<char>>
    decreases s.len() - i,
{
    if i >= s.len() {
        if start < s.len() {
            seq![s.subrange(start, s.len() as int)]
        } else {
            Seq::empty()
        }
    } else if s[i] == '\n' {
        seq![strip_cr(s.subrange(start, i))] + lines_acc(s, i + 1, i + 1)
    } else {
        lines_acc(s, start, i + 1)
    }
}

/// The lines of `s`, as `str::lines` yields them.
pub open spec fn lines_of(s: Seq<char>) -> Seq<Seq<char>> {
    lines_acc(s, 0, 0)
}

pub open spec fn seqs(v: Seq<Vec<char>>) -> Seq<Seq<char>> {
    v.map_values(|r: Vec<char>| r@)
}

/// The characters of `s`.
pub fn chars_of(s: &str) -> (r: Vec<char>)
    ensures
        r@ == s@,
{
    let mut v: Vec<char> = Vec::new();
    for c in it: s.chars()
        invariant
            v@ == it.seq().take(it.index() as int),
    {
        v.push(c);
    }
    assert(v@ =~= s@);
    v
}

/// Relies on `String::push`: it appends one character to the string.
#[verifier::external_body]
fn push_char(s: &mut String, c: char)
    ensures
        final(s)@ == old(s)@.push(c),
{
    s.push(c);
}

/// A string holding the characters of `v`.
pub fn string_of(v: &Vec<char>) -> (r: String)
    ensures
        r@ == v@,
{
    let mut s = String::new();
    let mut i: usize = 0;
    while i < v.len()
        invariant
            i <= v.len(),
            s@ == v@.take(i as int),
        decreases v.len() - i,
    {
        push_char(&mut s, v[i]);
        assert(v@.take(i + 1) =~= v@.take(i as int).push(v@[i as int]));
        i += 1;
    }
    assert(v@.take(v.len() as int) =~= v@);
    s
}

/// Appends the characters of `src` to `dst`.
pub fn push_all(dst: &mut Vec<char>, src: &Vec<char>)
    ensures
        final(dst)@ == old(dst)@ + src@,
{
    let ghost d0 = old(dst)@;
    let mut i: usize = 0;
    while i < src.len()
        invariant
            i <= src.len(),
            dst@ == d0 + src@.take(i as int),
        decreases src.len() - i,
    {
        dst.push(src[i]);
        assert(src@.take(i + 1) =~= src@.take(i as int).push(src@[i as int]));
        i += 1;
    }
    assert(src@.take(src.len() as int) =~= src@);
}

/// Splits `s` into its lines.
pub fn split_lines(s: &Vec<char>) -> (r: Vec<Vec<char>>)
    ensures
        seqs(r@) == lines_of(s@),
{
    let mut out: Vec<Vec<char>> = Vec::new();
    let mut cur: Vec<char> = Vec::new();
    let mut i: usize = 0;
    while i < s.len()
        invariant
            i <= s.len(),
            cur.len() <= i,
            cur@ == s@.subrange(i - cur.len(), i as int),
            seqs(out@) + lines_acc(s@, i - cur.len(), i as int) == lines_of(s@),
        decreases s.len() - i,
    {
        let ghost start = i - cur.len();
        if s[i] == '\n' {
            let mut line = cur;
            if line.len() > 0 && line[line.len() - 1] == '\r' {
                line.pop();
            }
            assert(line@ == strip_cr(s@.subrange(start, i as int)));
            let ghost before = seqs(out@);
            out.push(line);
            assert(seqs(out@) =~= before.push(strip_cr(s@.subrange(start, i as int))));
            cur = Vec::new();
            assert(seqs(out@) + lines_acc(s@, i + 1, i + 1) =~= before + lines_acc(
                s@,
                start,
                i as int,
            ));
        } else {
            cur.push(s[i]);
            assert(cur@ =~= s@.subrange(start, i + 1));
        }
        i += 1;
    }
    if cur.len() > 0 {
        let ghost before = seqs(out@);
        let ghost start = i - cur.len();
        out.push(cur);
        assert(seqs(out@) =~= before + lines_acc(s@, start, i as int));
    } else {
        assert(seqs(out@) =~= seqs(out@) + lines_acc(s@, i as int, i as int));
    }
    out
}

/// The break written after a line that more lines follow: a line ending in
/// a carriage return gets one more, so that reading the text back keeps it.
pub open spec fn line_end(l: Seq<char>) -> Seq<char> {
    if l.len() > 0 && l.last() == '\r' {
        seq!['\r', '\n']
    } else {
        seq!['\n']
    }
}

/// Each line of `ls` followed by its break.
pub open spec fn terminated(ls: Seq<Seq<char>>) -> Seq<char>
    decreases ls.len(),
{
    if ls.len() == 0 {
        Seq::empty()
    } else {
        terminated(ls.drop_last()) + ls.last() + line_end(ls.last())
    }
}

/// The last line as written: an empty one needs a break to exist at all.
pub open spec fn final_line(l: Seq<char>) -> Seq<char> {
    if l.len() == 0 {
        seq!['\n']
    } else {
        l
    }
}

/// A text whose lines are exactly `ls`: lines separated by line breaks,
/// the last one unterminated unless it is empty.
pub open spec fn text_of_lines(ls: Seq<Seq<char>>) -> Seq<char> {
    if ls.len() == 0 {
        Seq::empty()
    } else {
        terminated(ls.drop_last()) + final_line(ls.last())
    }
}

pub open spec fn no_break(l: Seq<char>) -> bool {
    forall|t: int| 0 <= t < l.len() ==> #[trigger] l[t] != '\n'
}

/// Scanning past characters that are no line break changes nothing.
proof fn lemma_lines_skip(s: Seq<char>, start: int, i: int, j: int)
    requires
        0 <= start <= i <= j <= s.len(),
        forall|t: int| i <= t < j ==> #[trigger] s[t] != '\n',
    ensures
        lines_acc(s, start, i) == lines_acc(s, start, j),
    decreases j - i,
{
    if i < j {
        lemma_lines_skip(s, start, i + 1, j);
    }
}

/// Reading lines after a prefix is reading the rest on its own.
proof fn lemma_lines_shift(p: Seq<char>, r: Seq<char>, a: int, b: int)
    requires
        0 <= a <= b <= r.len(),
    ensures
        lines_acc(p + r, p.len() + a, p.len() + b) == lines_acc(r, a, b),
    decreases r.len() - b,
{
    let s = p + r;
    if b < r.len() {
        assert(s[p.len() + b] == r[b]);
        if r[b] == '\n' {
            lemma_lines_shift(p, r, b + 1, b + 1);
            assert(s.subrange(p.len() + a, p.len() + b) =~= r.subrange(a, b));
        } else {
            lemma_lines_shift(p, r, a, b + 1);
        }
    } else {
        assert(s.subrange(p.len() + a, s.len() as int) =~= r.subrange(a, r.len() as int));
    }
}

/// A line followed by its break reads back as that line, then the rest.
proof fn lemma_lines_of_line(l: Seq<char>, r: Seq<char>)
    requires
        no_break(l),
    ensures
        lines_of(l + line_end(l) + r) == seq![l] + lines_of(r),
{
    let p = l + line_end(l);
    let s = p + r;
    assert(l + line_end(l) + r == s);
    let k = p.len() - 1;
    assert forall|t: int| 0 <= t < k implies #[trigger] s[t] != '\n' by {
        if t < l.len() {
            assert(s[t] == l[t]);
        }
    }
    lemma_lines_skip(s, 0, 0, k);
    assert(s[k] == '\n');
    assert(strip_cr(s.subrange(0, k)) =~= l);
    lemma_lines_shift(p, r, 0, 0);
    assert(p + r == s);
}

proof fn lemma_lines_of_terminated(ls: Seq<Seq<char>>, r: Seq<char>)
    requires
        forall|q: int| 0 <= q < ls.len() ==> no_break(#[trigger] ls[q]),
    ensures
        lines_of(terminated(ls) + r) == ls + lines_of(r),
    decreases ls.len(),
{
    if ls.len() == 0 {
        assert(terminated(ls) + r =~= r);
        assert(ls + lines_of(r) =~= lines_of(r));
    } else {
        let front = ls.drop_last();
        let l = ls.last();
        assert(no_break(ls[ls.len() - 1]));
        let r2 = l + line_end(l) + r;
        assert(terminated(ls) + r =~= terminated(front) + r2);
        lemma_lines_of_terminated(front, r2);
        lemma_lines_of_line(l, r);
        assert(front + (seq![l] + lines_of(r)) =~= ls + lines_of(r));
    }
}

/// Reading the lines of `text_of_lines(ls)` gives back `ls`.
pub proof fn lemma_text_of_lines(ls: Seq<Seq<char>>)
    requires
        forall|q: int| 0 <= q < ls.len() ==> no_break(#[trigger] ls[q]),
    ensures
        lines_of(text_of_lines(ls)) == ls,
{
    if ls.len() > 0 {
        let l = ls.last();
        assert(no_break(ls[ls.len() - 1]));
        lemma_lines_of_terminated(ls.drop_last(), final_line(l));
        let f = final_line(l);
        if l.len() == 0 {
            assert(lines_acc(f, 1, 1) =~= Seq::<Seq<char>>::empty());
            assert(strip_cr(f.subrange(0, 0)) =~= l);
            assert(lines_of(f) =~= seq![l]);
        } else {
            lemma_lines_skip(f, 0, 0, f.len() as int);
            assert(f.subrange(0, f.len() as int) =~= l);
            assert(lines_of(f) =~= seq![l]);
        }
        assert(ls.drop_last() + seq![l] =~= ls);
    } else {
        assert(lines_of(text_of_lines(ls)) =~= ls);
    }
}

/// No line of a text holds a line break, and none is longer than the text.
pub proof fn lemma_lines_have_no_break(s: Seq<char>, start: int, i: int)
    requires
        0 <= start <= i <= s.len(),
        forall|t: int| start <= t < i ==> #[trigger] s[t] != '\n',
    ensures
        forall|q: int|
            0 <= q < lines_acc(s, start, i).len() ==> no_break(#[trigger] lines_acc(s, start, i)[q])
                && lines_acc(s, start, i)[q].len() <= s.len(),
        lines_acc(s, start, i).len() <= s.len() - start + 1,
    decreases s.len() - i,
{
    let all = lines_acc(s, start, i);
    if i >= s.len() {
        if start < s.len() {
            assert(no_break(all[0]));
        }
    } else if s[i] == '\n' {
        lemma_lines_have_no_break(s, i + 1, i + 1);
        let rest = lines_acc(s, i + 1, i + 1);
        assert forall|q: int| 0 <= q < all.len() implies no_break(#[trigger] all[q]) && all[q].len()
            <= s.len() by {
            if q == 0 {
                let l = s.subrange(start, i);
                assert(no_break(l));
                assert(no_break(strip_cr(l)));
            } else {
                assert(all[q] == rest[q - 1]);
            }
        }
    } else {
        lemma_lines_have_no_break(s, start, i + 1);
    }
}

/// The text whose lines are `ls`, as `text_of_lines` writes it.
pub fn text_from_lines(ls: &Vec<Vec<char>>) -> (r: Vec<char>)
    ensures
        r@ == text_of_lines(seqs(ls@)),
{
    let mut out: Vec<char> = Vec::new();
    if ls.len() == 0 {
        return out;
    }
    let n = ls.len() - 1;
    let mut i: usize = 0;
    while i < n
        invariant
            i <= n,
            n + 1 == ls.len(),
            out@ == terminated(seqs(ls@).take(i as int)),
        decreases n - i,
    {
        let ghost t = seqs(ls@).take(i + 1);
        assert(t.drop_last() =~= seqs(ls@).take(i as int));
        assert(t.last() == ls@[i as int]@);
        let line = &ls[i];
        push_all(&mut out, line);
        if line.len() > 0 && line[line.len() - 1] == '\r' {
            out.push('\r');
        }
        out.push('\n');
        assert(out@ =~= terminated(t));
        i += 1;
    }
    assert(seqs(ls@).take(n as int) =~= seqs(ls@).drop_last());
    let last = &ls[n];
    if last.len() == 0 {
        out.push('\n');
    } else {
        push_all(&mut out, last);
    }
    assert(out@ =~= text_of_lines(seqs(ls@)));
    out
}

} // verus!
