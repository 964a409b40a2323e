//! Scrolling and word wrapping for the Activity pane. A styled line is a
//! sequence of spans; a span's style is an index into the caller's palette,
//! so that equal styles compare equal here.
use vstd::prelude::*;
use crate::text::{chars_of, push_repeat, repeat_s, string_of};

verus! {

// ---------------------------------------------------------------------------
// Scrolling
// ---------------------------------------------------------------------------

pub open spec fn min_i(a: int, b: int) -> int {
    if a <= b {
        a
    } else {
        b
    }
}

/// The last line's index, saturating at 0, as a 16-bit offset (taken
/// modulo 2^16, as the cast to `u16` does).
pub open spec fn last_line_u16(total_lines: int) -> int {
    (if total_lines >= 1 {
        total_lines - 1
    } else {
        0
    }) % 65536
}

/// Clamp a scroll offset so it can't run past the last line.
pub fn clamp_scroll(scroll: u16, total_lines: usize) -> (r: u16)
    ensures
        r == min_i(scroll as int, last_line_u16(total_lines as int)),
{
    let last: usize = if total_lines >= 1 { total_lines - 1 } else { 0 };
    let max = (last % 65536) as u16;
    if scroll <= max {
        scroll
    } else {
        max
    }
}

/// The offset that shows the last `viewport` lines: the line count (capped
/// at `u16::MAX`) less the viewport, saturating at 0.
pub open spec fn tail_offset(total_lines: int, viewport: int) -> int {
    let total = min_i(total_lines, u16::MAX as int);
    if total >= viewport {
        total - viewport
    } else {
        0
    }
}

/// Resolve the scroll offset to display. `follow` pins to the bottom
/// (newest): the offset that shows the last `viewport` lines. Otherwise
/// the manual `offset` is clamped so it can't scroll past the bottom.
pub fn visible_offset(follow: bool, offset: u16, total_lines: usize, viewport: u16) -> (r: u16)
    ensures
        r == (if follow {
            tail_offset(total_lines as int, viewport as int)
        } else {
            min_i(offset as int, tail_offset(total_lines as int, viewport as int))
        }),
{
    let total: u16 = if total_lines < 65535 { total_lines as u16 } else { u16::MAX };
    let max: u16 = if total >= viewport { total - viewport } else { 0 };
    if follow {
        max
    } else if offset <= max {
        offset
    } else {
        max
    }
}

// ---------------------------------------------------------------------------
// Styled text
// ---------------------------------------------------------------------------

/// The style index of unstyled text.
pub const PLAIN_STYLE: u32 = 0;

/// A run of text in one style.
pub struct StyledSpan {
    pub text: String,
    pub style: u32,
}

/// One character cell: a character and its style.
pub type Cell = (char, u32);

pub open spec fn span_cells(s: StyledSpan) -> Seq<Cell> {
    s.text@.map_values(|c: char| (c, s.style))
}

/// The cells of a line, span after span.
pub open spec fn line_cells(l: Seq<StyledSpan>) -> Seq<Cell>
    decreases l.len(),
{
    if l.len() == 0 {
        Seq::empty()
    } else {
        line_cells(l.drop_last()) + span_cells(l.last())
    }
}

/// Rows of cells, concatenated.
pub open spec fn flatten_rows(rows: Seq<Seq<Cell>>) -> Seq<Cell>
    decreases rows.len(),
{
    if rows.len() == 0 {
        Seq::empty()
    } else {
        rows[0] + flatten_rows(rows.drop_first())
    }
}

/// A span as plain values.
pub open spec fn span_view(s: StyledSpan) -> (Seq<char>, u32) {
    (s.text@, s.style)
}

pub open spec fn spans_view(l: Seq<StyledSpan>) -> Seq<(Seq<char>, u32)> {
    l.map_values(|s: StyledSpan| span_view(s))
}

/// Spans are coalesced: none is empty and neighbours differ in style.
pub open spec fn coalesced(l: Seq<StyledSpan>) -> bool {
    &&& forall|k: int| 0 <= k < l.len() ==> (#[trigger] l[k]).text@.len() > 0
    &&& forall|k: int| 0 <= k < l.len() - 1 ==> (#[trigger] l[k]).style != l[k + 1].style
}

// ---------------------------------------------------------------------------
// Word wrapping
// ---------------------------------------------------------------------------

pub open spec fn is_space(c: Cell) -> bool {
    c.0 == ' '
}

/// End of the word (maximal run of non-space cells) that starts at `i`.
pub open spec fn word_end(cs: Seq<Cell>, i: int) -> int
    decreases cs.len() - i,
{
    if i < 0 || i >= cs.len() || is_space(cs[i]) {
        i
    } else {
        word_end(cs, i + 1)
    }
}

pub proof fn lemma_word_end(cs: Seq<Cell>, i: int)
    requires
        0 <= i <= cs.len(),
    ensures
        i <= word_end(cs, i) <= cs.len(),
        i < cs.len() && !is_space(cs[i]) ==> word_end(cs, i) > i,
        forall|k: int| i <= k < word_end(cs, i) ==> !is_space(#[trigger] cs[k]),
        word_end(cs, i) < cs.len() ==> is_space(cs[word_end(cs, i)]),
    decreases cs.len() - i,
{
    if i < cs.len() && !is_space(cs[i]) {
        lemma_word_end(cs, i + 1);
    }
}

pub open spec fn wrap_measure(n: int, i: int, hard_until: int) -> int {
    2 * (n - i) + if i < hard_until {
        0int
    } else {
        1int
    }
}

/// Greedy word wrap of `cs[i..]` to rows of at most `w` cells, with `cur`
/// the row being filled. A space is placed as met, starting a new row only
/// when the current one is full. A word that fits on a row of its own moves
/// whole to a new row when it does not fit on the current one; a longer word
/// is split cell by cell (while `i < hard_until`) to fill each row.
pub open spec fn wrap_from(cs: Seq<Cell>, i: int, w: int, cur: Seq<Cell>, hard_until: int) -> Seq<Seq<Cell>>
    decreases wrap_measure(cs.len() as int, i, hard_until),
{
    if i < 0 || i >= cs.len() {
        seq![cur]
    } else if is_space(cs[i]) || i < hard_until {
        if cur.len() >= w {
            seq![cur] + wrap_from(cs, i + 1, w, seq![cs[i]], hard_until)
        } else {
            wrap_from(cs, i + 1, w, cur.push(cs[i]), hard_until)
        }
    } else {
        let j = word_end(cs, i);
        proof {
            lemma_word_end(cs, i);
        }
        if j <= i {
            seq![cur]
        } else if j - i <= w {
            if cur.len() + (j - i) > w {
                seq![cur] + wrap_from(cs, j, w, cs.subrange(i, j), hard_until)
            } else {
                wrap_from(cs, j, w, cur + cs.subrange(i, j), hard_until)
            }
        } else {
            wrap_from(cs, i, w, cur, j)
        }
    }
}

/// The rows of cells a line wraps to: the line itself when `w == 0` or it
/// is empty.
pub open spec fn wrap_cells(cs: Seq<Cell>, w: int) -> Seq<Seq<Cell>> {
    if w <= 0 || cs.len() == 0 {
        seq![cs]
    } else {
        wrap_from(cs, 0, w, Seq::empty(), 0)
    }
}

proof fn lemma_flatten_cons(r: Seq<Cell>, rest: Seq<Seq<Cell>>)
    ensures
        flatten_rows(seq![r] + rest) == r + flatten_rows(rest),
{
    assert((seq![r] + rest).drop_first() =~= rest);
}

/// Wrapping loses and adds nothing: the rows, concatenated, are the row
/// being filled followed by the cells still to place.
proof fn lemma_wrap_concat(cs: Seq<Cell>, i: int, w: int, cur: Seq<Cell>, hu: int)
    requires
        0 <= i <= cs.len(),
    ensures
        flatten_rows(wrap_from(cs, i, w, cur, hu)) == cur + cs.subrange(i, cs.len() as int),
    decreases wrap_measure(cs.len() as int, i, hu),
{
    let n = cs.len() as int;
    if i >= n {
        assert(flatten_rows(seq![cur]) == cur + flatten_rows(seq![cur].drop_first()));
        assert(seq![cur].drop_first() =~= Seq::<Seq<Cell>>::empty());
        assert(cs.subrange(i, n) =~= Seq::<Cell>::empty());
        assert(cur + Seq::<Cell>::empty() =~= cur);
    } else if is_space(cs[i]) || i < hu {
        if cur.len() >= w {
            lemma_wrap_concat(cs, i + 1, w, seq![cs[i]], hu);
            lemma_flatten_cons(cur, wrap_from(cs, i + 1, w, seq![cs[i]], hu));
            assert(seq![cs[i]] + cs.subrange(i + 1, n) =~= cs.subrange(i, n));
            assert(cur + (seq![cs[i]] + cs.subrange(i + 1, n)) =~= cur + cs.subrange(i, n));
        } else {
            lemma_wrap_concat(cs, i + 1, w, cur.push(cs[i]), hu);
            assert(cur.push(cs[i]) + cs.subrange(i + 1, n) =~= cur + cs.subrange(i, n));
        }
    } else {
        let j = word_end(cs, i);
        lemma_word_end(cs, i);
        if j - i <= w {
            if cur.len() + (j - i) > w {
                lemma_wrap_concat(cs, j, w, cs.subrange(i, j), hu);
                lemma_flatten_cons(cur, wrap_from(cs, j, w, cs.subrange(i, j), hu));
                assert(cur + (cs.subrange(i, j) + cs.subrange(j, n)) =~= cur + cs.subrange(i, n));
            } else {
                lemma_wrap_concat(cs, j, w, cur + cs.subrange(i, j), hu);
                assert((cur + cs.subrange(i, j)) + cs.subrange(j, n) =~= cur + cs.subrange(i, n));
            }
        } else {
            lemma_wrap_concat(cs, i, w, cur, j);
        }
    }
}

/// No row is wider than `w`, given that the row being filled is not.
proof fn lemma_wrap_width(cs: Seq<Cell>, i: int, w: int, cur: Seq<Cell>, hu: int)
    requires
        0 <= i <= cs.len(),
        w > 0,
        cur.len() <= w,
    ensures
        forall|k: int| 0 <= k < wrap_from(cs, i, w, cur, hu).len() ==> (#[trigger] wrap_from(cs, i, w, cur, hu)[k]).len() <= w,
    decreases wrap_measure(cs.len() as int, i, hu),
{
    let n = cs.len() as int;
    if i >= n {
        assert(wrap_from(cs, i, w, cur, hu) =~= seq![cur]);
        assert(seq![cur][0] == cur);
    } else if is_space(cs[i]) || i < hu {
        if cur.len() >= w {
            lemma_wrap_width(cs, i + 1, w, seq![cs[i]], hu);
            let rest = wrap_from(cs, i + 1, w, seq![cs[i]], hu);
            assert(wrap_from(cs, i, w, cur, hu) == seq![cur] + rest);
            assert((seq![cur] + rest)[0] == cur);
            assert forall|k: int| 0 <= k < (seq![cur] + rest).len() implies (#[trigger] (seq![cur] + rest)[k]).len() <= w by {
                if k > 0 {
                    assert((seq![cur] + rest)[k] == rest[k - 1]);
                }
            }
        } else {
            lemma_wrap_width(cs, i + 1, w, cur.push(cs[i]), hu);
            assert(wrap_from(cs, i, w, cur, hu) == wrap_from(cs, i + 1, w, cur.push(cs[i]), hu));
        }
    } else {
        let j = word_end(cs, i);
        lemma_word_end(cs, i);
        if j - i <= w {
            if cur.len() + (j - i) > w {
                lemma_wrap_width(cs, j, w, cs.subrange(i, j), hu);
                let rest = wrap_from(cs, j, w, cs.subrange(i, j), hu);
                assert(wrap_from(cs, i, w, cur, hu) == seq![cur] + rest);
                assert((seq![cur] + rest)[0] == cur);
                assert forall|k: int| 0 <= k < (seq![cur] + rest).len() implies (#[trigger] (seq![cur] + rest)[k]).len() <= w by {
                    if k > 0 {
                        assert((seq![cur] + rest)[k] == rest[k - 1]);
                    }
                }
            } else {
                lemma_wrap_width(cs, j, w, cur + cs.subrange(i, j), hu);
                assert(wrap_from(cs, i, w, cur, hu) == wrap_from(cs, j, w, cur + cs.subrange(i, j), hu));
            }
        } else {
            lemma_wrap_width(cs, i, w, cur, j);
            assert(wrap_from(cs, i, w, cur, hu) == wrap_from(cs, i, w, cur, j));
        }
    }
}

/// No row is empty, given that the row being filled is not or cells remain.
proof fn lemma_wrap_nonempty(cs: Seq<Cell>, i: int, w: int, cur: Seq<Cell>, hu: int)
    requires
        0 <= i <= cs.len(),
        w > 0,
        cur.len() > 0 || i < cs.len(),
    ensures
        forall|k: int| 0 <= k < wrap_from(cs, i, w, cur, hu).len() ==> (#[trigger] wrap_from(cs, i, w, cur, hu)[k]).len() > 0,
    decreases wrap_measure(cs.len() as int, i, hu),
{
    let n = cs.len() as int;
    if i >= n {
        assert(wrap_from(cs, i, w, cur, hu) =~= seq![cur]);
        assert(seq![cur][0] == cur);
    } else if is_space(cs[i]) || i < hu {
        if cur.len() >= w {
            lemma_wrap_nonempty(cs, i + 1, w, seq![cs[i]], hu);
            let rest = wrap_from(cs, i + 1, w, seq![cs[i]], hu);
            assert(wrap_from(cs, i, w, cur, hu) == seq![cur] + rest);
            assert((seq![cur] + rest)[0] == cur);
            assert forall|k: int| 0 <= k < (seq![cur] + rest).len() implies (#[trigger] (seq![cur] + rest)[k]).len() > 0 by {
                if k > 0 {
                    assert((seq![cur] + rest)[k] == rest[k - 1]);
                }
            }
        } else {
            lemma_wrap_nonempty(cs, i + 1, w, cur.push(cs[i]), hu);
            assert(wrap_from(cs, i, w, cur, hu) == wrap_from(cs, i + 1, w, cur.push(cs[i]), hu));
        }
    } else {
        let j = word_end(cs, i);
        lemma_word_end(cs, i);
        if j - i <= w {
            if cur.len() + (j - i) > w {
                lemma_wrap_nonempty(cs, j, w, cs.subrange(i, j), hu);
                let rest = wrap_from(cs, j, w, cs.subrange(i, j), hu);
                assert(wrap_from(cs, i, w, cur, hu) == seq![cur] + rest);
                assert((seq![cur] + rest)[0] == cur);
                assert forall|k: int| 0 <= k < (seq![cur] + rest).len() implies (#[trigger] (seq![cur] + rest)[k]).len() > 0 by {
                    if k > 0 {
                        assert((seq![cur] + rest)[k] == rest[k - 1]);
                    }
                }
            } else {
                lemma_wrap_nonempty(cs, j, w, cur + cs.subrange(i, j), hu);
                assert(wrap_from(cs, i, w, cur, hu) == wrap_from(cs, j, w, cur + cs.subrange(i, j), hu));
            }
        } else {
            lemma_wrap_nonempty(cs, i, w, cur, j);
            assert(wrap_from(cs, i, w, cur, hu) == wrap_from(cs, i, w, cur, j));
        }
    }
}

/// Start of the word (maximal run of non-space cells) that position `p`
/// lies in or begins.
pub open spec fn word_start(cs: Seq<Cell>, p: int) -> int
    decreases p,
{
    if p <= 0 || p > cs.len() {
        if p <= 0 {
            0
        } else {
            p
        }
    } else if is_space(cs[p - 1]) {
        p
    } else {
        word_start(cs, p - 1)
    }
}

proof fn lemma_word_start(cs: Seq<Cell>, p: int)
    requires
        0 <= p <= cs.len(),
    ensures
        0 <= word_start(cs, p) <= p,
        forall|k: int| word_start(cs, p) <= k < p ==> !is_space(#[trigger] cs[k]),
    decreases p,
{
    if p > 0 && !is_space(cs[p - 1]) {
        lemma_word_start(cs, p - 1);
    }
}

/// A row break before position `p` is allowed: it sits inside the line and
/// next to a space, or inside a word too wide for a row of its own.
pub open spec fn break_ok(cs: Seq<Cell>, w: int, p: int) -> bool {
    &&& 0 < p < cs.len()
    &&& (is_space(cs[p - 1]) || is_space(cs[p]) || word_end(cs, word_start(cs, p)) - word_start(cs, p) > w)
}

/// The scan is at a word start whenever it is about to measure a word, and
/// while it splits a long word, that word is wider than a row.
pub open spec fn scan_ok(cs: Seq<Cell>, w: int, i: int, hu: int) -> bool {
    &&& (i < cs.len() && !is_space(cs[i]) && i >= hu) ==> (i == 0 || is_space(cs[i - 1]))
    &&& i < hu ==> (hu <= cs.len() && hu == word_end(cs, word_start(cs, i)) && hu - word_start(cs, i) > w
        && word_start(cs, i) <= i)
}

proof fn lemma_breaks_ok(cs: Seq<Cell>, i: int, w: int, cur: Seq<Cell>, hu: int, s0: int)
    requires
        0 <= i <= cs.len(),
        w > 0,
        s0 >= 0,
        s0 + cur.len() == i,
        scan_ok(cs, w, i, hu),
    ensures
        forall|k: int|
            0 <= k < wrap_from(cs, i, w, cur, hu).len() - 1 ==> break_ok(
                cs,
                w,
                s0 + (#[trigger] flatten_rows(wrap_from(cs, i, w, cur, hu).take(k + 1))).len(),
            ),
    decreases wrap_measure(cs.len() as int, i, hu),
{
    let n = cs.len() as int;
    let rows = wrap_from(cs, i, w, cur, hu);
    if i >= n {
        assert(rows =~= seq![cur]);
    } else if is_space(cs[i]) || i < hu {
        lemma_word_start(cs, i);
        if i < hu {
            lemma_word_end(cs, word_start(cs, i));
            assert(!is_space(cs[i]));
        }
        if cur.len() >= w {
            let rest = wrap_from(cs, i + 1, w, seq![cs[i]], hu);
            assert(rows == seq![cur] + rest);
            assert(scan_ok(cs, w, i + 1, hu));
            lemma_breaks_ok(cs, i + 1, w, seq![cs[i]], hu, i);
            assert forall|k: int| 0 <= k < rows.len() - 1 implies break_ok(
                cs,
                w,
                s0 + (#[trigger] flatten_rows(rows.take(k + 1))).len(),
            ) by {
                assert(rows.take(k + 1) =~= seq![cur] + rest.take(k));
                lemma_flatten_cons(cur, rest.take(k));
                if k > 0 {
                    assert(rest.take(k) == rest.take((k - 1) + 1));
                } else {
                    assert(rest.take(0) =~= Seq::<Seq<Cell>>::empty());
                    assert(flatten_rows(rest.take(0)) =~= Seq::<Cell>::empty());
                }
            }
        } else {
            assert(rows == wrap_from(cs, i + 1, w, cur.push(cs[i]), hu));
            assert(scan_ok(cs, w, i + 1, hu));
            lemma_breaks_ok(cs, i + 1, w, cur.push(cs[i]), hu, s0);
        }
    } else {
        let j = word_end(cs, i);
        lemma_word_end(cs, i);
        assert(word_start(cs, i) == i);
        if j - i <= w {
            if cur.len() + (j - i) > w {
                let rest = wrap_from(cs, j, w, cs.subrange(i, j), hu);
                assert(rows == seq![cur] + rest);
                assert(scan_ok(cs, w, j, hu));
                lemma_breaks_ok(cs, j, w, cs.subrange(i, j), hu, i);
                assert forall|k: int| 0 <= k < rows.len() - 1 implies break_ok(
                    cs,
                    w,
                    s0 + (#[trigger] flatten_rows(rows.take(k + 1))).len(),
                ) by {
                    assert(rows.take(k + 1) =~= seq![cur] + rest.take(k));
                    lemma_flatten_cons(cur, rest.take(k));
                    if k > 0 {
                        assert(rest.take(k) == rest.take((k - 1) + 1));
                    } else {
                        assert(rest.take(0) =~= Seq::<Seq<Cell>>::empty());
                        assert(flatten_rows(rest.take(0)) =~= Seq::<Cell>::empty());
                    }
                }
            } else {
                assert(rows == wrap_from(cs, j, w, cur + cs.subrange(i, j), hu));
                assert(scan_ok(cs, w, j, hu));
                lemma_breaks_ok(cs, j, w, cur + cs.subrange(i, j), hu, s0);
            }
        } else {
            assert(rows == wrap_from(cs, i, w, cur, j));
            assert(scan_ok(cs, w, i, j));
            lemma_breaks_ok(cs, i, w, cur, j, s0);
        }
    }
}

/// A word that fits on a row of its own is never split across rows: every
/// row break sits next to a space or inside a word wider than a row.
pub proof fn lemma_wrap_keeps_fitting_words(cs: Seq<Cell>, w: int)
    requires
        w > 0,
        cs.len() > 0,
    ensures
        forall|k: int|
            0 <= k < wrap_cells(cs, w).len() - 1 ==> break_ok(
                cs,
                w,
                (#[trigger] flatten_rows(wrap_cells(cs, w).take(k + 1))).len() as int,
            ),
{
    lemma_breaks_ok(cs, 0, w, Seq::empty(), 0, 0);
}

/// Wrapping a line to a positive width: concatenating the rows gives the
/// line back, no row is wider than the width, and no row is empty.
pub proof fn lemma_wrap_cells_laws(cs: Seq<Cell>, w: int)
    requires
        w > 0,
        cs.len() > 0,
    ensures
        flatten_rows(wrap_cells(cs, w)) == cs,
        forall|k: int| 0 <= k < wrap_cells(cs, w).len() ==> (#[trigger] wrap_cells(cs, w)[k]).len() <= w,
        forall|k: int| 0 <= k < wrap_cells(cs, w).len() ==> (#[trigger] wrap_cells(cs, w)[k]).len() > 0,
{
    lemma_wrap_concat(cs, 0, w, Seq::empty(), 0);
    assert(Seq::<Cell>::empty() + cs.subrange(0, cs.len() as int) =~= cs);
    lemma_wrap_width(cs, 0, w, Seq::empty(), 0);
    lemma_wrap_nonempty(cs, 0, w, Seq::empty(), 0);
}

pub open spec fn styled_chars(t: Seq<char>, style: u32) -> Seq<Cell> {
    t.map_values(|c: char| (c, style))
}

/// The cells of a line.
pub fn cells_of_line(line: &Vec<StyledSpan>) -> (v: Vec<Cell>)
    ensures
        v@ == line_cells(line@),
{
    let mut v: Vec<Cell> = Vec::new();
    let mut k: usize = 0;
    while k < line.len()
        invariant
            k <= line.len(),
            v@ == line_cells(line@.take(k as int)),
        decreases line.len() - k,
    {
        let sp = &line[k];
        let cs = chars_of(sp.text.as_str());
        let ghost before = v@;
        let mut m: usize = 0;
        while m < cs.len()
            invariant
                m <= cs.len(),
                v@ == before + styled_chars(cs@.take(m as int), sp.style),
            decreases cs.len() - m,
        {
            v.push((cs[m], sp.style));
            assert(styled_chars(cs@.take(m + 1), sp.style) =~= styled_chars(cs@.take(m as int), sp.style).push((cs@[m as int], sp.style)));
            m += 1;
        }
        assert(cs@.take(cs.len() as int) =~= cs@);
        assert(line@.take(k + 1).drop_last() =~= line@.take(k as int));
        assert(span_cells(line@[k as int]) =~= styled_chars(cs@, sp.style));
        k += 1;
    }
    assert(line@.take(line.len() as int) =~= line@);
    v
}

fn make_span(buf: &Vec<char>, style: u32) -> (sp: StyledSpan)
    ensures
        sp.text@ == buf@,
        sp.style == style,
        span_cells(sp) == styled_chars(buf@, style),
{
    StyledSpan { text: string_of(buf), style }
}

/// Coalesce a row of cells into spans, merging neighbouring cells of equal
/// style into one span.
pub fn row_to_line(row: &Vec<Cell>) -> (r: Vec<StyledSpan>)
    ensures
        line_cells(r@) == row@,
        coalesced(r@),
{
    let mut spans: Vec<StyledSpan> = Vec::new();
    let mut buf: Vec<char> = Vec::new();
    let mut cur_style: u32 = 0;
    let mut i: usize = 0;
    while i < row.len()
        invariant
            i <= row.len(),
            line_cells(spans@) + styled_chars(buf@, cur_style) == row@.take(i as int),
            coalesced(spans@),
            i > 0 ==> buf@.len() > 0,
            i == 0 ==> buf@.len() == 0 && spans@.len() == 0,
            spans@.len() > 0 ==> spans@.last().style != cur_style,
        decreases row.len() - i,
    {
        let (ch, st) = row[i];
        if i > 0 && st != cur_style {
            let sp = make_span(&buf, cur_style);
            let ghost old_spans = spans@;
            spans.push(sp);
            assert(spans@.drop_last() =~= old_spans);
            assert forall|k: int| 0 <= k < spans@.len() - 1 implies (#[trigger] spans@[k]).style != spans@[k + 1].style by {
                if k < old_spans.len() - 1 {
                    assert(spans@[k] == old_spans[k]);
                    assert(spans@[k + 1] == old_spans[k + 1]);
                }
            }
            buf = Vec::new();
        }
        cur_style = st;
        let ghost old_buf = buf@;
        buf.push(ch);
        assert(styled_chars(buf@, cur_style) =~= styled_chars(old_buf, cur_style).push((ch, st)));
        assert(row@.take(i + 1) =~= row@.take(i as int).push(row@[i as int]));
        i += 1;
    }
    if row.len() > 0 {
        let sp = make_span(&buf, cur_style);
        let ghost old_spans = spans@;
        spans.push(sp);
        assert(spans@.drop_last() =~= old_spans);
        assert forall|k: int| 0 <= k < spans@.len() - 1 implies (#[trigger] spans@[k]).style != spans@[k + 1].style by {
            if k < old_spans.len() - 1 {
                assert(spans@[k] == old_spans[k]);
                assert(spans@[k + 1] == old_spans[k + 1]);
            }
        }
    } else {
        assert(styled_chars(buf@, cur_style) =~= Seq::<Cell>::empty());
    }
    assert(row@.take(row.len() as int) =~= row@);
    spans
}

pub open spec fn rows_view(rows: Seq<Vec<Cell>>) -> Seq<Seq<Cell>> {
    rows.map_values(|r: Vec<Cell>| r@)
}

fn word_end_exec(cs: &Vec<Cell>, i: usize) -> (j: usize)
    requires
        i <= cs.len(),
    ensures
        j == word_end(cs@, i as int),
        i <= j <= cs.len(),
{
    let mut j = i;
    while j < cs.len() && cs[j].0 != ' '
        invariant
            i <= j <= cs.len(),
            word_end(cs@, i as int) == word_end(cs@, j as int),
        decreases cs.len() - j,
    {
        j += 1;
    }
    j
}

fn push_cells(dst: &mut Vec<Cell>, cs: &Vec<Cell>, lo: usize, hi: usize)
    requires
        lo <= hi <= cs.len(),
    ensures
        final(dst)@ == old(dst)@ + cs@.subrange(lo as int, hi as int),
{
    let mut k = lo;
    while k < hi
        invariant
            lo <= k <= hi <= cs.len(),
            dst@ == old(dst)@ + cs@.subrange(lo as int, k as int),
        decreases hi - k,
    {
        dst.push(cs[k]);
        assert(cs@.subrange(lo as int, k + 1) =~= cs@.subrange(lo as int, k as int).push(cs@[k as int]));
        k += 1;
    }
}

/// Greedy word wrap of a non-empty cell sequence to a positive width.
fn wrap_cells_exec(cs: &Vec<Cell>, w: usize) -> (rows: Vec<Vec<Cell>>)
    requires
        w > 0,
    ensures
        rows_view(rows@) == wrap_from(cs@, 0, w as int, Seq::empty(), 0),
{
    let n = cs.len();
    let mut rows: Vec<Vec<Cell>> = Vec::new();
    let mut cur: Vec<Cell> = Vec::new();
    let mut i: usize = 0;
    let mut hu: usize = 0;
    assert(rows_view(rows@) + wrap_from(cs@, 0, w as int, cur@, 0) =~= wrap_from(cs@, 0, w as int, Seq::empty(), 0));
    while i < n
        invariant
            n == cs.len(),
            w > 0,
            i <= n,
            hu <= n,
            cur@.len() <= w,
            rows_view(rows@) + wrap_from(cs@, i as int, w as int, cur@, hu as int) == wrap_from(
                cs@,
                0,
                w as int,
                Seq::empty(),
                0,
            ),
        decreases wrap_measure(n as int, i as int, hu as int),
    {
        let ghost pre = rows_view(rows@);
        if cs[i].0 == ' ' || i < hu {
            if cur.len() >= w {
                let ghost rest = wrap_from(cs@, i + 1, w as int, seq![cs@[i as int]], hu as int);
                assert(wrap_from(cs@, i as int, w as int, cur@, hu as int) == seq![cur@] + rest);
                let mut next: Vec<Cell> = Vec::new();
                next.push(cs[i]);
                assert(next@ =~= seq![cs@[i as int]]);
                rows.push(cur);
                assert(rows_view(rows@) =~= pre.push(rows@.last()@));
                assert(pre + (seq![rows@.last()@] + rest) =~= pre.push(rows@.last()@) + rest);
                cur = next;
            } else {
                assert(wrap_from(cs@, i as int, w as int, cur@, hu as int) == wrap_from(
                    cs@,
                    i + 1,
                    w as int,
                    cur@.push(cs@[i as int]),
                    hu as int,
                ));
                cur.push(cs[i]);
            }
            i += 1;
        } else {
            let j = word_end_exec(cs, i);
            proof {
                lemma_word_end(cs@, i as int);
            }
            if j - i <= w {
                if j - i > w - cur.len() {
                    let ghost rest = wrap_from(cs@, j as int, w as int, cs@.subrange(i as int, j as int), hu as int);
                    assert(wrap_from(cs@, i as int, w as int, cur@, hu as int) == seq![cur@] + rest);
                    let mut next: Vec<Cell> = Vec::new();
                    push_cells(&mut next, cs, i, j);
                    assert(next@ =~= cs@.subrange(i as int, j as int));
                    rows.push(cur);
                    assert(rows_view(rows@) =~= pre.push(rows@.last()@));
                    assert(pre + (seq![rows@.last()@] + rest) =~= pre.push(rows@.last()@) + rest);
                    cur = next;
                } else {
                    assert(wrap_from(cs@, i as int, w as int, cur@, hu as int) == wrap_from(
                        cs@,
                        j as int,
                        w as int,
                        cur@ + cs@.subrange(i as int, j as int),
                        hu as int,
                    ));
                    push_cells(&mut cur, cs, i, j);
                }
                i = j;
            } else {
                assert(wrap_from(cs@, i as int, w as int, cur@, hu as int) == wrap_from(
                    cs@,
                    i as int,
                    w as int,
                    cur@,
                    j as int,
                ));
                hu = j;
            }
        }
    }
    let ghost pre = rows_view(rows@);
    assert(wrap_from(cs@, i as int, w as int, cur@, hu as int) == seq![cur@]);
    rows.push(cur);
    assert(rows_view(rows@) =~= pre.push(rows@.last()@));
    assert(pre + seq![rows@.last()@] =~= pre.push(rows@.last()@));
    rows
}

proof fn lemma_line_cells_view(a: Seq<StyledSpan>, b: Seq<StyledSpan>)
    requires
        spans_view(a) == spans_view(b),
    ensures
        line_cells(a) == line_cells(b),
    decreases a.len(),
{
    assert(spans_view(a).len() == a.len());
    assert(spans_view(b).len() == b.len());
    if a.len() > 0 {
        assert(spans_view(a.drop_last()) =~= spans_view(a).drop_last());
        assert(spans_view(b.drop_last()) =~= spans_view(b).drop_last());
        lemma_line_cells_view(a.drop_last(), b.drop_last());
        assert(span_view(a.last()) == spans_view(a)[a.len() - 1]);
        assert(span_view(b.last()) == spans_view(b)[b.len() - 1]);
        assert(span_cells(a.last()) =~= span_cells(b.last()));
    }
}

/// A copy of a line, span for span.
pub fn copy_line(line: &Vec<StyledSpan>) -> (r: Vec<StyledSpan>)
    ensures
        spans_view(r@) == spans_view(line@),
        line_cells(r@) == line_cells(line@),
{
    let mut r: Vec<StyledSpan> = Vec::new();
    let mut k: usize = 0;
    while k < line.len()
        invariant
            k <= line.len(),
            spans_view(r@) == spans_view(line@.take(k as int)),
        decreases line.len() - k,
    {
        let t = line[k].text.clone();
        assert(t@ == line@[k as int].text@);
        let sp = StyledSpan { text: t, style: line[k].style };
        assert(span_view(sp) == span_view(line@[k as int]));
        let ghost old_r = r@;
        r.push(sp);
        assert(spans_view(r@) =~= spans_view(old_r).push(span_view(sp)));
        assert(line@.take(k + 1) =~= line@.take(k as int).push(line@[k as int]));
        assert(spans_view(line@.take(k + 1)) =~= spans_view(line@.take(k as int)).push(span_view(line@[k as int])));
        k += 1;
    }
    assert(line@.take(line.len() as int) =~= line@);
    proof {
        lemma_line_cells_view(r@, line@);
    }
    r
}

/// Wrap one styled line to `width` columns on word boundaries, keeping span
/// styles: a word that fits on a row of its own is never split across rows,
/// a longer word is split to fill each row, spaces are placed as met. Each
/// row's spans are coalesced. `width == 0` or an empty line gives the line
/// back unchanged as the single row. Widths count characters.
pub fn wrap_line(line: &Vec<StyledSpan>, width: usize) -> (rows: Vec<Vec<StyledSpan>>)
    ensures
        rows@.len() == wrap_cells(line_cells(line@), width as int).len(),
        forall|k: int| 0 <= k < rows@.len() ==> line_cells(#[trigger] rows@[k]@) == wrap_cells(line_cells(line@), width as int)[k],
        width > 0 && line_cells(line@).len() > 0 ==> forall|k: int| 0 <= k < rows@.len() ==> coalesced(#[trigger] rows@[k]@),
        width == 0 || line_cells(line@).len() == 0 ==> spans_view(rows@[0]@) == spans_view(line@),
{
    let cs = cells_of_line(line);
    if width == 0 || cs.len() == 0 {
        let mut rows: Vec<Vec<StyledSpan>> = Vec::new();
        rows.push(copy_line(line));
        return rows;
    }
    let cell_rows = wrap_cells_exec(&cs, width);
    let mut rows: Vec<Vec<StyledSpan>> = Vec::new();
    let mut k: usize = 0;
    while k < cell_rows.len()
        invariant
            k <= cell_rows.len(),
            rows@.len() == k,
            forall|m: int| 0 <= m < k ==> line_cells(#[trigger] rows@[m]@) == cell_rows@[m]@,
            forall|m: int| 0 <= m < k ==> coalesced(#[trigger] rows@[m]@),
        decreases cell_rows.len() - k,
    {
        let r = row_to_line(&cell_rows[k]);
        rows.push(r);
        k += 1;
    }
    assert forall|m: int| 0 <= m < rows@.len() implies line_cells(#[trigger] rows@[m]@) == wrap_cells(line_cells(line@), width as int)[m] by {
        assert(rows_view(cell_rows@)[m] == cell_rows@[m]@);
    }
    rows
}

/// The cells of an indent of `n` unstyled spaces.
pub open spec fn indent_cells(n: nat) -> Seq<Cell> {
    styled_chars(repeat_s(' ', n), PLAIN_STYLE)
}

/// One source line's rows with the hanging indent: continuation rows get
/// the indent prepended.
pub open spec fn hang_rows(rows: Seq<Seq<Cell>>, indent: nat) -> Seq<Seq<Cell>> {
    Seq::new(
        rows.len(),
        |k: int|
            if k == 0 || indent == 0 {
                rows[k]
            } else {
                indent_cells(indent) + rows[k]
            },
    )
}

pub open spec fn content_width(width: int, indent: int) -> int {
    if width >= indent {
        width - indent
    } else {
        0
    }
}

/// All lines wrapped to `width - indent` (saturating) with hanging indents.
pub open spec fn hanging_cells(lines: Seq<Seq<Cell>>, width: int, indent: nat) -> Seq<Seq<Cell>>
    decreases lines.len(),
{
    if lines.len() == 0 {
        Seq::empty()
    } else {
        hanging_cells(lines.drop_last(), width, indent) + hang_rows(
            wrap_cells(lines.last(), content_width(width, indent as int)),
            indent,
        )
    }
}

pub open spec fn lines_cells(lines: Seq<Vec<StyledSpan>>) -> Seq<Seq<Cell>> {
    lines.map_values(|l: Vec<StyledSpan>| line_cells(l@))
}

proof fn lemma_line_cells_concat(a: Seq<StyledSpan>, b: Seq<StyledSpan>)
    ensures
        line_cells(a + b) == line_cells(a) + line_cells(b),
    decreases b.len(),
{
    if b.len() == 0 {
        assert(a + b =~= a);
        assert(line_cells(a) + line_cells(b) =~= line_cells(a));
    } else {
        lemma_line_cells_concat(a, b.drop_last());
        assert((a + b).drop_last() =~= a + b.drop_last());
        assert((a + b).last() == b.last());
    }
}

/// Wrap every line to `width` characters with a hanging indent: the first
/// row of each line flush left, continuation rows prefixed with
/// `continuation_indent` unstyled spaces; content is wrapped to
/// `width - continuation_indent` (saturating) so continuations fit.
pub fn wrap_lines_hanging(lines: &Vec<Vec<StyledSpan>>, width: usize, continuation_indent: usize) -> (r: Vec<Vec<StyledSpan>>)
    ensures
        r@.len() == hanging_cells(lines_cells(lines@), width as int, continuation_indent as nat).len(),
        forall|k: int| 0 <= k < r@.len() ==> line_cells(#[trigger] r@[k]@) == hanging_cells(
            lines_cells(lines@),
            width as int,
            continuation_indent as nat,
        )[k],
{
    let cw: usize = if width >= continuation_indent { width - continuation_indent } else { 0 };
    let ghost ind = continuation_indent as nat;
    let mut ind_chars: Vec<char> = Vec::new();
    push_repeat(&mut ind_chars, ' ', continuation_indent as u128);
    assert(ind_chars@ =~= repeat_s(' ', ind));
    let mut out: Vec<Vec<StyledSpan>> = Vec::new();
    let mut li: usize = 0;
    while li < lines.len()
        invariant
            li <= lines.len(),
            cw == content_width(width as int, continuation_indent as int),
            ind == continuation_indent as nat,
            ind_chars@ == repeat_s(' ', ind),
            out@.len() == hanging_cells(lines_cells(lines@.take(li as int)), width as int, ind).len(),
            forall|k: int| 0 <= k < out@.len() ==> line_cells(#[trigger] out@[k]@) == hanging_cells(
                lines_cells(lines@.take(li as int)),
                width as int,
                ind,
            )[k],
        decreases lines.len() - li,
    {
        let ghost before = hanging_cells(lines_cells(lines@.take(li as int)), width as int, ind);
        let ghost hr = hang_rows(wrap_cells(line_cells(lines@[li as int]@), cw as int), ind);
        assert(lines_cells(lines@.take(li + 1)).drop_last() =~= lines_cells(lines@.take(li as int)));
        assert(lines_cells(lines@.take(li + 1)).last() == line_cells(lines@[li as int]@));
        assert(hanging_cells(lines_cells(lines@.take(li + 1)), width as int, ind) == before + hr);
        let rows = wrap_line(&lines[li], cw);
        let ghost base = out@.len();
        let mut k: usize = 0;
        while k < rows.len()
            invariant
                k <= rows.len(),
                rows@.len() == hr.len(),
                base == before.len(),
                out@.len() == base + k,
                ind_chars@ == repeat_s(' ', ind),
                ind == continuation_indent as nat,
                forall|m: int| 0 <= m < rows@.len() ==> line_cells(#[trigger] rows@[m]@) == wrap_cells(
                    line_cells(lines@[li as int]@),
                    cw as int,
                )[m],
                hr == hang_rows(wrap_cells(line_cells(lines@[li as int]@), cw as int), ind),
                forall|m: int| 0 <= m < out@.len() ==> line_cells(#[trigger] out@[m]@) == (before + hr)[m],
            decreases rows.len() - k,
        {
            let row = copy_line(&rows[k]);
            if k == 0 || continuation_indent == 0 {
                out.push(row);
                assert(line_cells(out@[base + k]@) == hr[k as int]);
            } else {
                let mut full: Vec<StyledSpan> = Vec::new();
                let sp = make_span(&ind_chars, PLAIN_STYLE);
                full.push(sp);
                let ghost first = full@;
                assert(first.drop_last() =~= Seq::<StyledSpan>::empty());
                assert(first.last() == sp);
                assert(line_cells(first) =~= line_cells(Seq::<StyledSpan>::empty()) + span_cells(sp));
                assert(line_cells(Seq::<StyledSpan>::empty()) =~= Seq::<Cell>::empty());
                let mut rest = row;
                let ghost rest_v = rest@;
                full.append(&mut rest);
                proof {
                    lemma_line_cells_concat(first, rest_v);
                }
                out.push(full);
                assert(line_cells(out@[base + k]@) == hr[k as int]);
            }
            assert forall|m2: int| 0 <= m2 < out@.len() implies line_cells(#[trigger] out@[m2]@) == (before + hr)[m2] by {
                if m2 < base + k {
                }
            }
            k += 1;
        }
        li += 1;
    }
    assert(lines@.take(lines.len() as int) =~= lines@);
    out
}

/// With the width wider than the indent, no row of the hanging wrap is
/// wider than the width: first rows hold at most `width - indent` cells,
/// continuation rows the indent plus at most that.
pub proof fn lemma_hanging_within_width(lines: Seq<Seq<Cell>>, width: int, indent: nat)
    requires
        width > indent,
    ensures
        forall|k: int| 0 <= k < hanging_cells(lines, width, indent).len() ==> (#[trigger] hanging_cells(lines, width, indent)[k]).len() <= width,
    decreases lines.len(),
{
    if lines.len() > 0 {
        lemma_hanging_within_width(lines.drop_last(), width, indent);
        let before = hanging_cells(lines.drop_last(), width, indent);
        let cw = content_width(width, indent as int);
        let wrapped = wrap_cells(lines.last(), cw);
        if lines.last().len() > 0 {
            lemma_wrap_cells_laws(lines.last(), cw);
        } else {
            assert(wrapped[0].len() == 0);
        }
        let hr = hang_rows(wrapped, indent);
        assert(indent_cells(indent).len() == indent);
        assert forall|k: int| 0 <= k < (before + hr).len() implies (#[trigger] (before + hr)[k]).len() <= width by {
            if k >= before.len() {
                assert((before + hr)[k] == hr[k - before.len()]);
                assert(wrapped[k - before.len()].len() <= cw);
            }
        }
    }
}

} // verus!
