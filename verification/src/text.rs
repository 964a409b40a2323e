//! Character-level text primitives shared by the document, log and panel
//! logic: conversion between `str` and `Vec<char>`, whitespace trimming,
//! prefix/substring tests, splitting, line iteration and joining.
use vstd::prelude::*;

verus! {

broadcast use vstd::string::group_string_axioms;

// ---------------------------------------------------------------------------
// Specifications
// ---------------------------------------------------------------------------

/// Unicode `White_Space`, the set that `char::is_whitespace` tests.
pub open spec fn is_ws(c: char) -> bool {
    let u = c as u32;
    ||| 9 <= u <= 13
    ||| u == 32
    ||| u == 0x85
    ||| u == 0xA0
    ||| u == 0x1680
    ||| 0x2000 <= u <= 0x200A
    ||| u == 0x2028
    ||| u == 0x2029
    ||| u == 0x202F
    ||| u == 0x205F
    ||| u == 0x3000
}

/// `s` without trailing whitespace.
pub open spec fn trim_end_s(s: Seq<char>) -> Seq<char>
    decreases s.len(),
{
    if s.len() > 0 && is_ws(s.last()) {
        trim_end_s(s.drop_last())
    } else {
        s
    }
}

/// `s` without leading whitespace.
pub open spec fn trim_start_s(s: Seq<char>) -> Seq<char>
    decreases s.len(),
{
    if s.len() > 0 && is_ws(s[0]) {
        trim_start_s(s.drop_first())
    } else {
        s
    }
}

/// `s` without leading and trailing whitespace (`str::trim`).
pub open spec fn trim_s(s: Seq<char>) -> Seq<char> {
    trim_start_s(trim_end_s(s))
}

/// True iff every character of `s` is whitespace.
pub open spec fn all_ws(s: Seq<char>) -> bool {
    forall|i: int| 0 <= i < s.len() ==> is_ws(#[trigger] s[i])
}

/// `s` begins with `p` (`str::starts_with`).
pub open spec fn starts_with_s(s: Seq<char>, p: Seq<char>) -> bool {
    p.len() <= s.len() && s.subrange(0, p.len() as int) == p
}

/// `s` ends with `p` (`str::ends_with`).
pub open spec fn ends_with_s(s: Seq<char>, p: Seq<char>) -> bool {
    p.len() <= s.len() && s.subrange(s.len() - p.len(), s.len() as int) == p
}

/// `p` occurs in `s` starting at position `i`.
pub open spec fn occurs_at(s: Seq<char>, p: Seq<char>, i: int) -> bool {
    0 <= i && i + p.len() <= s.len() && s.subrange(i, i + p.len()) == p
}

/// `p` occurs somewhere in `s` (`str::contains`).
pub open spec fn contains_s(s: Seq<char>, p: Seq<char>) -> bool {
    exists|i: int| occurs_at(s, p, i)
}

// ---------------------------------------------------------------------------
// Conversions
// ---------------------------------------------------------------------------

/// The characters of `s`, in order.
pub fn chars_of(s: &str) -> (v: Vec<char>)
    ensures
        v@ == s@,
{
    let mut v: Vec<char> = Vec::new();
    for c in it: s.chars()
        invariant
            v@ == it.seq().take(it.index()),
    {
        v.push(c);
    }
    v
}

/// `String::push`: appends one character.
#[verifier::external_body]
pub fn push_char(s: &mut String, c: char)
    ensures
        final(s)@ == old(s)@.push(c),
{
    s.push(c);
}

/// The string made of the characters of `v`.
pub fn string_of(v: &Vec<char>) -> (s: String)
    ensures
        s@ == v@,
{
    let mut s = String::new();
    let mut i: usize = 0;
    while i < v.len()
        invariant
            i <= v.len(),
            s@ == v@.take(i as int),
        decreases v.len() - i,
    {
        push_char(&mut s, v[i]);
        i += 1;
        assert(s@ =~= v@.take(i as int));
    }
    assert(v@.take(v.len() as int) =~= v@);
    s
}

/// Appends all of `src` to `dst`.
pub fn extend_chars(dst: &mut Vec<char>, src: &Vec<char>)
    ensures
        final(dst)@ == old(dst)@ + src@,
{
    let mut i: usize = 0;
    while i < src.len()
        invariant
            i <= src.len(),
            dst@ == old(dst)@ + src@.take(i as int),
        decreases src.len() - i,
    {
        dst.push(src[i]);
        i += 1;
        assert(dst@ =~= old(dst)@ + src@.take(i as int));
    }
    assert(src@.take(src.len() as int) =~= src@);
}

/// Appends the characters of `src` to `dst`.
pub fn extend_str(dst: &mut Vec<char>, src: &str)
    ensures
        final(dst)@ == old(dst)@ + src@,
{
    let v = chars_of(src);
    extend_chars(dst, &v);
}

/// The characters `v[lo..hi]` as a new vector.
pub fn slice_chars(v: &Vec<char>, lo: usize, hi: usize) -> (r: Vec<char>)
    requires
        lo <= hi <= v.len(),
    ensures
        r@ == v@.subrange(lo as int, hi as int),
{
    let mut r: Vec<char> = Vec::new();
    let mut i = lo;
    while i < hi
        invariant
            lo <= i <= hi,
            hi <= v.len(),
            r@ == v@.subrange(lo as int, i as int),
        decreases hi - i,
    {
        r.push(v[i]);
        i += 1;
        assert(r@ =~= v@.subrange(lo as int, i as int));
    }
    r
}

// ---------------------------------------------------------------------------
// Whitespace
// ---------------------------------------------------------------------------

/// `char::is_whitespace`.
pub fn is_ws_char(c: char) -> (b: bool)
    ensures
        b == is_ws(c),
{
    let u = c as u32;
    (9 <= u && u <= 13) || u == 32 || u == 0x85 || u == 0xA0 || u == 0x1680 || (0x2000 <= u
        && u <= 0x200A) || u == 0x2028 || u == 0x2029 || u == 0x202F || u == 0x205F || u
        == 0x3000
}

/// End index of `v` once trailing whitespace is removed.
pub fn trim_end_len(v: &Vec<char>) -> (j: usize)
    ensures
        j <= v.len(),
        trim_end_s(v@) == v@.take(j as int),
{
    let mut j = v.len();
    assert(v@.take(j as int) =~= v@);
    while j > 0 && is_ws_char(v[j - 1])
        invariant
            j <= v.len(),
            trim_end_s(v@) == trim_end_s(v@.take(j as int)),
        decreases j,
    {
        assert(v@.take(j as int).drop_last() =~= v@.take(j - 1));
        j -= 1;
    }
    j
}

/// Start index of `v[..hi]` once leading whitespace is removed.
pub fn trim_start_pos(v: &Vec<char>, hi: usize) -> (i: usize)
    requires
        hi <= v.len(),
    ensures
        i <= hi,
        trim_start_s(v@.take(hi as int)) == v@.subrange(i as int, hi as int),
{
    let ghost u = v@.take(hi as int);
    let mut i: usize = 0;
    assert(u.skip(0) =~= u);
    while i < hi && is_ws_char(v[i])
        invariant
            i <= hi,
            hi <= v.len(),
            u == v@.take(hi as int),
            trim_start_s(u) == trim_start_s(u.skip(i as int)),
        decreases hi - i,
    {
        assert(u.skip(i as int).drop_first() =~= u.skip(i + 1));
        i += 1;
    }
    assert(u.skip(i as int) =~= v@.subrange(i as int, hi as int));
    i
}

/// `str::trim` on a character vector.
pub fn trim_chars(v: &Vec<char>) -> (r: Vec<char>)
    ensures
        r@ == trim_s(v@),
{
    let j = trim_end_len(v);
    let i = trim_start_pos(v, j);
    slice_chars(v, i, j)
}

/// `str::trim_end` on a character vector.
pub fn trim_end_chars(v: &Vec<char>) -> (r: Vec<char>)
    ensures
        r@ == trim_end_s(v@),
{
    let j = trim_end_len(v);
    slice_chars(v, 0, j)
}

/// True iff `v` is empty once trimmed (`s.trim().is_empty()`).
pub fn is_blank(v: &Vec<char>) -> (b: bool)
    ensures
        b == (trim_s(v@).len() == 0),
{
    let r = trim_chars(v);
    r.len() == 0
}


// ---------------------------------------------------------------------------
// Matching
// ---------------------------------------------------------------------------

/// True iff `p` occurs in `v` at position `i`.
pub fn matches_at(v: &Vec<char>, i: usize, p: &Vec<char>) -> (b: bool)
    ensures
        b == occurs_at(v@, p@, i as int),
{
    if i > v.len() || p.len() > v.len() - i {
        return false;
    }
    let mut k: usize = 0;
    while k < p.len()
        invariant
            i + p.len() <= v.len(),
            k <= p.len(),
            forall|m: int| 0 <= m < k ==> v@[i + m] == p@[m],
        decreases p.len() - k,
    {
        if v[i + k] != p[k] {
            assert(v@.subrange(i as int, i + p.len())[k as int] != p@[k as int]);
            return false;
        }
        k += 1;
    }
    assert(v@.subrange(i as int, i + p.len()) =~= p@);
    true
}

/// `str::starts_with`.
pub fn starts_with(v: &Vec<char>, p: &Vec<char>) -> (b: bool)
    ensures
        b == starts_with_s(v@, p@),
{
    matches_at(v, 0, p)
}

/// `str::ends_with`.
pub fn ends_with(v: &Vec<char>, p: &Vec<char>) -> (b: bool)
    ensures
        b == ends_with_s(v@, p@),
{
    if p.len() > v.len() {
        false
    } else {
        matches_at(v, v.len() - p.len(), p)
    }
}

/// First position at or after `from` where `p` occurs in `v`.
pub fn find_from(v: &Vec<char>, p: &Vec<char>, from: usize) -> (r: Option<usize>)
    ensures
        match r {
            Some(i) => from <= i && occurs_at(v@, p@, i as int) && forall|k: int|
                from <= k < i ==> !occurs_at(v@, p@, k),
            None => forall|k: int| from <= k ==> !occurs_at(v@, p@, k),
        },
{
    let mut i = from;
    while i < v.len()
        invariant
            from <= i,
            forall|k: int| from <= k < i ==> !occurs_at(v@, p@, k),
        decreases v.len() - i,
    {
        if matches_at(v, i, p) {
            return Some(i);
        }
        i += 1;
    }
    if i == v.len() && matches_at(v, i, p) {
        return Some(i);
    }
    assert forall|k: int| from <= k implies !occurs_at(v@, p@, k) by {
        if k > v.len() {
            assert(k + p@.len() > v@.len());
        }
    }
    None
}

/// `str::contains`.
pub fn contains(v: &Vec<char>, p: &Vec<char>) -> (b: bool)
    ensures
        b == contains_s(v@, p@),
{
    match find_from(v, p, 0) {
        Some(_) => true,
        None => false,
    }
}

/// `str::contains` against a string literal or slice.
pub fn contains_str(v: &Vec<char>, p: &str) -> (b: bool)
    ensures
        b == contains_s(v@, p@),
{
    let pv = chars_of(p);
    contains(v, &pv)
}

/// `str::starts_with` against a string literal or slice.
pub fn starts_with_str(v: &Vec<char>, p: &str) -> (b: bool)
    ensures
        b == starts_with_s(v@, p@),
{
    let pv = chars_of(p);
    starts_with(v, &pv)
}

/// `str::ends_with` against a string literal or slice.
pub fn ends_with_str(v: &Vec<char>, p: &str) -> (b: bool)
    ensures
        b == ends_with_s(v@, p@),
{
    let pv = chars_of(p);
    ends_with(v, &pv)
}

/// Equality of two character vectors.
pub fn chars_eq(a: &Vec<char>, b: &Vec<char>) -> (r: bool)
    ensures
        r == (a@ == b@),
{
    if a.len() != b.len() {
        return false;
    }
    let r = matches_at(a, 0, b);
    proof {
        if r {
            assert(a@.subrange(0, b@.len() as int) =~= a@);
        } else {
            assert(a@.subrange(0, b@.len() as int) =~= a@);
        }
    }
    r
}

/// Equality of a character vector and a string.
pub fn chars_eq_str(a: &Vec<char>, b: &str) -> (r: bool)
    ensures
        r == (a@ == b@),
{
    let bv = chars_of(b);
    chars_eq(a, &bv)
}

/// Position of the last occurrence of `c` in `s`, or -1.
pub open spec fn last_idx(s: Seq<char>, c: char) -> int
    decreases s.len(),
{
    if s.len() == 0 {
        -1
    } else if s.last() == c {
        s.len() - 1
    } else {
        last_idx(s.drop_last(), c)
    }
}

pub proof fn lemma_last_idx_bounds(s: Seq<char>, c: char)
    ensures
        -1 <= last_idx(s, c) < s.len(),
        last_idx(s, c) >= 0 ==> s[last_idx(s, c)] == c,
        forall|k: int| last_idx(s, c) < k < s.len() ==> s[k] != c,
    decreases s.len(),
{
    if s.len() > 0 && s.last() != c {
        lemma_last_idx_bounds(s.drop_last(), c);
        assert forall|k: int| last_idx(s, c) < k < s.len() implies s[k] != c by {
            if k < s.len() - 1 {
                assert(s.drop_last()[k] == s[k]);
            }
        }
    }
}

/// Position of the last occurrence of `c` in `v` (`str::rfind` for a char).
pub fn rfind_char(v: &Vec<char>, c: char) -> (r: Option<usize>)
    ensures
        match r {
            Some(i) => i as int == last_idx(v@, c),
            None => last_idx(v@, c) == -1,
        },
        match r {
            Some(i) => i < v.len() && v@[i as int] == c && forall|k: int|
                i < k < v.len() ==> v@[k] != c,
            None => forall|k: int| 0 <= k < v.len() ==> v@[k] != c,
        },
{
    let mut j = v.len();
    assert(v@.take(j as int) =~= v@);
    while j > 0
        invariant
            j <= v.len(),
            forall|k: int| j <= k < v.len() ==> v@[k] != c,
            last_idx(v@, c) == last_idx(v@.take(j as int), c),
        decreases j,
    {
        assert(v@.take(j as int).drop_last() =~= v@.take(j - 1));
        if v[j - 1] == c {
            return Some(j - 1);
        }
        j -= 1;
    }
    None
}

// ---------------------------------------------------------------------------
// Splitting, lines and joining
// ---------------------------------------------------------------------------

/// `str::split` on a single character: the pieces between occurrences of
/// `c`; always at least one piece.
pub open spec fn split_s(s: Seq<char>, c: char) -> Seq<Seq<char>>
    decreases s.len(),
{
    if s.len() == 0 {
        seq![Seq::<char>::empty()]
    } else {
        let p = split_s(s.drop_last(), c);
        if s.last() == c {
            p.push(Seq::<char>::empty())
        } else {
            p.update(p.len() - 1, p.last().push(s.last()))
        }
    }
}

/// A line with one trailing carriage return removed, if present.
pub open spec fn strip_cr(l: Seq<char>) -> Seq<char> {
    if l.len() > 0 && l.last() == '\r' {
        l.drop_last()
    } else {
        l
    }
}

/// `str::lines`: pieces between `\n`, each ending `\r\n` trimmed to its
/// content, with no empty final piece after a trailing newline.
pub open spec fn lines_s(s: Seq<char>) -> Seq<Seq<char>> {
    let p = split_s(s, '\n');
    let body = p.drop_last().map_values(|l: Seq<char>| strip_cr(l));
    if p.last().len() == 0 {
        body
    } else {
        body.push(p.last())
    }
}

/// The pieces of `parts` joined with `sep` between consecutive pieces.
pub open spec fn join_s(parts: Seq<Seq<char>>, sep: Seq<char>) -> Seq<char>
    decreases parts.len(),
{
    if parts.len() == 0 {
        Seq::<char>::empty()
    } else if parts.len() == 1 {
        parts[0]
    } else {
        join_s(parts.drop_last(), sep) + sep + parts.last()
    }
}

/// The views of a vector of character vectors.
pub open spec fn views(v: Seq<Vec<char>>) -> Seq<Seq<char>> {
    v.map_values(|x: Vec<char>| x@)
}

pub proof fn lemma_split_len(s: Seq<char>, c: char)
    ensures
        split_s(s, c).len() >= 1,
    decreases s.len(),
{
    if s.len() > 0 {
        lemma_split_len(s.drop_last(), c);
    }
}

proof fn lemma_join_push_last(ps: Seq<Seq<char>>, sep: Seq<char>, x: char)
    requires
        ps.len() >= 1,
    ensures
        join_s(ps.update(ps.len() - 1, ps.last().push(x)), sep) == join_s(ps, sep).push(x),
{
    let q = ps.update(ps.len() - 1, ps.last().push(x));
    if ps.len() > 1 {
        assert(q.drop_last() =~= ps.drop_last());
    }
}

/// Splitting on a character and joining the pieces back with it gives the
/// text again, byte for byte.
pub proof fn lemma_join_split(s: Seq<char>, c: char)
    ensures
        join_s(split_s(s, c), seq![c]) == s,
    decreases s.len(),
{
    if s.len() > 0 {
        let t = s.drop_last();
        lemma_join_split(t, c);
        lemma_split_len(t, c);
        let p = split_s(t, c);
        if s.last() == c {
            assert(p.push(Seq::<char>::empty()).drop_last() =~= p);
            assert(join_s(p.push(Seq::<char>::empty()), seq![c]) =~= s);
        } else {
            lemma_join_push_last(p, seq![c], s.last());
            assert(t.push(s.last()) =~= s);
        }
    } else {
        assert(join_s(split_s(s, c), seq![c]) =~= s);
    }
}

/// `str::split` on a character.
pub fn split_chars(v: &Vec<char>, c: char) -> (r: Vec<Vec<char>>)
    ensures
        views(r@) == split_s(v@, c),
{
    let mut done: Vec<Vec<char>> = Vec::new();
    let mut cur: Vec<char> = Vec::new();
    let mut i: usize = 0;
    assert(v@.take(0) =~= Seq::<char>::empty());
    assert(views(done@).push(cur@) =~= split_s(v@.take(0), c));
    while i < v.len()
        invariant
            i <= v.len(),
            views(done@).push(cur@) == split_s(v@.take(i as int), c),
        decreases v.len() - i,
    {
        let ghost prev = v@.take(i as int);
        assert(v@.take(i + 1).drop_last() =~= prev);
        proof {
            lemma_split_len(prev, c);
        }
        if v[i] == c {
            done.push(cur);
            cur = Vec::new();
            assert(views(done@).push(cur@) =~= split_s(prev, c).push(Seq::<char>::empty()));
        } else {
            cur.push(v[i]);
            let ghost p = split_s(prev, c);
            assert(views(done@).push(cur@) =~= p.update(p.len() - 1, p.last().push(v@[i as int])));
        }
        i += 1;
    }
    assert(v@.take(v.len() as int) =~= v@);
    done.push(cur);
    assert(views(done@) =~= split_s(v@, c));
    done
}

/// `str::lines`.
pub fn lines_of(v: &Vec<char>) -> (r: Vec<Vec<char>>)
    ensures
        views(r@) == lines_s(v@),
{
    let pieces = split_chars(v, '\n');
    proof {
        lemma_split_len(v@, '\n');
    }
    let n = pieces.len();
    let mut out: Vec<Vec<char>> = Vec::new();
    let mut i: usize = 0;
    let ghost p = split_s(v@, '\n');
    while i + 1 < n
        invariant
            n == pieces.len(),
            n >= 1,
            i + 1 <= n,
            views(pieces@) == p,
            views(out@) == p.take(i as int).map_values(|l: Seq<char>| strip_cr(l)),
        decreases n - i,
    {
        let piece = &pieces[i];
        let mut l = piece.clone();
        if l.len() > 0 && l[l.len() - 1] == '\r' {
            l.pop();
        }
        assert(l@ == strip_cr(p[i as int])) by {
            assert(views(pieces@)[i as int] == pieces@[i as int]@);
        }
        let ghost before = views(out@);
        out.push(l);
        assert(views(out@) =~= before.push(strip_cr(p[i as int])));
        assert(p.take(i + 1).map_values(|l: Seq<char>| strip_cr(l)) =~= p.take(i as int).map_values(
            |l: Seq<char>| strip_cr(l),
        ).push(strip_cr(p[i as int])));
        i += 1;
    }
    assert(p.take(i as int) =~= p.drop_last());
    let last = &pieces[n - 1];
    assert(last@ == p.last()) by {
        assert(views(pieces@)[n - 1] == pieces@[n - 1]@);
    }
    if last.len() > 0 {
        out.push(last.clone());
        assert(views(out@) =~= lines_s(v@));
    } else {
        assert(views(out@) =~= lines_s(v@));
    }
    out
}

/// Joins `parts` with `sep` between consecutive pieces (`[..].join(sep)`).
pub fn join_chars(parts: &Vec<Vec<char>>, sep: &Vec<char>) -> (r: Vec<char>)
    ensures
        r@ == join_s(views(parts@), sep@),
{
    let mut r: Vec<char> = Vec::new();
    let mut i: usize = 0;
    while i < parts.len()
        invariant
            i <= parts.len(),
            r@ == join_s(views(parts@).take(i as int), sep@),
        decreases parts.len() - i,
    {
        let ghost pv = views(parts@);
        assert(pv.take(i + 1).drop_last() =~= pv.take(i as int));
        assert(pv.take(i + 1).last() == parts@[i as int]@);
        if i > 0 {
            extend_chars(&mut r, sep);
        }
        extend_chars(&mut r, &parts[i]);
        i += 1;
        proof {
            if i == 1 {
                assert(r@ =~= join_s(pv.take(i as int), sep@));
            }
        }
    }
    assert(views(parts@).take(parts.len() as int) =~= views(parts@));
    r
}


// ---------------------------------------------------------------------------
// Lengths and padding
// ---------------------------------------------------------------------------

/// Number of bytes in the UTF-8 encoding of `c`.
pub open spec fn char_utf8_len(c: char) -> nat {
    let u = c as u32;
    if u < 0x80 {
        1
    } else if u < 0x800 {
        2
    } else if u < 0x10000 {
        3
    } else {
        4
    }
}

/// Number of bytes in the UTF-8 encoding of `s` (`str::len`).
pub open spec fn utf8_len(s: Seq<char>) -> nat
    decreases s.len(),
{
    if s.len() == 0 {
        0
    } else {
        utf8_len(s.drop_last()) + char_utf8_len(s.last())
    }
}

/// `char::len_utf8`.
pub fn char_len_utf8(c: char) -> (n: usize)
    ensures
        n == char_utf8_len(c),
        1 <= n <= 4,
{
    let u = c as u32;
    if u < 0x80 {
        1
    } else if u < 0x800 {
        2
    } else if u < 0x10000 {
        3
    } else {
        4
    }
}

/// UTF-8 byte length of `v[..n]`.
pub fn utf8_len_prefix(v: &Vec<char>, n: usize) -> (r: u128)
    requires
        n <= v.len(),
    ensures
        r == utf8_len(v@.take(n as int)),
        r <= 4 * n,
{
    let mut r: u128 = 0;
    let mut i: usize = 0;
    assert(v@.take(0) =~= Seq::<char>::empty());
    while i < n
        invariant
            i <= n <= v.len(),
            r == utf8_len(v@.take(i as int)),
            r <= 4 * i,
        decreases n - i,
    {
        assert(v@.take(i + 1).drop_last() =~= v@.take(i as int));
        let w = char_len_utf8(v[i]);
        r = r + w as u128;
        i += 1;
    }
    r
}

/// `n` copies of `c`.
pub open spec fn repeat_s(c: char, n: nat) -> Seq<char> {
    Seq::new(n, |i: int| c)
}

/// Appends `n` copies of `c` to `v`.
pub fn push_repeat(v: &mut Vec<char>, c: char, n: u128)
    ensures
        final(v)@ == old(v)@ + repeat_s(c, n as nat),
{
    let mut k: u128 = 0;
    while k < n
        invariant
            k <= n,
            v@ == old(v)@ + repeat_s(c, k as nat),
        decreases n - k,
    {
        v.push(c);
        k += 1;
        assert(v@ =~= old(v)@ + repeat_s(c, k as nat));
    }
}

/// `format!("{:<w$}", s)`: `s` followed by spaces up to `w` characters.
pub open spec fn pad_right_s(s: Seq<char>, w: nat) -> Seq<char> {
    if s.len() >= w {
        s
    } else {
        s + repeat_s(' ', (w - s.len()) as nat)
    }
}

/// `format!("{:>w$}", s)`: spaces up to `w` characters followed by `s`.
pub open spec fn pad_left_s(s: Seq<char>, w: nat) -> Seq<char> {
    if s.len() >= w {
        s
    } else {
        repeat_s(' ', (w - s.len()) as nat) + s
    }
}

/// Appends `s` left-aligned in a field of `w` characters.
pub fn push_pad_right(v: &mut Vec<char>, s: &Vec<char>, w: usize)
    ensures
        final(v)@ == old(v)@ + pad_right_s(s@, w as nat),
{
    extend_chars(v, s);
    if s.len() < w {
        push_repeat(v, ' ', (w - s.len()) as u128);
    }
    assert(v@ =~= old(v)@ + pad_right_s(s@, w as nat));
}

/// Appends `s` right-aligned in a field of `w` characters.
pub fn push_pad_left(v: &mut Vec<char>, s: &Vec<char>, w: usize)
    ensures
        final(v)@ == old(v)@ + pad_left_s(s@, w as nat),
{
    if s.len() < w {
        push_repeat(v, ' ', (w - s.len()) as u128);
    }
    extend_chars(v, s);
    assert(v@ =~= old(v)@ + pad_left_s(s@, w as nat));
}

/// Position of the first occurrence of `c` in `s`, or -1.
pub open spec fn first_idx(s: Seq<char>, c: char) -> int
    decreases s.len(),
{
    if s.len() == 0 {
        -1
    } else {
        let f = first_idx(s.drop_last(), c);
        if f >= 0 {
            f
        } else if s.last() == c {
            s.len() - 1
        } else {
            -1
        }
    }
}

/// Position of the first occurrence of `c` in `v` (`str::find` for a char).
pub fn find_char(v: &Vec<char>, c: char) -> (r: Option<usize>)
    ensures
        match r {
            Some(i) => i as int == first_idx(v@, c) && i < v.len() && v@[i as int] == c,
            None => first_idx(v@, c) == -1,
        },
        forall|k: int| 0 <= k < first_idx(v@, c) ==> v@[k] != c,
        first_idx(v@, c) == -1 ==> forall|k: int| 0 <= k < v.len() ==> v@[k] != c,
{
    let mut i: usize = 0;
    assert(v@.take(0) =~= Seq::<char>::empty());
    while i < v.len()
        invariant
            i <= v.len(),
            forall|k: int| 0 <= k < i ==> v@[k] != c,
            first_idx(v@.take(i as int), c) == -1,
        decreases v.len() - i,
    {
        assert(v@.take(i + 1).drop_last() =~= v@.take(i as int));
        if v[i] == c {
            proof {
                lemma_first_idx_extend(v@, c, i as int);
            }
            return Some(i);
        }
        i += 1;
    }
    assert(v@.take(v.len() as int) =~= v@);
    None
}

/// Once the first occurrence is found at `i`, it stays first in any longer
/// prefix.
pub proof fn lemma_first_idx_extend(s: Seq<char>, c: char, i: int)
    requires
        0 <= i < s.len(),
        s[i] == c,
        first_idx(s.take(i), c) == -1,
    ensures
        first_idx(s, c) == i,
    decreases s.len() - i,
{
    assert(s.take(i + 1).drop_last() =~= s.take(i));
    lemma_first_idx_prefix(s, c, i + 1);
}

/// A found occurrence in a prefix is the first occurrence overall.
pub proof fn lemma_first_idx_prefix(s: Seq<char>, c: char, n: int)
    requires
        0 <= n <= s.len(),
        first_idx(s.take(n), c) >= 0,
    ensures
        first_idx(s, c) == first_idx(s.take(n), c),
    decreases s.len() - n,
{
    if n < s.len() {
        assert(s.take(n + 1).drop_last() =~= s.take(n));
        lemma_first_idx_prefix(s, c, n + 1);
    } else {
        assert(s.take(n) =~= s);
    }
}

} // verus!
