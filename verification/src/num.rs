//! Decimal integer parsing with the acceptance rules of `str::parse` for
//! `i64` and `u32`, and decimal rendering of unsigned integers.
use vstd::prelude::*;

verus! {

/// `c` is an ASCII decimal digit.
pub open spec fn is_digit(c: char) -> bool {
    '0' <= c <= '9'
}

/// Value of an ASCII digit.
pub open spec fn digit_val(c: char) -> int {
    (c as u32) - ('0' as u32)
}

/// All characters of `s` are ASCII digits.
pub open spec fn all_digits(s: Seq<char>) -> bool {
    forall|i: int| 0 <= i < s.len() ==> is_digit(#[trigger] s[i])
}

/// The number written by the digits of `s` (most significant first).
pub open spec fn digits_val(s: Seq<char>) -> int
    decreases s.len(),
{
    if s.len() == 0 {
        0
    } else {
        digits_val(s.drop_last()) * 10 + digit_val(s.last())
    }
}

/// Sign and magnitude digits of a decimal literal: an optional leading `+`
/// (and `-` when `signed`) followed by the digits.
pub open spec fn sign_split(s: Seq<char>, signed: bool) -> (bool, Seq<char>) {
    if s.len() > 0 && s[0] == '+' {
        (false, s.drop_first())
    } else if signed && s.len() > 0 && s[0] == '-' {
        (true, s.drop_first())
    } else {
        (false, s)
    }
}

/// `str::parse::<i64>()`: `None` on bad syntax or when out of range.
pub open spec fn parse_i64_s(s: Seq<char>) -> Option<int> {
    let (neg, ds) = sign_split(s, true);
    if ds.len() == 0 || !all_digits(ds) {
        None
    } else {
        let v = if neg {
            -digits_val(ds)
        } else {
            digits_val(ds)
        };
        if i64::MIN <= v <= i64::MAX {
            Some(v)
        } else {
            None
        }
    }
}

/// `str::parse::<u32>()`: `None` on bad syntax or when out of range.
pub open spec fn parse_u32_s(s: Seq<char>) -> Option<int> {
    let (_, ds) = sign_split(s, false);
    if ds.len() == 0 || !all_digits(ds) || digits_val(ds) > u32::MAX {
        None
    } else {
        Some(digits_val(ds))
    }
}

pub proof fn lemma_digits_val_nonneg(s: Seq<char>)
    requires
        all_digits(s),
    ensures
        digits_val(s) >= 0,
    decreases s.len(),
{
    if s.len() > 0 {
        lemma_digits_val_nonneg(s.drop_last());
    }
}

/// `c.is_ascii_digit()`.
pub fn is_digit_char(c: char) -> (b: bool)
    ensures
        b == is_digit(c),
{
    '0' <= c && c <= '9'
}

/// Value of the digits `v[lo..hi]`, or `None` once it exceeds `bound`.
pub fn digits_value_upto(v: &Vec<char>, lo: usize, hi: usize, bound: u64) -> (r: Option<u64>)
    requires
        lo <= hi <= v.len(),
        all_digits(v@.subrange(lo as int, hi as int)),
    ensures
        match r {
            Some(x) => x == digits_val(v@.subrange(lo as int, hi as int)) && x <= bound,
            None => digits_val(v@.subrange(lo as int, hi as int)) > bound,
        },
{
    let mut acc: u64 = 0;
    let mut i = lo;
    assert(v@.subrange(lo as int, lo as int) =~= Seq::<char>::empty());
    while i < hi
        invariant
            lo <= i <= hi <= v.len(),
            all_digits(v@.subrange(lo as int, hi as int)),
            acc == digits_val(v@.subrange(lo as int, i as int)),
            acc <= bound,
        decreases hi - i,
    {
        let ghost prefix = v@.subrange(lo as int, i as int);
        assert(v@.subrange(lo as int, i + 1).drop_last() =~= prefix);
        assert(v@.subrange(lo as int, hi as int)[i - lo] == v@[i as int]);
        let d = (v[i] as u32 - '0' as u32) as u64;
        assert(d <= 9);
        let next: u128 = acc as u128 * 10 + d as u128;
        assert(next == digits_val(v@.subrange(lo as int, i + 1)));
        if next > bound as u128 {
            proof {
                assert(v@.subrange(lo as int, hi as int).take(i + 1 - lo) =~= v@.subrange(
                    lo as int,
                    i + 1,
                ));
                lemma_digits_grow(v@.subrange(lo as int, hi as int), (i + 1 - lo) as int, bound as int);
            }
            return None;
        }
        acc = next as u64;
        i += 1;
    }
    Some(acc)
}

/// Once a prefix of a digit string exceeds `bound`, so does the whole.
pub proof fn lemma_digits_grow(s: Seq<char>, n: int, bound: int)
    requires
        all_digits(s),
        0 <= n <= s.len(),
        digits_val(s.take(n)) > bound,
        bound >= 0,
    ensures
        digits_val(s) > bound,
    decreases s.len() - n,
{
    if n < s.len() {
        assert(s.take(n + 1).drop_last() =~= s.take(n));
        lemma_digits_val_nonneg(s.take(n));
        assert(digits_val(s.take(n + 1)) > bound) by (nonlinear_arith)
            requires
                digits_val(s.take(n + 1)) == digits_val(s.take(n)) * 10 + digit_val(s.take(n + 1).last()),
                digits_val(s.take(n)) > bound,
                bound >= 0,
                digit_val(s.take(n + 1).last()) >= 0,
        ;
        lemma_digits_grow(s, n + 1, bound);
    } else {
        assert(s.take(n) =~= s);
    }
}

/// True iff `v[lo..hi]` is all ASCII digits.
pub fn all_digits_in(v: &Vec<char>, lo: usize, hi: usize) -> (b: bool)
    requires
        lo <= hi <= v.len(),
    ensures
        b == all_digits(v@.subrange(lo as int, hi as int)),
{
    let mut i = lo;
    while i < hi
        invariant
            lo <= i <= hi <= v.len(),
            all_digits(v@.subrange(lo as int, i as int)),
        decreases hi - i,
    {
        if !is_digit_char(v[i]) {
            assert(v@.subrange(lo as int, hi as int)[i - lo] == v@[i as int]);
            return false;
        }
        i += 1;
        assert(forall|k: int| 0 <= k < i - lo ==> v@.subrange(lo as int, i as int)[k] == v@[lo + k]);
    }
    true
}

/// Position where the magnitude digits start, and whether the value is
/// negative.
fn sign_pos(v: &Vec<char>, signed: bool) -> (r: (bool, usize))
    ensures
        r.1 <= v.len(),
        sign_split(v@, signed) == (r.0, v@.skip(r.1 as int)),
{
    if v.len() > 0 && v[0] == '+' {
        assert(v@.drop_first() =~= v@.skip(1));
        (false, 1)
    } else if signed && v.len() > 0 && v[0] == '-' {
        assert(v@.drop_first() =~= v@.skip(1));
        (true, 1)
    } else {
        assert(v@ =~= v@.skip(0));
        (false, 0)
    }
}

/// `str::parse::<i64>()` on a character vector.
pub fn parse_i64(v: &Vec<char>) -> (r: Option<i64>)
    ensures
        match r {
            Some(x) => parse_i64_s(v@) == Some(x as int),
            None => parse_i64_s(v@) is None,
        },
{
    let (neg, start) = sign_pos(v, true);
    assert(v@.skip(start as int) =~= v@.subrange(start as int, v.len() as int));
    if start == v.len() || !all_digits_in(v, start, v.len()) {
        return None;
    }
    let bound: u64 = if neg { 0x8000_0000_0000_0000 } else { 0x7FFF_FFFF_FFFF_FFFF };
    match digits_value_upto(v, start, v.len(), bound) {
        Some(x) => {
            if neg {
                if x == 0x8000_0000_0000_0000 {
                    Some(i64::MIN)
                } else {
                    Some(-(x as i64))
                }
            } else {
                Some(x as i64)
            }
        },
        None => None,
    }
}

/// `str::parse::<u32>()` on a character vector.
pub fn parse_u32(v: &Vec<char>) -> (r: Option<u32>)
    ensures
        match r {
            Some(x) => parse_u32_s(v@) == Some(x as int),
            None => parse_u32_s(v@) is None,
        },
{
    let (_, start) = sign_pos(v, false);
    assert(v@.skip(start as int) =~= v@.subrange(start as int, v.len() as int));
    if start == v.len() || !all_digits_in(v, start, v.len()) {
        return None;
    }
    match digits_value_upto(v, start, v.len(), 0xFFFF_FFFF) {
        Some(x) => Some(x as u32),
        None => None,
    }
}

// ---------------------------------------------------------------------------
// Rendering
// ---------------------------------------------------------------------------

/// The ASCII digit of a value below ten.
pub open spec fn digit_char(d: int) -> char {
    if d == 0 {
        '0'
    } else if d == 1 {
        '1'
    } else if d == 2 {
        '2'
    } else if d == 3 {
        '3'
    } else if d == 4 {
        '4'
    } else if d == 5 {
        '5'
    } else if d == 6 {
        '6'
    } else if d == 7 {
        '7'
    } else if d == 8 {
        '8'
    } else {
        '9'
    }
}

/// Decimal rendering of a natural number, without leading zeros (`"0"`
/// for zero), as `format!("{}", n)` writes it.
pub open spec fn dec_s(n: nat) -> Seq<char>
    decreases n,
{
    if n < 10 {
        seq![digit_char(n as int)]
    } else {
        dec_s(n / 10).push(digit_char((n % 10) as int))
    }
}

fn digit_of(d: u64) -> (c: char)
    requires
        d < 10,
    ensures
        c == digit_char(d as int),
{
    if d == 0 {
        '0'
    } else if d == 1 {
        '1'
    } else if d == 2 {
        '2'
    } else if d == 3 {
        '3'
    } else if d == 4 {
        '4'
    } else if d == 5 {
        '5'
    } else if d == 6 {
        '6'
    } else if d == 7 {
        '7'
    } else if d == 8 {
        '8'
    } else {
        '9'
    }
}

/// Appends the decimal rendering of `n`.
pub fn push_decimal(v: &mut Vec<char>, n: u64)
    ensures
        final(v)@ == old(v)@ + dec_s(n as nat),
    decreases n,
{
    if n >= 10 {
        push_decimal(v, n / 10);
    }
    let ghost mid = v@;
    v.push(digit_of(n % 10));
    proof {
        if n >= 10 {
            assert(v@ =~= old(v)@ + dec_s((n / 10) as nat).push(digit_char((n % 10) as int)));
        } else {
            assert(v@ =~= old(v)@ + dec_s(n as nat));
        }
    }
}

/// Appends `n` written with at least two digits (a leading zero below ten),
/// as `format!("{:02}", n)` writes it.
pub open spec fn dec2_s(n: nat) -> Seq<char> {
    if n < 10 {
        seq!['0', digit_char(n as int)]
    } else {
        dec_s(n)
    }
}

pub fn push_decimal2(v: &mut Vec<char>, n: u64)
    ensures
        final(v)@ == old(v)@ + dec2_s(n as nat),
{
    if n < 10 {
        v.push('0');
        v.push(digit_of(n));
        assert(v@ =~= old(v)@ + dec2_s(n as nat));
    } else {
        push_decimal(v, n);
    }
}

pub open spec fn pow10(k: nat) -> nat
    decreases k,
{
    if k == 0 {
        1
    } else {
        10 * pow10((k - 1) as nat)
    }
}

/// A number below `10^k` has at most `k` decimal digits.
pub proof fn lemma_dec_len(n: nat, k: nat)
    requires
        k >= 1,
        n < pow10(k),
    ensures
        dec_s(n).len() <= k,
    decreases n,
{
    if n >= 10 {
        assert(k >= 2) by {
            if k == 1 {
                assert(pow10(1) == 10) by {
                    reveal_with_fuel(pow10, 2);
                }
            }
        }
        let p = pow10((k - 1) as nat);
        assert(pow10(k) == 10 * p);
        assert(n / 10 < p) by (nonlinear_arith)
            requires
                n < 10 * p,
        ;
        lemma_dec_len(n / 10, (k - 1) as nat);
    }
}

/// A 64-bit number has at most 20 decimal digits.
pub proof fn lemma_dec_len_u64(n: u64)
    ensures
        dec_s(n as nat).len() <= 20,
{
    assert(pow10(20) == 100000000000000000000nat) by {
        reveal_with_fuel(pow10, 21);
    }
    lemma_dec_len(n as nat, 20);
}

} // verus!
