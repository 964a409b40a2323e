//! Architect usage harvesting: ISO-8601 timestamp parsing, per-line usage
//! extraction, and the dedup-and-bucket fold that turns transcript lines
//! into per-(session, model, skill) ledger totals.
use vstd::prelude::*;
use crate::num::{parse_i64, parse_i64_s, all_digits, digits_val, is_digit_char};
use crate::text::{chars_of, find_char, first_idx, lines_s, slice_chars, split_chars, split_s, views};

verus! {

// ---------------------------------------------------------------------------
// Civil dates
// ---------------------------------------------------------------------------

pub open spec fn in_i64(x: int) -> bool {
    i64::MIN <= x <= i64::MAX
}

/// March-based year: January and February count to the previous year.
pub open spec fn civil_year(y: int, m: int) -> int {
    if m <= 2 {
        y - 1
    } else {
        y
    }
}

/// Days from 1970-01-01 to the proleptic-Gregorian date `y-m-d`
/// (Hinnant's `days_from_civil`; `/` is floor division).
pub open spec fn days_from_civil_s(y: int, m: int, d: int) -> int {
    let yy = civil_year(y, m);
    let era = yy / 400;
    let yoe = yy - era * 400;
    let mp = if m > 2 {
        m - 3
    } else {
        m + 9
    };
    let doy = (153 * mp + 2) / 5 + d - 1;
    let doe = yoe * 365 + yoe / 4 - yoe / 100 + doy;
    era * 146097 + doe - 719468
}

/// Every intermediate of the 64-bit day computation stays in range.
pub open spec fn civil_fits(y: int, m: int, d: int) -> bool {
    let yy = civil_year(y, m);
    let era = yy / 400;
    let yoe = yy - era * 400;
    let mp = if m > 2 {
        m - 3
    } else {
        m + 9
    };
    let doe = yoe * 365 + yoe / 4 - yoe / 100 + (153 * mp + 2) / 5 + d - 1;
    &&& in_i64(yy)
    &&& yy < 0 ==> in_i64(yy - 399)
    &&& in_i64(era * 400)
    &&& in_i64(era * 146097)
    &&& in_i64(era * 146097 + doe)
    &&& in_i64(era * 146097 + doe - 719468)
}

proof fn lemma_floor_div_neg(yy: int, q: int)
    requires
        yy < 0,
        q == (399 - yy) / 400,
    ensures
        yy / 400 == -q,
{
    assert(400 * q <= 399 - yy < 400 * q + 400) by (nonlinear_arith)
        requires
            q == (399 - yy) / 400,
            399 - yy > 0,
    ;
    assert(yy / 400 == -q) by (nonlinear_arith)
        requires
            -400 * q <= yy,
            yy < -400 * q + 400,
    ;
}

/// Days from 1970-01-01 to civil date (y, m[1..12], d[1..31]), exact for
/// the proleptic Gregorian calendar.
pub fn days_from_civil(y: i64, m: i64, d: i64) -> (r: i64)
    requires
        1 <= m <= 12,
        1 <= d <= 31,
        civil_fits(y as int, m as int, d as int),
    ensures
        r == days_from_civil_s(y as int, m as int, d as int),
{
    let yy: i128 = if m <= 2 { y as i128 - 1 } else { y as i128 };
    let era: i128 = if yy >= 0 {
        yy / 400
    } else {
        let q = (399 - yy) / 400;
        proof {
            lemma_floor_div_neg(yy as int, q as int);
        }
        -q
    };
    assert(era == (yy as int) / 400);
    assert(-0x4000_0000_0000_0000 <= era <= 0x4000_0000_0000_0000) by (nonlinear_arith)
        requires
            era == (yy as int) / 400,
            -0x8000_0000_0000_0001 <= yy <= 0x7FFF_FFFF_FFFF_FFFF,
    ;
    let yoe: i128 = yy - era * 400;
    assert(0 <= yoe < 400) by (nonlinear_arith)
        requires
            era == (yy as int) / 400,
            yoe == yy - era * 400,
    ;
    let mp: i128 = if m > 2 { m as i128 - 3 } else { m as i128 + 9 };
    let doy: i128 = (153 * mp + 2) / 5 + d as i128 - 1;
    let doe: i128 = yoe * 365 + yoe / 4 - yoe / 100 + doy;
    let r: i128 = era * 146097 + doe - 719468;
    r as i64
}

// ---------------------------------------------------------------------------
// ISO-8601 timestamps
// ---------------------------------------------------------------------------

/// Fields of an ISO timestamp after structural parsing.
pub struct IsoFields {
    pub y: int,
    pub mo: int,
    pub d: int,
    pub h: int,
    pub mi: int,
    pub sec: int,
    pub millis: int,
}

/// `s` without one trailing `Z`.
pub open spec fn strip_z(s: Seq<char>) -> Seq<char> {
    if s.len() > 0 && s.last() == 'Z' {
        s.drop_last()
    } else {
        s
    }
}

/// Milliseconds from a fractional-seconds part: its first three characters
/// (all digits) right-padded with zeros.
pub open spec fn frac_millis(frac: Seq<char>) -> Option<int> {
    let f3 = if frac.len() <= 3 {
        frac
    } else {
        frac.take(3)
    };
    if !all_digits(f3) {
        None
    } else if f3.len() == 0 {
        Some(0)
    } else if f3.len() == 1 {
        Some(digits_val(f3) * 100)
    } else if f3.len() == 2 {
        Some(digits_val(f3) * 10)
    } else {
        Some(digits_val(f3))
    }
}

/// Structural parse of `YYYY-MM-DDTHH:MM:SS[.fff][Z]`: date split at `T`,
/// first three `-` pieces and first three `:` pieces parsed as `i64`, month
/// in 1..=12 and day in 1..=31.
pub open spec fn iso_fields(s: Seq<char>) -> Option<IsoFields> {
    let t = strip_z(s);
    let ti = first_idx(t, 'T');
    let date = t.take(ti);
    let time = t.skip(ti + 1);
    let dp = split_s(date, '-');
    let di = first_idx(time, '.');
    let hms = if di < 0 {
        time
    } else {
        time.take(di)
    };
    let frac = if di < 0 {
        Seq::<char>::empty()
    } else {
        time.skip(di + 1)
    };
    let tp = split_s(hms, ':');
    if ti < 0 || dp.len() < 3 {
        None
    } else if parse_i64_s(dp[0]) is None || parse_i64_s(dp[1]) is None || parse_i64_s(dp[2]) is None {
        None
    } else {
        let y = parse_i64_s(dp[0])->0;
        let mo = parse_i64_s(dp[1])->0;
        let d = parse_i64_s(dp[2])->0;
        if !(1 <= mo <= 12 && 1 <= d <= 31) || tp.len() < 3 {
            None
        } else if parse_i64_s(tp[0]) is None || parse_i64_s(tp[1]) is None || parse_i64_s(tp[2]) is None
            || frac_millis(frac) is None {
            None
        } else {
            Some(
                IsoFields {
                    y,
                    mo,
                    d,
                    h: parse_i64_s(tp[0])->0,
                    mi: parse_i64_s(tp[1])->0,
                    sec: parse_i64_s(tp[2])->0,
                    millis: frac_millis(frac)->0,
                },
            )
        }
    }
}

/// Epoch milliseconds of parsed fields.
pub open spec fn iso_total_ms(f: IsoFields) -> int {
    let days = days_from_civil_s(f.y, f.mo, f.d);
    ((((days * 24 + f.h) * 60 + f.mi) * 60 + f.sec) * 1000) + f.millis
}

/// Every intermediate of the 64-bit millisecond computation stays in range.
pub open spec fn iso_fits(f: IsoFields) -> bool {
    let days = days_from_civil_s(f.y, f.mo, f.d);
    &&& civil_fits(f.y, f.mo, f.d)
    &&& in_i64(days * 24)
    &&& in_i64(days * 24 + f.h)
    &&& in_i64((days * 24 + f.h) * 60)
    &&& in_i64((days * 24 + f.h) * 60 + f.mi)
    &&& in_i64(((days * 24 + f.h) * 60 + f.mi) * 60)
    &&& in_i64(((days * 24 + f.h) * 60 + f.mi) * 60 + f.sec)
    &&& in_i64((((days * 24 + f.h) * 60 + f.mi) * 60 + f.sec) * 1000)
    &&& in_i64(iso_total_ms(f))
}

/// The epoch-millisecond value of an ISO timestamp, when it parses and is
/// not before the epoch.
pub open spec fn parse_iso_s(s: Seq<char>) -> Option<int> {
    match iso_fields(s) {
        Some(f) => if iso_total_ms(f) >= 0 {
            Some(iso_total_ms(f))
        } else {
            None
        },
        None => None,
    }
}

/// The timestamp's arithmetic stays within 64-bit range (it always does
/// for years of realistic size).
pub open spec fn iso_in_range(s: Seq<char>) -> bool {
    iso_fields(s) matches Some(f) ==> iso_fits(f)
}

/// Milliseconds from the fractional part.
fn parse_frac(frac: &Vec<char>) -> (r: Option<i64>)
    ensures
        match r {
            Some(x) => frac_millis(frac@) == Some(x as int) && 0 <= x < 1000,
            None => frac_millis(frac@) is None,
        },
{
    let n = if frac.len() <= 3 { frac.len() } else { 3 };
    let f3 = slice_chars(frac, 0, n);
    assert(f3@ =~= (if frac@.len() <= 3 { frac@ } else { frac@.take(3) }));
    let mut acc: i64 = 0;
    let mut i: usize = 0;
    assert(f3@.take(0) =~= Seq::<char>::empty());
    while i < n
        invariant
            n == f3.len() <= 3,
            f3@ == (if frac@.len() <= 3 { frac@ } else { frac@.take(3) }),
            i <= n,
            all_digits(f3@.take(i as int)),
            acc == digits_val(f3@.take(i as int)),
            0 <= acc < 1000,
            i == 0 ==> acc == 0,
            i == 1 ==> acc < 10,
            i == 2 ==> acc < 100,
        decreases n - i,
    {
        assert(f3@.take(i + 1).drop_last() =~= f3@.take(i as int));
        if !is_digit_char(f3[i]) {
            assert(!all_digits(f3@)) by {
                assert(f3@[i as int] == f3@.take(i + 1).last());
            }
            return None;
        }
        acc = acc * 10 + (f3[i] as u32 - '0' as u32) as i64;
        i += 1;
        assert(forall|k: int| 0 <= k < i ==> f3@.take(i as int)[k] == f3@[k]);
    }
    assert(f3@.take(n as int) =~= f3@);
    if n == 0 {
        Some(0)
    } else if n == 1 {
        Some(acc * 100)
    } else if n == 2 {
        Some(acc * 10)
    } else {
        Some(acc)
    }
}

/// Parsed pieces `p[0..3]` as `i64`, or `None` if any fails.
fn parse_three(p: &Vec<Vec<char>>) -> (r: Option<(i64, i64, i64)>)
    requires
        p.len() >= 3,
    ensures
        match r {
            Some(t) => parse_i64_s(views(p@)[0]) == Some(t.0 as int) && parse_i64_s(views(p@)[1])
                == Some(t.1 as int) && parse_i64_s(views(p@)[2]) == Some(t.2 as int),
            None => parse_i64_s(views(p@)[0]) is None || parse_i64_s(views(p@)[1]) is None
                || parse_i64_s(views(p@)[2]) is None,
        },
{
    assert(views(p@)[0] == p@[0]@ && views(p@)[1] == p@[1]@ && views(p@)[2] == p@[2]@);
    let a = match parse_i64(&p[0]) {
        Some(x) => x,
        None => return None,
    };
    let b = match parse_i64(&p[1]) {
        Some(x) => x,
        None => return None,
    };
    let c = match parse_i64(&p[2]) {
        Some(x) => x,
        None => return None,
    };
    Some((a, b, c))
}

pub open spec fn fields_of(t: (i64, i64, i64, i64, i64, i64, i64)) -> IsoFields {
    IsoFields {
        y: t.0 as int,
        mo: t.1 as int,
        d: t.2 as int,
        h: t.3 as int,
        mi: t.4 as int,
        sec: t.5 as int,
        millis: t.6 as int,
    }
}

/// The structural parse of an ISO timestamp (`iso_fields`).
fn iso_fields_exec(s: &str) -> (r: Option<(i64, i64, i64, i64, i64, i64, i64)>)
    ensures
        match r {
            Some(t) => iso_fields(s@) == Some(fields_of(t)) && 1 <= t.1 <= 12 && 1 <= t.2 <= 31 && 0 <= t.6 < 1000,
            None => iso_fields(s@) is None,
        },
{
    let v = chars_of(s);
    let end = if v.len() > 0 && v[v.len() - 1] == 'Z' { v.len() - 1 } else { v.len() };
    let t = slice_chars(&v, 0, end);
    assert(t@ =~= strip_z(s@));
    let ti = match find_char(&t, 'T') {
        Some(i) => i,
        None => return None,
    };
    let date = slice_chars(&t, 0, ti);
    let time = slice_chars(&t, ti + 1, t.len());
    assert(date@ =~= t@.take(ti as int));
    assert(time@ =~= t@.skip(ti + 1));
    let dp = split_chars(&date, '-');
    if dp.len() < 3 {
        return None;
    }
    let (y, mo, d) = match parse_three(&dp) {
        Some(x) => x,
        None => return None,
    };
    if !(1 <= mo && mo <= 12 && 1 <= d && d <= 31) {
        return None;
    }
    let (hms, frac) = match find_char(&time, '.') {
        Some(i) => {
            let h = slice_chars(&time, 0, i);
            let f = slice_chars(&time, i + 1, time.len());
            assert(h@ =~= time@.take(i as int));
            assert(f@ =~= time@.skip(i + 1));
            (h, f)
        },
        None => (time, Vec::new()),
    };
    let tp = split_chars(&hms, ':');
    if tp.len() < 3 {
        return None;
    }
    let (h, mi, sec) = match parse_three(&tp) {
        Some(x) => x,
        None => return None,
    };
    let millis = match parse_frac(&frac) {
        Some(x) => x,
        None => return None,
    };
    let r = (y, mo, d, h, mi, sec, millis);
    assert(iso_fields(s@) == Some(fields_of(r)));
    Some(r)
}

fn in_i64_exec(x: i128) -> (b: bool)
    ensures
        b == in_i64(x as int),
{
    i64::MIN as i128 <= x && x <= i64::MAX as i128
}

/// Whether the timestamp's 64-bit arithmetic stays in range: always when it
/// does not parse; else every intermediate of the day and millisecond
/// computation fits in `i64` (computed here in 128 bits).
pub fn iso_in_range_exec(s: &str) -> (b: bool)
    ensures
        b == iso_in_range(s@),
{
    let (y, mo, d, h, mi, sec, millis) = match iso_fields_exec(s) {
        Some(t) => t,
        None => return true,
    };
    let yy: i128 = if mo <= 2 { y as i128 - 1 } else { y as i128 };
    let era: i128 = if yy >= 0 {
        yy / 400
    } else {
        let q = (399 - yy) / 400;
        proof {
            lemma_floor_div_neg(yy as int, q as int);
        }
        -q
    };
    assert(era == (yy as int) / 400);
    assert(-0x4000_0000_0000_0000 <= era <= 0x4000_0000_0000_0000) by (nonlinear_arith)
        requires
            era == (yy as int) / 400,
            -0x8000_0000_0000_0001 <= yy <= 0x7FFF_FFFF_FFFF_FFFF,
    ;
    let yoe: i128 = yy - era * 400;
    assert(0 <= yoe < 400) by (nonlinear_arith)
        requires
            era == (yy as int) / 400,
            yoe == yy - era * 400,
    ;
    let mp: i128 = if mo > 2 { mo as i128 - 3 } else { mo as i128 + 9 };
    let doe: i128 = yoe * 365 + yoe / 4 - yoe / 100 + (153 * mp + 2) / 5 + d as i128 - 1;
    let days: i128 = era * 146097 + doe - 719468;
    let civil = in_i64_exec(yy) && (yy >= 0 || in_i64_exec(yy - 399)) && in_i64_exec(era * 400)
        && in_i64_exec(era * 146097) && in_i64_exec(era * 146097 + doe) && in_i64_exec(days);
    if !civil {
        proof {
            assert(!civil_fits(y as int, mo as int, d as int));
        }
        return false;
    }
    assert(days == days_from_civil_s(y as int, mo as int, d as int));
    assert(-0x8000_0000_0000_0001 <= days <= 0x7FFF_FFFF_FFFF_FFFF);
    let a1: i128 = days * 24;
    let a2: i128 = a1 + h as i128;
    let a3: i128 = a2 * 60;
    let a4: i128 = a3 + mi as i128;
    let a5: i128 = a4 * 60;
    let a6: i128 = a5 + sec as i128;
    let a7: i128 = a6 * 1000;
    let a8: i128 = a7 + millis as i128;
    let b = in_i64_exec(a1) && in_i64_exec(a2) && in_i64_exec(a3) && in_i64_exec(a4) && in_i64_exec(a5)
        && in_i64_exec(a6) && in_i64_exec(a7) && in_i64_exec(a8);
    assert(b == iso_fits(fields_of((y, mo, d, h, mi, sec, millis))));
    b
}

/// Parse a fixed-format ISO-8601-Zulu timestamp (`2026-07-09T16:00:56.539Z`)
/// to epoch milliseconds. Tolerant of a missing/short/long fractional part.
/// `None` on any structural malformation or a time before the epoch.
pub fn parse_iso_to_epoch_ms(s: &str) -> (r: Option<u64>)
    requires
        iso_in_range(s@),
    ensures
        match r {
            Some(x) => parse_iso_s(s@) == Some(x as int),
            None => parse_iso_s(s@) is None,
        },
{
    let (y, mo, d, h, mi, sec, millis) = match iso_fields_exec(s) {
        Some(t) => t,
        None => return None,
    };
    let ghost f = fields_of((y, mo, d, h, mi, sec, millis));
    assert(iso_fits(f));
    let days = days_from_civil(y, mo, d);
    let total: i64 = ((((days * 24 + h) * 60 + mi) * 60 + sec) * 1000) + millis;
    if total >= 0 {
        Some(total as u64)
    } else {
        None
    }
}

// ---------------------------------------------------------------------------
// Usage extraction
// ---------------------------------------------------------------------------

/// The `usage.cache_creation` field of a transcript line.
pub enum CacheCreation {
    /// Field absent.
    Absent,
    /// A JSON object with the per-TTL split.
    Split { ephemeral_5m: Option<u64>, ephemeral_1h: Option<u64> },
    /// Present but not an object.
    Other,
}

/// What the usage logic reads from one assistant transcript line: string
/// fields as found (`None` when absent or not a string), token counts as
/// found (`None` when absent or not an unsigned integer).
pub struct RawUsage {
    /// `message.usage` is present.
    pub has_usage: bool,
    pub message_id: Option<String>,
    pub model: Option<String>,
    pub attribution_skill: Option<String>,
    pub timestamp: Option<String>,
    pub input_tokens: Option<u64>,
    pub cache_read_input_tokens: Option<u64>,
    pub output_tokens: Option<u64>,
    pub cache_creation_input_tokens: Option<u64>,
    pub cache_creation: CacheCreation,
}

/// Token usage of one assistant message.
pub struct UsageLine {
    pub message_id: String,
    pub model: String,
    pub skill: String,
    pub input: u64,
    pub cache_creation: u64,
    pub cache_read: u64,
    pub output: u64,
    pub cache_creation_5m: u64,
    pub cache_creation_1h: u64,
    pub ts: u64,
}

pub open spec fn or_zero(o: Option<u64>) -> int {
    match o {
        Some(x) => x as int,
        None => 0,
    }
}

/// Timestamp text of a line (`""` when absent).
pub open spec fn ts_text(r: RawUsage) -> Seq<char> {
    match r.timestamp {
        Some(t) => t@,
        None => Seq::<char>::empty(),
    }
}

/// The line's arithmetic stays in range: its timestamp, and the 5m+1h
/// cache-creation sum.
pub open spec fn raw_usage_fits(r: RawUsage) -> bool {
    &&& iso_in_range(ts_text(r))
    &&& r.cache_creation matches CacheCreation::Split { ephemeral_5m, ephemeral_1h } ==> or_zero(
        ephemeral_5m,
    ) + or_zero(ephemeral_1h) <= u64::MAX
}

/// The usage of one line: `None` without `message.usage` or `message.id`;
/// model `unknown` and skill `other` when absent (or empty skill); missing
/// counts are zero; the cache-creation total is the 5m+1h split when given
/// as an object, else the flat count (all 5m); the timestamp in epoch
/// milliseconds, 0 when absent or unparseable.
pub open spec fn usage_ok(r: RawUsage, u: UsageLine) -> bool {
    &&& r.message_id matches Some(id) && u.message_id@ == id@
    &&& u.model@ == (match r.model {
        Some(m) => m@,
        None => "unknown"@,
    })
    &&& u.skill@ == (match r.attribution_skill {
        Some(s) => if s@.len() > 0 {
            s@
        } else {
            "other"@
        },
        None => "other"@,
    })
    &&& u.input == or_zero(r.input_tokens)
    &&& u.cache_read == or_zero(r.cache_read_input_tokens)
    &&& u.output == or_zero(r.output_tokens)
    &&& u.ts == (match parse_iso_s(ts_text(r)) {
        Some(x) => x,
        None => 0,
    })
    &&& match r.cache_creation {
        CacheCreation::Split { ephemeral_5m, ephemeral_1h } => {
            &&& u.cache_creation_5m == or_zero(ephemeral_5m)
            &&& u.cache_creation_1h == or_zero(ephemeral_1h)
            &&& u.cache_creation == or_zero(ephemeral_5m) + or_zero(ephemeral_1h)
        },
        _ => {
            &&& u.cache_creation == or_zero(r.cache_creation_input_tokens)
            &&& u.cache_creation_5m == or_zero(r.cache_creation_input_tokens)
            &&& u.cache_creation_1h == 0
        },
    }
}

/// The cache-creation split adds up.
pub open spec fn split_adds_up(u: UsageLine) -> bool {
    u.cache_creation_5m + u.cache_creation_1h == u.cache_creation
}

/// Token usage of one assistant line; `None` when it carries no usage or no
/// message id (the line is skipped).
pub fn extract_usage(r: &RawUsage) -> (u: Option<UsageLine>)
    requires
        raw_usage_fits(*r),
    ensures
        match u {
            Some(x) => r.has_usage && usage_ok(*r, x) && split_adds_up(x),
            None => !r.has_usage || r.message_id is None,
        },
{
    if !r.has_usage {
        return None;
    }
    let message_id = match &r.message_id {
        Some(id) => id.clone(),
        None => return None,
    };
    let model = match &r.model {
        Some(m) => m.clone(),
        None => "unknown".to_string(),
    };
    let skill = match &r.attribution_skill {
        Some(s) if !s.as_str().is_empty() => s.clone(),
        _ => "other".to_string(),
    };
    let input = match r.input_tokens {
        Some(x) => x,
        None => 0,
    };
    let cache_read = match r.cache_read_input_tokens {
        Some(x) => x,
        None => 0,
    };
    let output = match r.output_tokens {
        Some(x) => x,
        None => 0,
    };
    let ts = match &r.timestamp {
        Some(t) => match parse_iso_to_epoch_ms(t.as_str()) {
            Some(x) => x,
            None => 0,
        },
        None => {
            proof {
                reveal_strlit("");
                assert(""@ =~= Seq::<char>::empty());
            }
            match parse_iso_to_epoch_ms("") {
                Some(x) => x,
                None => 0,
            }
        },
    };
    let (cache_creation, cc_5m, cc_1h) = match &r.cache_creation {
        CacheCreation::Split { ephemeral_5m, ephemeral_1h } => {
            let c5m = match ephemeral_5m {
                Some(x) => *x,
                None => 0,
            };
            let c1h = match ephemeral_1h {
                Some(x) => *x,
                None => 0,
            };
            (c5m + c1h, c5m, c1h)
        },
        _ => {
            let cc = match r.cache_creation_input_tokens {
                Some(x) => x,
                None => 0,
            };
            (cc, cc, 0)
        },
    };
    Some(
        UsageLine {
            message_id,
            model,
            skill,
            input,
            cache_creation,
            cache_read,
            output,
            cache_creation_5m: cc_5m,
            cache_creation_1h: cc_1h,
            ts,
        },
    )
}

// ---------------------------------------------------------------------------
// Dedup and bucketing
// ---------------------------------------------------------------------------

/// One transcript line after parsing: the session it came from (the file
/// stem) and its usage, `None` when the line is skipped (not an assistant
/// line, malformed, or without usage / message id).
pub struct HarvestLine {
    pub session_id: String,
    pub usage: Option<UsageLine>,
}

/// Totals of one (session, model, skill) bucket.
pub struct LedgerBucket {
    pub session_id: String,
    pub model: String,
    pub skill: String,
    pub input: u64,
    pub cache_creation: u64,
    pub cache_read: u64,
    pub output: u64,
    pub cache_creation_5m: u64,
    pub cache_creation_1h: u64,
    pub messages: u64,
    pub last_ts: u64,
}

/// Bucket totals as mathematical integers.
pub struct BucketS {
    pub session: Seq<char>,
    pub model: Seq<char>,
    pub skill: Seq<char>,
    pub input: int,
    pub cache_creation: int,
    pub cache_read: int,
    pub output: int,
    pub cc_5m: int,
    pub cc_1h: int,
    pub messages: int,
    pub last_ts: int,
}

/// State of the fold: message ids seen (first-seen order), duplicates
/// skipped, sessions with at least one counted message (first-seen order),
/// and buckets (first-seen order).
pub struct FoldS {
    pub seen: Seq<Seq<char>>,
    pub dups: int,
    pub sessions: Seq<Seq<char>>,
    pub buckets: Seq<BucketS>,
}

pub open spec fn strs_view(v: Seq<String>) -> Seq<Seq<char>> {
    v.map_values(|s: String| s@)
}

pub open spec fn bucket_view(b: LedgerBucket) -> BucketS {
    BucketS {
        session: b.session_id@,
        model: b.model@,
        skill: b.skill@,
        input: b.input as int,
        cache_creation: b.cache_creation as int,
        cache_read: b.cache_read as int,
        output: b.output as int,
        cc_5m: b.cache_creation_5m as int,
        cc_1h: b.cache_creation_1h as int,
        messages: b.messages as int,
        last_ts: b.last_ts as int,
    }
}

pub open spec fn buckets_view(v: Seq<LedgerBucket>) -> Seq<BucketS> {
    v.map_values(|b: LedgerBucket| bucket_view(b))
}

/// Index of the bucket for the key, or -1.
pub open spec fn bucket_idx(bs: Seq<BucketS>, session: Seq<char>, model: Seq<char>, skill: Seq<char>) -> int
    decreases bs.len(),
{
    if bs.len() == 0 {
        -1
    } else if bs.last().session == session && bs.last().model == model && bs.last().skill == skill {
        bs.len() - 1
    } else {
        bucket_idx(bs.drop_last(), session, model, skill)
    }
}

pub open spec fn add_usage(b: BucketS, u: UsageLine) -> BucketS {
    BucketS {
        input: b.input + u.input,
        cache_creation: b.cache_creation + u.cache_creation,
        cache_read: b.cache_read + u.cache_read,
        output: b.output + u.output,
        cc_5m: b.cc_5m + u.cache_creation_5m,
        cc_1h: b.cc_1h + u.cache_creation_1h,
        messages: b.messages + 1,
        last_ts: if u.ts > b.last_ts {
            u.ts as int
        } else {
            b.last_ts
        },
        ..b
    }
}

pub open spec fn new_bucket(session: Seq<char>, u: UsageLine) -> BucketS {
    BucketS {
        session,
        model: u.model@,
        skill: u.skill@,
        input: u.input as int,
        cache_creation: u.cache_creation as int,
        cache_read: u.cache_read as int,
        output: u.output as int,
        cc_5m: u.cache_creation_5m as int,
        cc_1h: u.cache_creation_1h as int,
        messages: 1,
        last_ts: u.ts as int,
    }
}

/// One line: skipped lines change nothing; a repeated message id counts a
/// duplicate; a new id is recorded and its tokens added to its bucket.
pub open spec fn fold_step(st: FoldS, l: HarvestLine) -> FoldS {
    match l.usage {
        None => st,
        Some(u) => if st.seen.contains(u.message_id@) {
            FoldS { dups: st.dups + 1, ..st }
        } else {
            let k = bucket_idx(st.buckets, l.session_id@, u.model@, u.skill@);
            FoldS {
                seen: st.seen.push(u.message_id@),
                dups: st.dups,
                sessions: if st.sessions.contains(l.session_id@) {
                    st.sessions
                } else {
                    st.sessions.push(l.session_id@)
                },
                buckets: if k >= 0 {
                    st.buckets.update(k, add_usage(st.buckets[k], u))
                } else {
                    st.buckets.push(new_bucket(l.session_id@, u))
                },
            }
        },
    }
}

pub open spec fn fold_s(lines: Seq<HarvestLine>) -> FoldS
    decreases lines.len(),
{
    if lines.len() == 0 {
        FoldS {
            seen: Seq::empty(),
            dups: 0,
            sessions: Seq::empty(),
            buckets: Seq::empty(),
        }
    } else {
        fold_step(fold_s(lines.drop_last()), lines.last())
    }
}

pub open spec fn bucket_fits(b: BucketS) -> bool {
    &&& b.input <= u64::MAX
    &&& b.cache_creation <= u64::MAX
    &&& b.cache_read <= u64::MAX
    &&& b.output <= u64::MAX
    &&& b.cc_5m <= u64::MAX
    &&& b.cc_1h <= u64::MAX
    &&& b.messages <= u64::MAX
}

/// Every bucket total of the fold fits in 64 bits.
pub open spec fn fold_fits(st: FoldS) -> bool {
    forall|k: int| 0 <= k < st.buckets.len() ==> bucket_fits(#[trigger] st.buckets[k])
}

pub open spec fn bucket_le(a: BucketS, b: BucketS) -> bool {
    &&& a.input <= b.input
    &&& a.cache_creation <= b.cache_creation
    &&& a.cache_read <= b.cache_read
    &&& a.output <= b.output
    &&& a.cc_5m <= b.cc_5m
    &&& a.cc_1h <= b.cc_1h
    &&& a.messages <= b.messages
}

pub open spec fn fold_le(a: FoldS, b: FoldS) -> bool {
    &&& a.buckets.len() <= b.buckets.len()
    &&& forall|k: int| 0 <= k < a.buckets.len() ==> bucket_le(a.buckets[k], #[trigger] b.buckets[k])
}

proof fn lemma_bucket_idx(bs: Seq<BucketS>, session: Seq<char>, model: Seq<char>, skill: Seq<char>)
    ensures
        -1 <= bucket_idx(bs, session, model, skill) < bs.len(),
    decreases bs.len(),
{
    if bs.len() > 0 {
        lemma_bucket_idx(bs.drop_last(), session, model, skill);
    }
}

proof fn lemma_step_le(st: FoldS, l: HarvestLine)
    ensures
        fold_le(st, fold_step(st, l)),
{
    match l.usage {
        None => {},
        Some(u) => {
            if !st.seen.contains(u.message_id@) {
                lemma_bucket_idx(st.buckets, l.session_id@, u.model@, u.skill@);
            }
        },
    }
}

proof fn lemma_fold_mono(lines: Seq<HarvestLine>, i: int)
    requires
        0 <= i <= lines.len(),
    ensures
        fold_le(fold_s(lines.take(i)), fold_s(lines)),
    decreases lines.len() - i,
{
    if i < lines.len() {
        lemma_fold_mono(lines, i + 1);
        assert(lines.take(i + 1).drop_last() =~= lines.take(i));
        lemma_step_le(fold_s(lines.take(i)), lines.take(i + 1).last());
    } else {
        assert(lines.take(i) =~= lines);
    }
}

/// A token field of the ledger (or the message count).
pub enum TokenField {
    Input,
    CacheCreation,
    CacheRead,
    Output,
    CacheCreation5m,
    CacheCreation1h,
    Messages,
}

/// What one message contributes to a field.
pub open spec fn usage_field(u: UsageLine, f: TokenField) -> int {
    match f {
        TokenField::Input => u.input as int,
        TokenField::CacheCreation => u.cache_creation as int,
        TokenField::CacheRead => u.cache_read as int,
        TokenField::Output => u.output as int,
        TokenField::CacheCreation5m => u.cache_creation_5m as int,
        TokenField::CacheCreation1h => u.cache_creation_1h as int,
        TokenField::Messages => 1,
    }
}

/// A bucket's total for a field.
pub open spec fn bucket_field(b: BucketS, f: TokenField) -> int {
    match f {
        TokenField::Input => b.input,
        TokenField::CacheCreation => b.cache_creation,
        TokenField::CacheRead => b.cache_read,
        TokenField::Output => b.output,
        TokenField::CacheCreation5m => b.cc_5m,
        TokenField::CacheCreation1h => b.cc_1h,
        TokenField::Messages => b.messages,
    }
}

/// Line `i` carries usage whose message id no earlier line's usage has:
/// the first time that message is seen.
pub open spec fn first_use(lines: Seq<HarvestLine>, i: int) -> bool {
    &&& lines[i].usage is Some
    &&& forall|j: int|
        0 <= j < i ==> !((#[trigger] lines[j]).usage is Some && lines[j].usage->0.message_id@
            == lines[i].usage->0.message_id@)
}

/// Line `l` carries usage of the (session, model, skill) key.
pub open spec fn of_key(l: HarvestLine, s: Seq<char>, m: Seq<char>, k: Seq<char>) -> bool {
    l.usage is Some && l.session_id@ == s && l.usage->0.model@ == m && l.usage->0.skill@ == k
}

/// The sum of a field over the first uses, among the first `n` lines, of
/// the messages of a key.
pub open spec fn key_sum(lines: Seq<HarvestLine>, n: int, s: Seq<char>, m: Seq<char>, k: Seq<char>, f: TokenField) -> int
    decreases n,
{
    if n <= 0 {
        0
    } else {
        key_sum(lines, n - 1, s, m, k, f) + if first_use(lines, n - 1) && of_key(lines[n - 1], s, m, k) {
            usage_field(lines[n - 1].usage->0, f)
        } else {
            0
        }
    }
}

pub open spec fn bucket_sums_ok(b: BucketS, lines: Seq<HarvestLine>, n: int) -> bool {
    forall|f: TokenField| #[trigger] bucket_field(b, f) == key_sum(lines, n, b.session, b.model, b.skill, f)
}

proof fn lemma_bucket_idx_key(bs: Seq<BucketS>, s: Seq<char>, m: Seq<char>, k: Seq<char>)
    ensures
        bucket_idx(bs, s, m, k) >= 0 ==> bs[bucket_idx(bs, s, m, k)].session == s && bs[bucket_idx(bs, s, m, k)].model
            == m && bs[bucket_idx(bs, s, m, k)].skill == k,
        bucket_idx(bs, s, m, k) < 0 ==> forall|j: int| 0 <= j < bs.len() ==> !((#[trigger] bs[j]).session == s
            && bs[j].model == m && bs[j].skill == k),
    decreases bs.len(),
{
    lemma_bucket_idx(bs, s, m, k);
    if bs.len() > 0 {
        lemma_bucket_idx_key(bs.drop_last(), s, m, k);
        if !(bs.last().session == s && bs.last().model == m && bs.last().skill == k) {
            lemma_bucket_idx(bs.drop_last(), s, m, k);
            let i = bucket_idx(bs.drop_last(), s, m, k);
            if i >= 0 {
                assert(bs[i] == bs.drop_last()[i]);
            } else {
            assert forall|j: int| 0 <= j < bs.len() implies !((#[trigger] bs[j]).session == s && bs[j].model == m
                && bs[j].skill == k) by {
                if j < bs.len() - 1 {
                    assert(bs[j] == bs.drop_last()[j]);
                }
            }
            }
        }
    }
}

/// The fold after `n` lines: its seen ids are exactly the ids of the
/// usage lines so far, its buckets have distinct keys, each bucket's
/// totals are the sums over its key's first uses, and a key without a
/// bucket has nothing summed.
proof fn lemma_fold_sums_prefix(lines: Seq<HarvestLine>, n: int)
    requires
        0 <= n <= lines.len(),
    ensures
        ({
            let st = fold_s(lines.take(n));
            &&& forall|id: Seq<char>| #[trigger] st.seen.contains(id) <==> exists|j: int|
                0 <= j < n && (#[trigger] lines[j]).usage is Some && lines[j].usage->0.message_id@ == id
            &&& forall|a: int, b: int|
                0 <= a < b < st.buckets.len() ==> !((#[trigger] st.buckets[a]).session == (#[trigger] st.buckets[b]).session
                    && st.buckets[a].model == st.buckets[b].model && st.buckets[a].skill == st.buckets[b].skill)
            &&& forall|q: int| 0 <= q < st.buckets.len() ==> bucket_sums_ok(#[trigger] st.buckets[q], lines, n)
            &&& forall|s: Seq<char>, m: Seq<char>, k: Seq<char>, f: TokenField|
                bucket_idx(st.buckets, s, m, k) < 0 ==> #[trigger] key_sum(lines, n, s, m, k, f) == 0
        }),
    decreases n,
{
    if n == 0 {
        assert(lines.take(0) =~= Seq::<HarvestLine>::empty());
        let st = fold_s(lines.take(0));
        assert(st.seen =~= Seq::<Seq<char>>::empty());
    } else {
        lemma_fold_sums_prefix(lines, n - 1);
        let pre = lines.take(n - 1);
        assert(lines.take(n).drop_last() =~= pre);
        assert(lines.take(n).last() == lines[n - 1]);
        let st = fold_s(pre);
        let l = lines[n - 1];
        let nx = fold_s(lines.take(n));
        assert(nx == fold_step(st, l));
        match l.usage {
            None => {
                assert(!first_use(lines, n - 1));
                assert forall|id: Seq<char>| #[trigger] nx.seen.contains(id) <==> exists|j: int|
                    0 <= j < n && (#[trigger] lines[j]).usage is Some && lines[j].usage->0.message_id@ == id by {
                    if exists|j: int| 0 <= j < n && (#[trigger] lines[j]).usage is Some && lines[j].usage->0.message_id@ == id {
                        let j = choose|j: int| 0 <= j < n && (#[trigger] lines[j]).usage is Some && lines[j].usage->0.message_id@ == id;
                        assert(j < n - 1);
                    }
                }
                assert forall|q: int| 0 <= q < nx.buckets.len() implies bucket_sums_ok(#[trigger] nx.buckets[q], lines, n) by {
                    assert forall|f: TokenField| #[trigger] bucket_field(nx.buckets[q], f) == key_sum(lines, n, nx.buckets[q].session, nx.buckets[q].model, nx.buckets[q].skill, f) by {
                        assert(bucket_sums_ok(st.buckets[q], lines, n - 1));
                    }
                }
                assert forall|s: Seq<char>, m: Seq<char>, k: Seq<char>, f: TokenField|
                    bucket_idx(nx.buckets, s, m, k) < 0 implies #[trigger] key_sum(lines, n, s, m, k, f) == 0 by {
                    assert(key_sum(lines, n - 1, s, m, k, f) == 0);
                }
            },
            Some(u) => {
                let id = u.message_id@;
                if st.seen.contains(id) {
                    let j0 = choose|j: int| 0 <= j < n - 1 && (#[trigger] lines[j]).usage is Some && lines[j].usage->0.message_id@ == id;
                    assert(!first_use(lines, n - 1)) by {
                        assert(lines[j0].usage is Some && lines[j0].usage->0.message_id@ == lines[n - 1].usage->0.message_id@);
                    }
                    assert forall|id2: Seq<char>| #[trigger] nx.seen.contains(id2) <==> exists|j: int|
                        0 <= j < n && (#[trigger] lines[j]).usage is Some && lines[j].usage->0.message_id@ == id2 by {
                        if exists|j: int| 0 <= j < n && (#[trigger] lines[j]).usage is Some && lines[j].usage->0.message_id@ == id2 {
                            let j = choose|j: int| 0 <= j < n && (#[trigger] lines[j]).usage is Some && lines[j].usage->0.message_id@ == id2;
                            if j == n - 1 {
                                assert(lines[j0].usage->0.message_id@ == id2);
                            }
                        }
                    }
                    assert forall|q: int| 0 <= q < nx.buckets.len() implies bucket_sums_ok(#[trigger] nx.buckets[q], lines, n) by {
                        assert forall|f: TokenField| #[trigger] bucket_field(nx.buckets[q], f) == key_sum(lines, n, nx.buckets[q].session, nx.buckets[q].model, nx.buckets[q].skill, f) by {
                            assert(bucket_sums_ok(st.buckets[q], lines, n - 1));
                        }
                    }
                    assert forall|s: Seq<char>, m: Seq<char>, k: Seq<char>, f: TokenField|
                        bucket_idx(nx.buckets, s, m, k) < 0 implies #[trigger] key_sum(lines, n, s, m, k, f) == 0 by {
                        assert(key_sum(lines, n - 1, s, m, k, f) == 0);
                    }
                } else {
                    assert(first_use(lines, n - 1)) by {
                        assert forall|j: int| 0 <= j < n - 1 implies !((#[trigger] lines[j]).usage is Some && lines[j].usage->0.message_id@
                            == lines[n - 1].usage->0.message_id@) by {
                            if lines[j].usage is Some && lines[j].usage->0.message_id@ == id {
                                assert(st.seen.contains(id));
                            }
                        }
                    }
                    assert(nx.seen == st.seen.push(id));
                    assert forall|id2: Seq<char>| #[trigger] nx.seen.contains(id2) <==> exists|j: int|
                        0 <= j < n && (#[trigger] lines[j]).usage is Some && lines[j].usage->0.message_id@ == id2 by {
                        if nx.seen.contains(id2) {
                            if id2 == id {
                                assert(lines[n - 1].usage is Some && lines[n - 1].usage->0.message_id@ == id2);
                            } else {
                                let i = choose|i: int| 0 <= i < nx.seen.len() && nx.seen[i] == id2;
                                assert(i < st.seen.len());
                                assert(st.seen[i] == id2);
                                assert(st.seen.contains(id2));
                            }
                        }
                        if exists|j: int| 0 <= j < n && (#[trigger] lines[j]).usage is Some && lines[j].usage->0.message_id@ == id2 {
                            let j = choose|j: int| 0 <= j < n && (#[trigger] lines[j]).usage is Some && lines[j].usage->0.message_id@ == id2;
                            if j == n - 1 {
                                assert(nx.seen[st.seen.len() as int] == id2);
                            } else {
                                assert(st.seen.contains(id2));
                                let i = choose|i: int| 0 <= i < st.seen.len() && st.seen[i] == id2;
                                assert(nx.seen[i] == id2);
                            }
                        }
                    }
                    let (ss, mm, kk) = (l.session_id@, u.model@, u.skill@);
                    assert(of_key(l, ss, mm, kk));
                    lemma_bucket_idx_key(st.buckets, ss, mm, kk);
                    lemma_bucket_idx(st.buckets, ss, mm, kk);
                    let bi = bucket_idx(st.buckets, ss, mm, kk);
                    if bi >= 0 {
                        assert(nx.buckets == st.buckets.update(bi, add_usage(st.buckets[bi], u)));
                        assert forall|a: int, b: int|
                            0 <= a < b < nx.buckets.len() implies !((#[trigger] nx.buckets[a]).session == (#[trigger] nx.buckets[b]).session
                                && nx.buckets[a].model == nx.buckets[b].model && nx.buckets[a].skill == nx.buckets[b].skill) by {
                            assert(st.buckets[a].session == nx.buckets[a].session && st.buckets[a].model == nx.buckets[a].model && st.buckets[a].skill == nx.buckets[a].skill);
                            assert(st.buckets[b].session == nx.buckets[b].session && st.buckets[b].model == nx.buckets[b].model && st.buckets[b].skill == nx.buckets[b].skill);
                        }
                        assert forall|q: int| 0 <= q < nx.buckets.len() implies bucket_sums_ok(#[trigger] nx.buckets[q], lines, n) by {
                            let bq = st.buckets[q];
                            assert(bucket_sums_ok(bq, lines, n - 1));
                            if q == bi {
                                assert forall|f: TokenField| #[trigger] bucket_field(nx.buckets[q], f) == key_sum(lines, n, nx.buckets[q].session, nx.buckets[q].model, nx.buckets[q].skill, f) by {
                                    assert(bucket_field(bq, f) == key_sum(lines, n - 1, bq.session, bq.model, bq.skill, f));
                                }
                            } else {
                                assert(!(bq.session == ss && bq.model == mm && bq.skill == kk)) by {
                                    if q < bi {
                                        assert(!((st.buckets[q]).session == (st.buckets[bi]).session && st.buckets[q].model == st.buckets[bi].model && st.buckets[q].skill == st.buckets[bi].skill));
                                    } else {
                                        assert(!((st.buckets[bi]).session == (st.buckets[q]).session && st.buckets[bi].model == st.buckets[q].model && st.buckets[bi].skill == st.buckets[q].skill));
                                    }
                                }
                                assert forall|f: TokenField| #[trigger] bucket_field(nx.buckets[q], f) == key_sum(lines, n, nx.buckets[q].session, nx.buckets[q].model, nx.buckets[q].skill, f) by {
                                    assert(bucket_field(bq, f) == key_sum(lines, n - 1, bq.session, bq.model, bq.skill, f));
                                }
                            }
                        }
                        assert forall|s: Seq<char>, m: Seq<char>, k: Seq<char>, f: TokenField|
                            bucket_idx(nx.buckets, s, m, k) < 0 implies #[trigger] key_sum(lines, n, s, m, k, f) == 0 by {
                            lemma_bucket_idx_key(nx.buckets, s, m, k);
                            assert(!(nx.buckets[bi].session == s && nx.buckets[bi].model == m && nx.buckets[bi].skill == k));
                            lemma_bucket_idx_key(st.buckets, s, m, k);
                            if bucket_idx(st.buckets, s, m, k) >= 0 {
                                let q = bucket_idx(st.buckets, s, m, k);
                                lemma_bucket_idx(st.buckets, s, m, k);
                                assert(nx.buckets[q].session == s && nx.buckets[q].model == m && nx.buckets[q].skill == k);
                            }
                            assert(key_sum(lines, n - 1, s, m, k, f) == 0);
                        }
                    } else {
                        let nb = new_bucket(l.session_id@, u);
                        assert(nx.buckets == st.buckets.push(nb));
                        assert forall|a: int, b: int|
                            0 <= a < b < nx.buckets.len() implies !((#[trigger] nx.buckets[a]).session == (#[trigger] nx.buckets[b]).session
                                && nx.buckets[a].model == nx.buckets[b].model && nx.buckets[a].skill == nx.buckets[b].skill) by {
                            assert(nx.buckets[a] == st.buckets[a]);
                            if b < st.buckets.len() {
                                assert(nx.buckets[b] == st.buckets[b]);
                            }
                        }
                        assert forall|q: int| 0 <= q < nx.buckets.len() implies bucket_sums_ok(#[trigger] nx.buckets[q], lines, n) by {
                            if q < st.buckets.len() {
                                let bq = st.buckets[q];
                                assert(nx.buckets[q] == bq);
                                assert(bucket_sums_ok(bq, lines, n - 1));
                                assert(!(bq.session == ss && bq.model == mm && bq.skill == kk));
                                assert forall|f: TokenField| #[trigger] bucket_field(nx.buckets[q], f) == key_sum(lines, n, nx.buckets[q].session, nx.buckets[q].model, nx.buckets[q].skill, f) by {
                                    assert(bucket_field(bq, f) == key_sum(lines, n - 1, bq.session, bq.model, bq.skill, f));
                                }
                            } else {
                                assert(nx.buckets[q] == nb);
                                assert forall|f: TokenField| #[trigger] bucket_field(nx.buckets[q], f) == key_sum(lines, n, nx.buckets[q].session, nx.buckets[q].model, nx.buckets[q].skill, f) by {
                                    assert(key_sum(lines, n - 1, ss, mm, kk, f) == 0);
                                }
                            }
                        }
                        assert forall|s: Seq<char>, m: Seq<char>, k: Seq<char>, f: TokenField|
                            bucket_idx(nx.buckets, s, m, k) < 0 implies #[trigger] key_sum(lines, n, s, m, k, f) == 0 by {
                            lemma_bucket_idx_key(nx.buckets, s, m, k);
                            assert(!(nx.buckets[st.buckets.len() as int].session == s && nx.buckets[st.buckets.len() as int].model == m && nx.buckets[st.buckets.len() as int].skill == k));
                            lemma_bucket_idx_key(st.buckets, s, m, k);
                            if bucket_idx(st.buckets, s, m, k) >= 0 {
                                let q = bucket_idx(st.buckets, s, m, k);
                                lemma_bucket_idx(st.buckets, s, m, k);
                                assert(nx.buckets[q] == st.buckets[q]);
                            }
                            assert(key_sum(lines, n - 1, s, m, k, f) == 0);
                        }
                    }
                }
            },
        }
    }
}

/// Each bucket's totals are the sums, over the distinct messages of its
/// (session, model, skill) key (the first line with each message id), of
/// those messages' tokens: input, cache creation (and its 5-minute and
/// 1-hour parts), cache reads and output; its message count is the number
/// of such messages. Buckets have distinct keys.
pub proof fn lemma_bucket_totals_are_sums(lines: Seq<HarvestLine>)
    ensures
        forall|q: int, f: TokenField|
            0 <= q < fold_s(lines).buckets.len() ==> #[trigger] bucket_field(fold_s(lines).buckets[q], f) == key_sum(
                lines,
                lines.len() as int,
                fold_s(lines).buckets[q].session,
                fold_s(lines).buckets[q].model,
                fold_s(lines).buckets[q].skill,
                f,
            ),
        forall|a: int, b: int|
            0 <= a < b < fold_s(lines).buckets.len() ==> !((#[trigger] fold_s(lines).buckets[a]).session == (
            #[trigger] fold_s(lines).buckets[b]).session && fold_s(lines).buckets[a].model == fold_s(lines).buckets[b].model
                && fold_s(lines).buckets[a].skill == fold_s(lines).buckets[b].skill),
{
    lemma_fold_sums_prefix(lines, lines.len() as int);
    assert(lines.take(lines.len() as int) =~= lines);
    assert forall|q: int, f: TokenField|
        0 <= q < fold_s(lines).buckets.len() implies #[trigger] bucket_field(fold_s(lines).buckets[q], f) == key_sum(
            lines,
            lines.len() as int,
            fold_s(lines).buckets[q].session,
            fold_s(lines).buckets[q].model,
            fold_s(lines).buckets[q].skill,
            f,
        ) by {
        assert(bucket_sums_ok(fold_s(lines).buckets[q], lines, lines.len() as int));
    }
}

/// Every line's usage has its cache-creation split adding up.
pub open spec fn lines_split_ok(lines: Seq<HarvestLine>) -> bool {
    forall|i: int| 0 <= i < lines.len() ==> ((#[trigger] lines[i]).usage matches Some(u) ==> split_adds_up(u))
}

/// Each bucket's 5-minute and 1-hour cache-creation totals add up to its
/// cache-creation total, when they do for every line.
pub proof fn lemma_fold_split_adds_up(lines: Seq<HarvestLine>)
    requires
        lines_split_ok(lines),
    ensures
        forall|k: int| 0 <= k < fold_s(lines).buckets.len() ==> (#[trigger] fold_s(lines).buckets[k]).cc_5m
            + fold_s(lines).buckets[k].cc_1h == fold_s(lines).buckets[k].cache_creation,
    decreases lines.len(),
{
    if lines.len() > 0 {
        let pre = lines.drop_last();
        assert forall|i: int| 0 <= i < pre.len() implies ((#[trigger] pre[i]).usage matches Some(u) ==> split_adds_up(u)) by {
            assert(pre[i] == lines[i]);
        }
        lemma_fold_split_adds_up(pre);
        let st = fold_s(pre);
        let l = lines.last();
        assert(l == lines[lines.len() - 1]);
        match l.usage {
            None => {},
            Some(u) => {
                if !st.seen.contains(u.message_id@) {
                    lemma_bucket_idx(st.buckets, l.session_id@, u.model@, u.skill@);
                }
            },
        }
    }
}

/// The usage `extract_usage` builds for a line has its split adding up.
pub proof fn lemma_usage_split(r: RawUsage, u: UsageLine)
    requires
        usage_ok(r, u),
    ensures
        split_adds_up(u),
{
}

/// Lines whose usage is what `extract_usage` builds (as `harvest_line` and
/// `transcript_line` give them) fold into buckets whose 5-minute and
/// 1-hour cache-creation totals add up to the cache-creation total.
pub proof fn lemma_harvest_buckets_split(lines: Seq<HarvestLine>)
    requires
        forall|i: int| 0 <= i < lines.len() ==> ((#[trigger] lines[i]).usage matches Some(u) ==> exists|r: RawUsage|
            usage_ok(r, u)),
    ensures
        forall|k: int| 0 <= k < fold_s(lines).buckets.len() ==> (#[trigger] fold_s(lines).buckets[k]).cc_5m
            + fold_s(lines).buckets[k].cc_1h == fold_s(lines).buckets[k].cache_creation,
{
    assert forall|i: int| 0 <= i < lines.len() implies ((#[trigger] lines[i]).usage matches Some(u) ==> split_adds_up(u)) by {
        if let Some(u) = lines[i].usage {
            let r = choose|r: RawUsage| usage_ok(r, u);
            lemma_usage_split(r, u);
        }
    }
    lemma_fold_split_adds_up(lines);
}

/// The harvest of a run: the buckets, total counted messages, duplicates
/// skipped, sessions with messages, and number of ledger records.
pub struct HarvestTotals {
    pub buckets: Vec<LedgerBucket>,
    pub messages: usize,
    pub duplicates: usize,
    pub sessions: usize,
    pub records: usize,
}

pub open spec fn total_messages(bs: Seq<BucketS>) -> int
    decreases bs.len(),
{
    if bs.len() == 0 {
        0
    } else {
        total_messages(bs.drop_last()) + bs.last().messages
    }
}

/// Number of lines that carry usage.
pub open spec fn usage_count(lines: Seq<HarvestLine>) -> int
    decreases lines.len(),
{
    if lines.len() == 0 {
        0
    } else {
        usage_count(lines.drop_last()) + if lines.last().usage is Some {
            1int
        } else {
            0int
        }
    }
}

proof fn lemma_total_push(bs: Seq<BucketS>, b: BucketS)
    ensures
        total_messages(bs.push(b)) == total_messages(bs) + b.messages,
{
    assert(bs.push(b).drop_last() =~= bs);
}

proof fn lemma_total_update(bs: Seq<BucketS>, k: int, b: BucketS)
    requires
        0 <= k < bs.len(),
    ensures
        total_messages(bs.update(k, b)) == total_messages(bs) - bs[k].messages + b.messages,
    decreases bs.len(),
{
    if k == bs.len() - 1 {
        assert(bs.update(k, b).drop_last() =~= bs.drop_last());
    } else {
        lemma_total_update(bs.drop_last(), k, b);
        assert(bs.update(k, b).drop_last() =~= bs.drop_last().update(k, b));
    }
}

/// Counted messages are exactly the distinct ids recorded, and every line
/// with usage is either counted or a duplicate.
proof fn lemma_fold_counts(lines: Seq<HarvestLine>)
    ensures
        total_messages(fold_s(lines).buckets) == fold_s(lines).seen.len(),
        fold_s(lines).seen.len() + fold_s(lines).dups == usage_count(lines),
        usage_count(lines) <= lines.len(),
    decreases lines.len(),
{
    if lines.len() > 0 {
        let pre = lines.drop_last();
        lemma_fold_counts(pre);
        let st = fold_s(pre);
        let l = lines.last();
        match l.usage {
            None => {},
            Some(u) => {
                if !st.seen.contains(u.message_id@) {
                    lemma_bucket_idx(st.buckets, l.session_id@, u.model@, u.skill@);
                    let k = bucket_idx(st.buckets, l.session_id@, u.model@, u.skill@);
                    if k >= 0 {
                        lemma_total_update(st.buckets, k, add_usage(st.buckets[k], u));
                    } else {
                        lemma_total_push(st.buckets, new_bucket(l.session_id@, u));
                    }
                }
            },
        }
    }
}

proof fn lemma_total_prefix(bs: Seq<BucketS>, j: int)
    requires
        0 <= j <= bs.len(),
        forall|k: int| 0 <= k < bs.len() ==> (#[trigger] bs[k]).messages >= 0,
    ensures
        total_messages(bs.take(j)) <= total_messages(bs),
    decreases bs.len() - j,
{
    if j < bs.len() {
        lemma_total_prefix(bs, j + 1);
        assert(bs.take(j + 1).drop_last() =~= bs.take(j));
    } else {
        assert(bs.take(j) =~= bs);
    }
}

fn index_of_str(v: &Vec<String>, s: &String) -> (r: Option<usize>)
    ensures
        match r {
            Some(i) => i < v.len() && v@[i as int]@ == s@,
            None => !strs_view(v@).contains(s@),
        },
{
    let mut i: usize = 0;
    while i < v.len()
        invariant
            i <= v.len(),
            forall|k: int| 0 <= k < i ==> v@[k]@ != s@,
        decreases v.len() - i,
    {
        if v[i] == *s {
            return Some(i);
        }
        i += 1;
    }
    assert forall|k: int| 0 <= k < strs_view(v@).len() implies strs_view(v@)[k] != s@ by {
        assert(strs_view(v@)[k] == v@[k]@);
    }
    None
}

fn find_bucket(bs: &Vec<LedgerBucket>, session: &String, model: &String, skill: &String) -> (r: Option<usize>)
    ensures
        match r {
            Some(k) => k as int == bucket_idx(buckets_view(bs@), session@, model@, skill@) && k < bs.len(),
            None => bucket_idx(buckets_view(bs@), session@, model@, skill@) == -1,
        },
{
    let mut j = bs.len();
    assert(buckets_view(bs@).take(j as int) =~= buckets_view(bs@));
    while j > 0
        invariant
            j <= bs.len(),
            bucket_idx(buckets_view(bs@), session@, model@, skill@) == bucket_idx(
                buckets_view(bs@).take(j as int),
                session@,
                model@,
                skill@,
            ),
        decreases j,
    {
        assert(buckets_view(bs@).take(j as int).drop_last() =~= buckets_view(bs@).take(j - 1));
        assert(buckets_view(bs@).take(j as int).last() == bucket_view(bs@[j - 1]));
        let b = &bs[j - 1];
        if b.session_id == *session && b.model == *model && b.skill == *skill {
            return Some(j - 1);
        }
        j -= 1;
    }
    None
}

/// What the harvest of `lines` gives: the fold's buckets, duplicates and
/// sessions, one record per bucket, and the counted messages.
pub open spec fn totals_ok(lines: Seq<HarvestLine>, r: HarvestTotals) -> bool {
    &&& buckets_view(r.buckets@) == fold_s(lines).buckets
    &&& r.duplicates == fold_s(lines).dups
    &&& r.sessions == fold_s(lines).sessions.len()
    &&& r.records == r.buckets.len()
    &&& r.messages == total_messages(fold_s(lines).buckets)
    &&& r.messages == fold_s(lines).seen.len()
    &&& r.messages + r.duplicates == usage_count(lines)
}

/// A bucket that overflows after line `i` overflows in the whole fold too.
proof fn lemma_overflow(lines: Seq<HarvestLine>, i: int, k: int)
    requires
        0 <= i < lines.len(),
        0 <= k < fold_s(lines.take(i + 1)).buckets.len(),
        !bucket_fits(fold_s(lines.take(i + 1)).buckets[k]),
    ensures
        !fold_fits(fold_s(lines)),
{
    lemma_fold_mono(lines, i + 1);
    assert(bucket_le(fold_s(lines.take(i + 1)).buckets[k], fold_s(lines).buckets[k]));
    assert(!bucket_fits(fold_s(lines).buckets[k]));
}

/// Dedup transcript usage by message id and sum per-message tokens into
/// one bucket per (session, model, skill), the latest message time kept as
/// `last_ts`. Lines are taken in the given (sorted-path, file) order; the
/// buckets come out in first-seen order.
pub fn harvest_fold(lines: &Vec<HarvestLine>) -> (r: HarvestTotals)
    requires
        fold_fits(fold_s(lines@)),
    ensures
        totals_ok(lines@, r),
{
    match harvest_fold_checked(lines) {
        Some(t) => t,
        None => {
            assert(false);
            HarvestTotals { buckets: Vec::new(), messages: 0, duplicates: 0, sessions: 0, records: 0 }
        },
    }
}

/// `harvest_fold` with the 64-bit limit checked: `None` exactly when some
/// bucket total would not fit in 64 bits.
/// Dedup transcript usage by message id and sum per-message tokens into
/// one bucket per (session, model, skill), the latest message time kept as
/// `last_ts`. Lines are taken in the given (sorted-path, file) order; the
/// buckets come out in first-seen order.
pub fn harvest_fold_checked(lines: &Vec<HarvestLine>) -> (r: Option<HarvestTotals>)
    ensures
        match r {
            Some(t) => fold_fits(fold_s(lines@)) && totals_ok(lines@, t),
            None => !fold_fits(fold_s(lines@)),
        },
        r matches Some(t) ==> forall|q: int, f: TokenField|
            0 <= q < t.buckets@.len() ==> #[trigger] bucket_field(bucket_view(t.buckets@[q]), f) == key_sum(
                lines@,
                lines@.len() as int,
                t.buckets@[q].session_id@,
                t.buckets@[q].model@,
                t.buckets@[q].skill@,
                f,
            ),
{
    let mut seen: Vec<String> = Vec::new();
    let mut dups: usize = 0;
    let mut sessions: Vec<String> = Vec::new();
    let mut buckets: Vec<LedgerBucket> = Vec::new();
    let mut i: usize = 0;
    assert(lines@.take(0) =~= Seq::<HarvestLine>::empty());
    while i < lines.len()
        invariant
            i <= lines.len(),
            strs_view(seen@) == fold_s(lines@.take(i as int)).seen,
            dups == fold_s(lines@.take(i as int)).dups,
            dups <= i,
            strs_view(sessions@) == fold_s(lines@.take(i as int)).sessions,
            buckets_view(buckets@) == fold_s(lines@.take(i as int)).buckets,
        decreases lines.len() - i,
    {
        let ghost st = fold_s(lines@.take(i as int));
        assert(lines@.take(i + 1).drop_last() =~= lines@.take(i as int));
        assert(lines@.take(i + 1).last() == lines@[i as int]);
        proof {
            lemma_fold_mono(lines@, i + 1);
        }
        let line = &lines[i];
        if let Some(u) = &line.usage {
            match index_of_str(&seen, &u.message_id) {
                Some(j) => {
                    assert(st.seen.contains(u.message_id@)) by {
                        assert(strs_view(seen@)[j as int] == seen@[j as int]@);
                    }
                    dups += 1;
                },
                None => {
                    proof {
                        lemma_bucket_idx(st.buckets, line.session_id@, u.model@, u.skill@);
                    }
                    let ghost next = fold_step(st, lines@[i as int]);
                    match find_bucket(&buckets, &line.session_id, &u.model, &u.skill) {
                        Some(k) => {
                            assert(next.buckets[k as int] == add_usage(st.buckets[k as int], *u));
                            assert(next == fold_s(lines@.take(i + 1)));
                            let b = &buckets[k];
                            assert(bucket_view(*b) == st.buckets[k as int]);
                            let ghost nk = next.buckets[k as int];
                            let input = match b.input.checked_add(u.input) {
                                Some(x) => x,
                                None => {
                                    proof { lemma_overflow(lines@, i as int, k as int); }
                                    return None;
                                },
                            };
                            let cache_creation = match b.cache_creation.checked_add(u.cache_creation) {
                                Some(x) => x,
                                None => {
                                    proof { lemma_overflow(lines@, i as int, k as int); }
                                    return None;
                                },
                            };
                            let cache_read = match b.cache_read.checked_add(u.cache_read) {
                                Some(x) => x,
                                None => {
                                    proof { lemma_overflow(lines@, i as int, k as int); }
                                    return None;
                                },
                            };
                            let output = match b.output.checked_add(u.output) {
                                Some(x) => x,
                                None => {
                                    proof { lemma_overflow(lines@, i as int, k as int); }
                                    return None;
                                },
                            };
                            let cc5 = match b.cache_creation_5m.checked_add(u.cache_creation_5m) {
                                Some(x) => x,
                                None => {
                                    proof { lemma_overflow(lines@, i as int, k as int); }
                                    return None;
                                },
                            };
                            let cc1 = match b.cache_creation_1h.checked_add(u.cache_creation_1h) {
                                Some(x) => x,
                                None => {
                                    proof { lemma_overflow(lines@, i as int, k as int); }
                                    return None;
                                },
                            };
                            let messages = match b.messages.checked_add(1) {
                                Some(x) => x,
                                None => {
                                    proof { lemma_overflow(lines@, i as int, k as int); }
                                    return None;
                                },
                            };
                            let nb = LedgerBucket {
                                session_id: b.session_id.clone(),
                                model: b.model.clone(),
                                skill: b.skill.clone(),
                                input,
                                cache_creation,
                                cache_read,
                                output,
                                cache_creation_5m: cc5,
                                cache_creation_1h: cc1,
                                messages,
                                last_ts: if u.ts > b.last_ts { u.ts } else { b.last_ts },
                            };
                            let ghost old_bv = buckets_view(buckets@);
                            buckets.set(k, nb);
                            assert(buckets_view(buckets@) =~= old_bv.update(k as int, add_usage(old_bv[k as int], *u)));
                        },
                        None => {
                            let nb = LedgerBucket {
                                session_id: line.session_id.clone(),
                                model: u.model.clone(),
                                skill: u.skill.clone(),
                                input: u.input,
                                cache_creation: u.cache_creation,
                                cache_read: u.cache_read,
                                output: u.output,
                                cache_creation_5m: u.cache_creation_5m,
                                cache_creation_1h: u.cache_creation_1h,
                                messages: 1,
                                last_ts: u.ts,
                            };
                            let ghost old_bv = buckets_view(buckets@);
                            buckets.push(nb);
                            assert(buckets_view(buckets@) =~= old_bv.push(new_bucket(line.session_id@, *u)));
                        },
                    }
                    let ghost old_seen = strs_view(seen@);
                    seen.push(u.message_id.clone());
                    assert(strs_view(seen@) =~= old_seen.push(u.message_id@));
                    match index_of_str(&sessions, &line.session_id) {
                        Some(j) => {
                            assert(st.sessions.contains(line.session_id@)) by {
                                assert(strs_view(sessions@)[j as int] == sessions@[j as int]@);
                            }
                        },
                        None => {
                            let ghost old_s = strs_view(sessions@);
                            sessions.push(line.session_id.clone());
                            assert(strs_view(sessions@) =~= old_s.push(line.session_id@));
                        },
                    }
                },
            }
        }
        i += 1;
    }
    assert(lines@.take(lines.len() as int) =~= lines@);
    proof {
        lemma_fold_counts(lines@);
    }
    let mut total: usize = 0;
    let mut k: usize = 0;
    while k < buckets.len()
        invariant
            k <= buckets.len(),
            total == total_messages(buckets_view(buckets@).take(k as int)),
            total_messages(buckets_view(buckets@)) <= lines.len(),
        decreases buckets.len() - k,
    {
        let ghost bv = buckets_view(buckets@);
        assert(bv.take(k + 1).drop_last() =~= bv.take(k as int));
        assert(bv.take(k + 1).last() == bucket_view(buckets@[k as int]));
        proof {
            lemma_total_prefix(bv, k + 1);
        }
        total = total + buckets[k].messages as usize;
        k += 1;
    }
    assert(buckets_view(buckets@).take(buckets.len() as int) =~= buckets_view(buckets@));
    let n = buckets.len();
    proof {
        assert forall|j: int| 0 <= j < fold_s(lines@).buckets.len() implies bucket_fits(
            #[trigger] fold_s(lines@).buckets[j],
        ) by {
            assert(buckets_view(buckets@)[j] == bucket_view(buckets@[j]));
        }
        lemma_bucket_totals_are_sums(lines@);
        assert forall|q: int, f: TokenField| 0 <= q < buckets@.len() implies #[trigger] bucket_field(
            bucket_view(buckets@[q]),
            f,
        ) == key_sum(lines@, lines@.len() as int, buckets@[q].session_id@, buckets@[q].model@, buckets@[q].skill@, f) by {
            assert(buckets_view(buckets@)[q] == bucket_view(buckets@[q]));
            assert(bucket_field(fold_s(lines@).buckets[q], f) == key_sum(lines@, lines@.len() as int, fold_s(lines@).buckets[q].session, fold_s(lines@).buckets[q].model, fold_s(lines@).buckets[q].skill, f));
        }
    }
    Some(HarvestTotals { buckets, messages: total, duplicates: dups, sessions: sessions.len(), records: n })
}

} // verus!
