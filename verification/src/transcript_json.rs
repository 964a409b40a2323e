//! Reading a transcript line: the JSON is parsed by `serde_json`, and what
//! the usage logic takes from it (the fields of `RawUsage` and the line's
//! type) is read here, field by field.
use vstd::prelude::*;
use serde_json::Value;
use crate::harvest::{iso_in_range, iso_in_range_exec, or_zero, raw_usage_fits, usage_ok, CacheCreation, HarvestLine, RawUsage};
use crate::telemetry::harvest_line;

verus! {

#[verifier::external_type_specification]
#[verifier::external_body]
pub struct ExJsonValue(serde_json::Value);

// ---------------------------------------------------------------------------
// serde_json, as named results
// ---------------------------------------------------------------------------

/// What `serde_json::from_str::<Value>` gives for a line (`None` on error).
pub uninterp spec fn json_parse_s(line: Seq<char>) -> Option<Value>;

/// `Value::get(key)`: the field of an object (`None` for a missing field or
/// a value that is not an object).
pub uninterp spec fn json_field(v: Value, key: Seq<char>) -> Option<Value>;

/// `Value::as_str`.
pub uninterp spec fn json_text(v: Value) -> Option<Seq<char>>;

/// `Value::as_u64`.
pub uninterp spec fn json_u64(v: Value) -> Option<u64>;

/// `Value::is_object`.
pub uninterp spec fn json_is_object(v: Value) -> bool;

/// `serde_json::from_str::<Value>`; `None` when the line is not JSON.
#[verifier::external_body]
fn parse_json(line: &str) -> (r: Option<Value>)
    ensures
        r == json_parse_s(line@),
{
    serde_json::from_str::<Value>(line).ok()
}

/// `Value::get` with a string key.
#[verifier::external_body]
fn json_get<'a>(v: &'a Value, key: &str) -> (r: Option<&'a Value>)
    ensures
        match r {
            Some(x) => json_field(*v, key@) == Some(*x),
            None => json_field(*v, key@) is None,
        },
{
    v.get(key)
}

/// `Value::as_str`, copied out.
#[verifier::external_body]
fn json_as_text(v: &Value) -> (r: Option<String>)
    ensures
        match r {
            Some(s) => json_text(*v) == Some(s@),
            None => json_text(*v) is None,
        },
{
    v.as_str().map(|s| s.to_string())
}

/// `Value::as_u64`.
#[verifier::external_body]
fn json_as_u64(v: &Value) -> (r: Option<u64>)
    ensures
        r == json_u64(*v),
{
    v.as_u64()
}

/// `Value::is_object`.
#[verifier::external_body]
fn json_object(v: &Value) -> (r: bool)
    ensures
        r == json_is_object(*v),
{
    v.is_object()
}

// ---------------------------------------------------------------------------
// The fields read
// ---------------------------------------------------------------------------

pub open spec fn field_of(v: Option<Value>, key: Seq<char>) -> Option<Value> {
    match v {
        Some(x) => json_field(x, key),
        None => None,
    }
}

pub open spec fn text_of(v: Option<Value>) -> Option<Seq<char>> {
    match v {
        Some(x) => json_text(x),
        None => None,
    }
}

pub open spec fn u64_of(v: Option<Value>) -> Option<u64> {
    match v {
        Some(x) => json_u64(x),
        None => None,
    }
}

pub open spec fn str_view(o: Option<String>) -> Option<Seq<char>> {
    match o {
        Some(s) => Some(s@),
        None => None,
    }
}

/// `message.usage.cache_creation`: absent; an object with the per-TTL
/// split (when the split's sum fits in 64 bits); or anything else.
pub open spec fn cache_creation_ok(c: Option<Value>, r: CacheCreation) -> bool {
    match c {
        None => r is Absent,
        Some(x) => if json_is_object(x) {
            let m5 = u64_of(json_field(x, "ephemeral_5m_input_tokens"@));
            let h1 = u64_of(json_field(x, "ephemeral_1h_input_tokens"@));
            if or_zero(m5) + or_zero(h1) <= u64::MAX {
                r == CacheCreation::Split { ephemeral_5m: m5, ephemeral_1h: h1 }
            } else {
                r is Other
            }
        } else {
            r is Other
        },
    }
}

/// What the usage logic reads from a parsed line: `message.id`,
/// `message.model`, `attributionSkill` and `timestamp` as text (a timestamp
/// whose arithmetic would leave 64 bits counts as absent), the token counts
/// of `message.usage` as unsigned integers, and its `cache_creation`.
pub open spec fn raw_usage_ok(v: Value, r: RawUsage) -> bool {
    let msg = json_field(v, "message"@);
    let usage = field_of(msg, "usage"@);
    let ts = json_text_field(v, "timestamp"@);
    &&& r.has_usage == (usage is Some)
    &&& str_view(r.message_id) == text_of(field_of(msg, "id"@))
    &&& str_view(r.model) == text_of(field_of(msg, "model"@))
    &&& str_view(r.attribution_skill) == json_text_field(v, "attributionSkill"@)
    &&& str_view(r.timestamp) == (match ts {
        Some(t) => if iso_in_range(t) {
            Some(t)
        } else {
            None
        },
        None => None,
    })
    &&& r.input_tokens == u64_of(field_of(usage, "input_tokens"@))
    &&& r.cache_read_input_tokens == u64_of(field_of(usage, "cache_read_input_tokens"@))
    &&& r.output_tokens == u64_of(field_of(usage, "output_tokens"@))
    &&& r.cache_creation_input_tokens == u64_of(field_of(usage, "cache_creation_input_tokens"@))
    &&& cache_creation_ok(field_of(usage, "cache_creation"@), r.cache_creation)
}

pub open spec fn json_text_field(v: Value, key: Seq<char>) -> Option<Seq<char>> {
    text_of(json_field(v, key))
}

fn get_opt<'a>(v: Option<&'a Value>, key: &str) -> (r: Option<&'a Value>)
    ensures
        match r {
            Some(x) => field_of(match v { Some(y) => Some(*y), None => None }, key@) == Some(*x),
            None => field_of(match v { Some(y) => Some(*y), None => None }, key@) is None,
        },
{
    match v {
        Some(x) => json_get(x, key),
        None => None,
    }
}

fn text_opt(v: Option<&Value>) -> (r: Option<String>)
    ensures
        str_view(r) == text_of(match v { Some(y) => Some(*y), None => None }),
{
    match v {
        Some(x) => json_as_text(x),
        None => None,
    }
}

fn u64_opt(v: Option<&Value>) -> (r: Option<u64>)
    ensures
        r == u64_of(match v { Some(y) => Some(*y), None => None }),
{
    match v {
        Some(x) => json_as_u64(x),
        None => None,
    }
}

fn cache_creation_of(c: Option<&Value>) -> (r: CacheCreation)
    ensures
        cache_creation_ok(match c { Some(y) => Some(*y), None => None }, r),
        r matches CacheCreation::Split { ephemeral_5m, ephemeral_1h } ==> or_zero(ephemeral_5m) + or_zero(
            ephemeral_1h,
        ) <= u64::MAX,
{
    proof {
        reveal_strlit("ephemeral_5m_input_tokens");
        reveal_strlit("ephemeral_1h_input_tokens");
    }
    match c {
        None => CacheCreation::Absent,
        Some(x) => if json_object(x) {
            let m5 = u64_opt(json_get(x, "ephemeral_5m_input_tokens"));
            let h1 = u64_opt(json_get(x, "ephemeral_1h_input_tokens"));
            let a: u64 = match m5 { Some(n) => n, None => 0 };
            let b: u64 = match h1 { Some(n) => n, None => 0 };
            if a.checked_add(b).is_some() {
                CacheCreation::Split { ephemeral_5m: m5, ephemeral_1h: h1 }
            } else {
                CacheCreation::Other
            }
        } else {
            CacheCreation::Other
        },
    }
}

/// The fields of a parsed transcript line that the usage logic reads.
pub fn raw_usage_of(v: &Value) -> (r: RawUsage)
    ensures
        raw_usage_ok(*v, r),
        raw_usage_fits(r),
{
    let msg = json_get(v, "message");
    let usage = get_opt(msg, "usage");
    let ts = match json_get(v, "timestamp") {
        Some(t) => json_as_text(t),
        None => None,
    };
    let timestamp = match ts {
        Some(t) => if iso_in_range_exec(t.as_str()) {
            Some(t)
        } else {
            None
        },
        None => None,
    };
    let skill = match json_get(v, "attributionSkill") {
        Some(t) => json_as_text(t),
        None => None,
    };
    let r = RawUsage {
        has_usage: usage.is_some(),
        message_id: text_opt(get_opt(msg, "id")),
        model: text_opt(get_opt(msg, "model")),
        attribution_skill: skill,
        timestamp,
        input_tokens: u64_opt(get_opt(usage, "input_tokens")),
        cache_read_input_tokens: u64_opt(get_opt(usage, "cache_read_input_tokens")),
        output_tokens: u64_opt(get_opt(usage, "output_tokens")),
        cache_creation_input_tokens: u64_opt(get_opt(usage, "cache_creation_input_tokens")),
        cache_creation: cache_creation_of(get_opt(usage, "cache_creation")),
    };
    r
}

/// What a parsed line gives: its session, and its usage as `harvest_line`
/// takes it from the line's `type` and the fields `raw_usage_of` reads.
pub open spec fn line_ok(v: Value, session: Seq<char>, l: HarvestLine) -> bool {
    &&& l.session_id@ == session
    &&& exists|raw: RawUsage|
        #[trigger] raw_usage_ok(v, raw) && (if json_text_field(v, "type"@) == Some("assistant"@) {
            match l.usage {
                Some(u) => raw.has_usage && usage_ok(raw, u),
                None => !raw.has_usage || raw.message_id is None,
            }
        } else {
            l.usage is None
        })
}

/// One line of a session's transcript: `None` when it is not JSON (it is
/// skipped); else the line with its usage (`harvest_line` of the line's
/// `type` and the fields `raw_usage_of` reads).
pub fn transcript_line(session_id: &String, line: &str) -> (r: Option<HarvestLine>)
    ensures
        match json_parse_s(line@) {
            None => r is None,
            Some(v) => r matches Some(l) && line_ok(v, session_id@, l),
        },
{
    let v = match parse_json(line) {
        Some(v) => v,
        None => return None,
    };
    let t = match json_get(&v, "type") {
        Some(x) => json_as_text(x),
        None => None,
    };
    let raw = raw_usage_of(&v);
    let tref: Option<&str> = match &t {
        Some(s) => Some(s.as_str()),
        None => None,
    };
    let l = harvest_line(session_id, tref, &raw);
    proof {
        reveal_strlit("assistant");
        assert(raw_usage_ok(v, raw));
    }
    Some(l)
}

} // verus!
