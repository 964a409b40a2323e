//! Applying a tier calibration to the text of a TOML config: the plan of
//! `calibrate` carried out edit by edit with `toml_edit`, each edit parsing
//! the current text and printing the edited document back.
use vstd::prelude::*;
use toml_edit::{value, DocumentMut, Value};
use crate::calibrate::{calibration_plan, tier_s, CalibrationPlan, ConfigPresence, EscalationEdit, Tier};
use crate::num::{dec_s, push_decimal};
use crate::text::{chars_of, extend_str, string_of};

verus! {

// ---------------------------------------------------------------------------
// toml_edit, as named results over the document text
// ---------------------------------------------------------------------------

/// Whether the text parses as a TOML document (`str::parse::<DocumentMut>`).
pub uninterp spec fn toml_parses(src: Seq<char>) -> bool;

/// The parse error's message for a text that does not parse.
pub uninterp spec fn toml_error(src: Seq<char>) -> Seq<char>;

/// Whether the document has a top-level item `table`.
pub uninterp spec fn toml_has_table(src: Seq<char>, table: Seq<char>) -> bool;

/// Whether the document's item `table` has an item `key`.
pub uninterp spec fn toml_has_key(src: Seq<char>, table: Seq<char>, key: Seq<char>) -> bool;

/// Whether the document's item `table` is a table (or an inline table).
pub uninterp spec fn toml_is_table(src: Seq<char>, table: Seq<char>) -> bool;

/// The printed document after `doc[table][key] = raw`, where `raw` is the
/// text of a TOML value; `None` when `src` or `raw` does not parse.
pub uninterp spec fn toml_set(src: Seq<char>, table: Seq<char>, key: Seq<char>, raw: Seq<char>) -> Option<Seq<char>>;

/// The printed document after removing the top-level item `table`; `None`
/// when `src` does not parse.
pub uninterp spec fn toml_remove(src: Seq<char>, table: Seq<char>) -> Option<Seq<char>>;

/// `DocumentMut`'s `FromStr`: `None` when the text parses, else the parse
/// error's message.
#[verifier::external_body]
fn toml_parse_error(src: &str) -> (r: Option<String>)
    ensures
        match r {
            None => toml_parses(src@),
            Some(e) => !toml_parses(src@) && e@ == toml_error(src@),
        },
{
    src.parse::<DocumentMut>().err().map(|e| e.to_string())
}

/// `DocumentMut::get(table).is_some()` on the parsed text; `None` when it
/// does not parse.
#[verifier::external_body]
fn toml_table_present(src: &str, table: &str) -> (r: Option<bool>)
    ensures
        match r {
            Some(b) => toml_parses(src@) && b == toml_has_table(src@, table@),
            None => !toml_parses(src@),
        },
{
    src.parse::<DocumentMut>().ok().map(|d| d.get(table).is_some())
}

/// `doc.get(table).and_then(|t| t.get(key)).is_some()` on the parsed text;
/// `None` when it does not parse.
#[verifier::external_body]
fn toml_key_present(src: &str, table: &str, key: &str) -> (r: Option<bool>)
    ensures
        match r {
            Some(b) => toml_parses(src@) && b == toml_has_key(src@, table@, key@),
            None => !toml_parses(src@),
        },
{
    src.parse::<DocumentMut>().ok().map(|d| d.get(table).and_then(|t| t.get(key)).is_some())
}

/// `Item::is_table_like` of the parsed text's item `table`: `Some(None)`
/// when there is no such item, `None` when the text does not parse.
#[verifier::external_body]
fn toml_table_kind(src: &str, table: &str) -> (r: Option<Option<bool>>)
    ensures
        match r {
            Some(None) => toml_parses(src@) && !toml_has_table(src@, table@),
            Some(Some(b)) => toml_parses(src@) && toml_has_table(src@, table@) && b == toml_is_table(src@, table@),
            None => !toml_parses(src@),
        },
{
    src.parse::<DocumentMut>().ok().map(|d| d.get(table).map(|i| i.is_table_like()))
}

/// `doc[table][key] = value(raw.parse::<Value>())`, printed back. Indexing
/// panics when the item `table` exists and is not a table, so such a text
/// is left out.
#[verifier::external_body]
fn toml_set_value(src: &str, table: &str, key: &str, raw: &str) -> (r: Option<String>)
    requires
        toml_parses(src@) && toml_has_table(src@, table@) ==> toml_is_table(src@, table@),
    ensures
        match r {
            Some(t) => toml_set(src@, table@, key@, raw@) == Some(t@),
            None => toml_set(src@, table@, key@, raw@) is None,
        },
{
    let mut doc = src.parse::<DocumentMut>().ok()?;
    let v = raw.parse::<Value>().ok()?;
    doc[table][key] = value(v);
    Some(doc.to_string())
}

/// `DocumentMut::remove(table)`, printed back; `None` when the text does not
/// parse.
#[verifier::external_body]
fn toml_remove_table(src: &str, table: &str) -> (r: Option<String>)
    ensures
        match r {
            Some(t) => toml_remove(src@, table@) == Some(t@),
            None => toml_remove(src@, table@) is None,
        },
{
    let mut doc = src.parse::<DocumentMut>().ok()?;
    doc.remove(table);
    Some(doc.to_string())
}

// ---------------------------------------------------------------------------
// The calibration, edit by edit
// ---------------------------------------------------------------------------

/// Why calibrating a config failed.
pub enum CalibrateError {
    /// The config is not TOML; the parser's message.
    Parse(String),
    /// An item the calibration writes into exists and is not a table.
    NotATable(String),
    /// An edited document did not parse back.
    Reparse,
}

pub enum CalibrateErrorS {
    Parse(Seq<char>),
    NotATable(Seq<char>),
    Reparse,
}

pub open spec fn error_view(e: CalibrateError) -> CalibrateErrorS {
    match e {
        CalibrateError::Parse(m) => CalibrateErrorS::Parse(m@),
        CalibrateError::NotATable(t) => CalibrateErrorS::NotATable(t@),
        CalibrateError::Reparse => CalibrateErrorS::Reparse,
    }
}

/// One edit: `[table].key = raw` on the current text. The item `table`
/// must be absent or a table.
pub open spec fn set_step(cur: Result<Seq<char>, CalibrateErrorS>, table: Seq<char>, key: Seq<char>, raw: Seq<char>) -> Result<Seq<char>, CalibrateErrorS> {
    match cur {
        Err(e) => Err(e),
        Ok(t) => if !toml_parses(t) {
            Err(CalibrateErrorS::Reparse)
        } else if toml_has_table(t, table) && !toml_is_table(t, table) {
            Err(CalibrateErrorS::NotATable(table))
        } else {
            match toml_set(t, table, key, raw) {
                Some(n) => Ok(n),
                None => Err(CalibrateErrorS::Reparse),
            }
        },
    }
}

pub open spec fn remove_step(cur: Result<Seq<char>, CalibrateErrorS>, table: Seq<char>) -> Result<Seq<char>, CalibrateErrorS> {
    match cur {
        Err(e) => Err(e),
        Ok(t) => match toml_remove(t, table) {
            Some(n) => Ok(n),
            None => Err(CalibrateErrorS::Reparse),
        },
    }
}

/// A TOML basic string holding `s` (the tier names need no escaping).
pub open spec fn quoted(s: Seq<char>) -> Seq<char> {
    seq!['"'] + s + seq!['"']
}

/// What the config holds, as calibration asks.
pub open spec fn presence_s(src: Seq<char>) -> (bool, bool, bool, bool) {
    (
        toml_has_key(src, "budget"@, "max_turns"@),
        toml_has_key(src, "budget"@, "gate_retries"@),
        toml_has_table(src, "escalation"@),
        toml_has_table(src, "architect"@),
    )
}

/// The plan's edits applied in order: `[executor].tier`, then
/// `[budget].max_turns` and `[budget].gate_retries` when planned, then the
/// escalation edit, then the `[architect]` skeleton (empty model, zero
/// rates) when planned.
pub open spec fn apply_plan_s(src: Seq<char>, p: CalibrationPlan) -> Result<Seq<char>, CalibrateErrorS> {
    let s0 = set_step(Ok(src), "executor"@, "tier"@, quoted(p.tier@));
    let s1 = match p.max_turns {
        Some(n) => set_step(s0, "budget"@, "max_turns"@, dec_s(n as nat)),
        None => s0,
    };
    let s2 = match p.gate_retries {
        Some(g) => set_step(s1, "budget"@, "gate_retries"@, dec_s(g as nat)),
        None => s1,
    };
    let s3 = match p.escalation {
        EscalationEdit::Keep => s2,
        EscalationEdit::AddMaxAssists => set_step(s2, "escalation"@, "max_assists"@, "3"@),
        EscalationEdit::Remove => remove_step(s2, "escalation"@),
    };
    if p.architect_skeleton {
        let a = set_step(s3, "architect"@, "model"@, "\"\""@);
        let b = set_step(a, "architect"@, "input_per_mtok"@, "0.0"@);
        set_step(b, "architect"@, "output_per_mtok"@, "0.0"@)
    } else {
        s3
    }
}

/// The plan calibration makes for the parsed config.
pub open spec fn plan_for(src: Seq<char>, tier: Tier, max_turns: u32, gate_retries: u32, p: CalibrationPlan) -> bool {
    let (mt, gr, esc, arch) = presence_s(src);
    &&& p.tier@ == tier_s(tier)
    &&& p.max_turns == (if mt { None } else { Some(max_turns as i64) })
    &&& p.gate_retries == (if gate_retries == u32::MAX || gr { None } else { Some(gate_retries as i64) })
    &&& p.escalation == (match tier {
        Tier::Small => if esc { EscalationEdit::Keep } else { EscalationEdit::AddMaxAssists },
        _ => EscalationEdit::Remove,
    })
    &&& p.architect_skeleton == !arch
}

pub open spec fn res_view(r: Result<String, CalibrateError>) -> Result<Seq<char>, CalibrateErrorS> {
    match r {
        Ok(t) => Ok(t@),
        Err(e) => Err(error_view(e)),
    }
}

fn set_edit(cur: Result<String, CalibrateError>, table: &str, key: &str, raw: &str) -> (r: Result<String, CalibrateError>)
    ensures
        res_view(r) == set_step(res_view(cur), table@, key@, raw@),
{
    let t = match cur {
        Ok(t) => t,
        Err(e) => return Err(e),
    };
    match toml_table_kind(t.as_str(), table) {
        None => Err(CalibrateError::Reparse),
        Some(Some(false)) => Err(CalibrateError::NotATable(table.to_string())),
        Some(_) => match toml_set_value(t.as_str(), table, key, raw) {
            Some(n) => Ok(n),
            None => Err(CalibrateError::Reparse),
        },
    }
}

fn remove_edit(cur: Result<String, CalibrateError>, table: &str) -> (r: Result<String, CalibrateError>)
    ensures
        res_view(r) == remove_step(res_view(cur), table@),
{
    let t = match cur {
        Ok(t) => t,
        Err(e) => return Err(e),
    };
    match toml_remove_table(t.as_str(), table) {
        Some(n) => Ok(n),
        None => Err(CalibrateError::Reparse),
    }
}

fn decimal_text(n: i64) -> (r: String)
    requires
        n >= 0,
    ensures
        r@ == dec_s(n as nat),
{
    let mut v: Vec<char> = Vec::new();
    push_decimal(&mut v, n as u64);
    assert(v@ =~= dec_s(n as nat));
    string_of(&v)
}

/// The config text calibrated to `tier`, whose defaults are `max_turns` and
/// `gate_retries` (`u32::MAX` meaning unbounded): a parse error when the
/// text is not TOML; otherwise the plan of `calibration_plan` for what the
/// config holds, applied edit by edit (`apply_plan_s`). Where an item the
/// calibration writes into exists and is not a table, indexing into it
/// would fail, and the error names that item.
pub fn calibrated_config(src: &str, tier: Tier, max_turns: u32, gate_retries: u32) -> (r: Result<String, CalibrateError>)
    ensures
        !toml_parses(src@) <==> res_view(r) == Err::<Seq<char>, CalibrateErrorS>(CalibrateErrorS::Parse(toml_error(src@))),
        toml_parses(src@) ==> exists|p: CalibrationPlan| plan_for(src@, tier, max_turns, gate_retries, p)
            && res_view(r) == apply_plan_s(src@, p),
{
    proof {
        reveal_strlit("budget");
        reveal_strlit("max_turns");
        reveal_strlit("gate_retries");
        reveal_strlit("escalation");
        reveal_strlit("architect");
    }
    if let Some(e) = toml_parse_error(src) {
        return Err(CalibrateError::Parse(e));
    }
    let mt = toml_key_present(src, "budget", "max_turns");
    let gr = toml_key_present(src, "budget", "gate_retries");
    let esc = toml_table_present(src, "escalation");
    let arch = toml_table_present(src, "architect");
    let present = ConfigPresence {
        budget_max_turns: match mt { Some(b) => b, None => false },
        budget_gate_retries: match gr { Some(b) => b, None => false },
        escalation: match esc { Some(b) => b, None => false },
        architect: match arch { Some(b) => b, None => false },
    };
    let p = calibration_plan(tier, max_turns, gate_retries, &present);
    let mut tv = chars_of("\"");
    extend_str(&mut tv, p.tier);
    extend_str(&mut tv, "\"");
    proof {
        reveal_strlit("\"");
        assert(tv@ =~= quoted(p.tier@));
    }
    let raw_tier = string_of(&tv);
    proof {
        reveal_strlit("executor");
        reveal_strlit("tier");
    }
    let start: Result<String, CalibrateError> = Ok(src.to_string());
    assert(res_view(start) == Ok::<Seq<char>, CalibrateErrorS>(src@));
    let mut cur: Result<String, CalibrateError> = set_edit(start, "executor", "tier", raw_tier.as_str());
    let ghost s0 = set_step(Ok(src@), "executor"@, "tier"@, quoted(p.tier@));
    assert(res_view(cur) == s0);
    match p.max_turns {
        Some(n) => {
            let raw = decimal_text(n);
            cur = set_edit(cur, "budget", "max_turns", raw.as_str());
        },
        None => {},
    }
    match p.gate_retries {
        Some(g) => {
            let raw = decimal_text(g);
            cur = set_edit(cur, "budget", "gate_retries", raw.as_str());
        },
        None => {},
    }
    let ghost s2 = res_view(cur);
    assert(s2 == (match p.gate_retries {
        Some(g) => set_step(match p.max_turns {
            Some(n) => set_step(s0, "budget"@, "max_turns"@, dec_s(n as nat)),
            None => s0,
        }, "budget"@, "gate_retries"@, dec_s(g as nat)),
        None => match p.max_turns {
            Some(n) => set_step(s0, "budget"@, "max_turns"@, dec_s(n as nat)),
            None => s0,
        },
    }));
    match p.escalation {
        EscalationEdit::Keep => {},
        EscalationEdit::AddMaxAssists => {
            cur = set_edit(cur, "escalation", "max_assists", "3");
        },
        EscalationEdit::Remove => {
            cur = remove_edit(cur, "escalation");
        },
    }
    let ghost s3 = res_view(cur);
    assert(s3 == (match p.escalation {
        EscalationEdit::Keep => s2,
        EscalationEdit::AddMaxAssists => set_step(s2, "escalation"@, "max_assists"@, "3"@),
        EscalationEdit::Remove => remove_step(s2, "escalation"@),
    })) by {
        reveal_strlit("max_assists");
        reveal_strlit("3");
    }
    proof {
        reveal_strlit("3");
        reveal_strlit("model");
        reveal_strlit("input_per_mtok");
        reveal_strlit("output_per_mtok");
        reveal_strlit("\"\"");
        reveal_strlit("0.0");
    }
    if p.architect_skeleton {
        cur = set_edit(cur, "architect", "model", "\"\"");
        cur = set_edit(cur, "architect", "input_per_mtok", "0.0");
        cur = set_edit(cur, "architect", "output_per_mtok", "0.0");
    }
    assert(plan_for(src@, tier, max_turns, gate_retries, p));
    assert(res_view(cur) == apply_plan_s(src@, p));
    cur
}

} // verus!
