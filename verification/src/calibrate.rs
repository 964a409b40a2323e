//! Tier calibration: which config keys a tier writes, kept or removed,
//! and the summary line. The TOML document itself is edited by the caller.
use vstd::prelude::*;
use crate::num::{dec_s, push_decimal};
use crate::text::{chars_of, extend_str, string_of};

verus! {

/// Executor model-size tier.
#[derive(Clone, Copy, Debug, PartialEq, Eq, Structural)]
pub enum Tier {
    Large,
    Medium,
    Small,
}

pub open spec fn tier_s(t: Tier) -> Seq<char> {
    match t {
        Tier::Large => "LARGE"@,
        Tier::Medium => "MEDIUM"@,
        Tier::Small => "SMALL"@,
    }
}

/// The tier's name in the config and messages.
pub fn tier_str(tier: Tier) -> (r: &'static str)
    ensures
        r@ == tier_s(tier),
{
    match tier {
        Tier::Large => "LARGE",
        Tier::Medium => "MEDIUM",
        Tier::Small => "SMALL",
    }
}

/// What happens to the `[escalation]` table.
#[derive(Clone, Copy, Debug, PartialEq, Eq, Structural)]
pub enum EscalationEdit {
    /// Leave it as it is.
    Keep,
    /// Write `max_assists = 3`.
    AddMaxAssists,
    /// Remove the table.
    Remove,
}

/// The edits of one calibration.
pub struct CalibrationPlan {
    /// `[executor].tier`, always written.
    pub tier: &'static str,
    /// `[budget].max_turns`, written only when absent.
    pub max_turns: Option<i64>,
    /// `[budget].gate_retries`, written only when absent and bounded.
    pub gate_retries: Option<i64>,
    pub escalation: EscalationEdit,
    /// Add the `[architect]` skeleton (empty model, zero rates).
    pub architect_skeleton: bool,
}

/// What the config already holds, as far as calibration asks.
pub struct ConfigPresence {
    pub budget_max_turns: bool,
    pub budget_gate_retries: bool,
    pub escalation: bool,
    pub architect: bool,
}

/// The edits for a tier whose defaults are `max_turns` and `gate_retries`
/// (`u32::MAX` meaning unbounded): explicit settings survive re-calibration;
/// only the small tier gets an escalation table, the others lose theirs.
pub fn calibration_plan(tier: Tier, max_turns: u32, gate_retries: u32, present: &ConfigPresence) -> (p: CalibrationPlan)
    ensures
        p.tier@ == tier_s(tier),
        p.max_turns == (if present.budget_max_turns {
            None
        } else {
            Some(max_turns as i64)
        }),
        p.gate_retries == (if gate_retries == u32::MAX || present.budget_gate_retries {
            None
        } else {
            Some(gate_retries as i64)
        }),
        p.escalation == (match tier {
            Tier::Small => if present.escalation {
                EscalationEdit::Keep
            } else {
                EscalationEdit::AddMaxAssists
            },
            _ => EscalationEdit::Remove,
        }),
        p.architect_skeleton == !present.architect,
{
    CalibrationPlan {
        tier: tier_str(tier),
        max_turns: if present.budget_max_turns { None } else { Some(max_turns as i64) },
        gate_retries: if gate_retries == u32::MAX || present.budget_gate_retries {
            None
        } else {
            Some(gate_retries as i64)
        },
        escalation: match tier {
            Tier::Small => if present.escalation {
                EscalationEdit::Keep
            } else {
                EscalationEdit::AddMaxAssists
            },
            _ => EscalationEdit::Remove,
        },
        architect_skeleton: !present.architect,
    }
}

/// `Calibrated to <T> — updated executor.tier=<T>, budget.max_turns=<n>`,
/// then `, budget.gate_retries=<g>` when bounded and
/// `, escalation.max_assists=3` for the small tier.
pub open spec fn calibration_message_s(tier: Tier, max_turns: nat, gate_retries: u32) -> Seq<char> {
    "Calibrated to "@ + tier_s(tier) + " \u{2014} updated executor.tier="@ + tier_s(tier) + ", budget.max_turns="@
        + dec_s(max_turns) + (if gate_retries != u32::MAX {
        ", budget.gate_retries="@ + dec_s(gate_retries as nat)
    } else {
        Seq::empty()
    }) + (if tier == Tier::Small {
        ", escalation.max_assists=3"@
    } else {
        Seq::empty()
    })
}

pub fn calibration_message(tier: Tier, max_turns: u32, gate_retries: u32) -> (r: String)
    ensures
        r@ == calibration_message_s(tier, max_turns as nat, gate_retries),
{
    proof {
        reveal_strlit("Calibrated to ");
        reveal_strlit(" \u{2014} updated executor.tier=");
        reveal_strlit(", budget.max_turns=");
        reveal_strlit(", budget.gate_retries=");
        reveal_strlit(", escalation.max_assists=3");
    }
    let t = tier_str(tier);
    let mut v = chars_of("Calibrated to ");
    extend_str(&mut v, t);
    extend_str(&mut v, " \u{2014} updated executor.tier=");
    extend_str(&mut v, t);
    extend_str(&mut v, ", budget.max_turns=");
    push_decimal(&mut v, max_turns as u64);
    let ghost base = v@;
    if gate_retries != u32::MAX {
        extend_str(&mut v, ", budget.gate_retries=");
        push_decimal(&mut v, gate_retries as u64);
    }
    let ghost mid = v@;
    if tier == Tier::Small {
        extend_str(&mut v, ", escalation.max_assists=3");
    }
    assert(v@ =~= calibration_message_s(tier, max_turns as nat, gate_retries));
    string_of(&v)
}

} // verus!
