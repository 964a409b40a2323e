//! Per-event-type visibility toggles for the Activity pane.
use vstd::prelude::*;

verus! {

/// Number of toggleable event kinds.
pub const FILTER_ITEM_COUNT: usize = 14;

/// The kind of a session-log event, as far as filtering is concerned.
#[derive(Clone, Copy, Debug, PartialEq, Eq, Structural)]
pub enum EventKind {
    SessionStart,
    SessionEnd,
    Prompt,
    Completion,
    Parsed,
    ParseFailed,
    ToolResult,
    Verify,
    HardFail,
    Progress,
    Metrics,
    Compaction,
    OutputFiltered,
    ReadEvicted,
    ReadDeduped,
}

/// Per-event-type visibility toggles. All enabled by default except
/// `progress` (too noisy).
#[derive(Clone, Copy, Debug, PartialEq, Eq, Structural)]
pub struct ActivityFilter {
    pub session: bool,
    pub prompt: bool,
    pub completion: bool,
    pub tool_call: bool,
    pub parse_failed: bool,
    pub tool_result: bool,
    pub verify: bool,
    pub hard_fail: bool,
    pub progress: bool,
    pub metrics: bool,
    pub compaction: bool,
    pub output_filtered: bool,
    pub read_evicted: bool,
    pub read_deduped: bool,
}

/// The toggle at menu position `i` (`false` past the end).
pub open spec fn enabled_s(f: ActivityFilter, i: int) -> bool {
    if i == 0 {
        f.session
    } else if i == 1 {
        f.prompt
    } else if i == 2 {
        f.completion
    } else if i == 3 {
        f.tool_call
    } else if i == 4 {
        f.parse_failed
    } else if i == 5 {
        f.tool_result
    } else if i == 6 {
        f.verify
    } else if i == 7 {
        f.hard_fail
    } else if i == 8 {
        f.progress
    } else if i == 9 {
        f.metrics
    } else if i == 10 {
        f.compaction
    } else if i == 11 {
        f.output_filtered
    } else if i == 12 {
        f.read_evicted
    } else if i == 13 {
        f.read_deduped
    } else {
        false
    }
}

/// Menu position of the toggle that governs an event kind (session start
/// and end share one).
pub open spec fn kind_index(k: EventKind) -> int {
    match k {
        EventKind::SessionStart => 0,
        EventKind::SessionEnd => 0,
        EventKind::Prompt => 1,
        EventKind::Completion => 2,
        EventKind::Parsed => 3,
        EventKind::ParseFailed => 4,
        EventKind::ToolResult => 5,
        EventKind::Verify => 6,
        EventKind::HardFail => 7,
        EventKind::Progress => 8,
        EventKind::Metrics => 9,
        EventKind::Compaction => 10,
        EventKind::OutputFiltered => 11,
        EventKind::ReadEvicted => 12,
        EventKind::ReadDeduped => 13,
    }
}

pub open spec fn flip_if(b: bool, hit: bool) -> bool {
    if hit {
        !b
    } else {
        b
    }
}

/// The filter with toggle `i` flipped (unchanged past the end).
pub open spec fn toggled_s(f: ActivityFilter, i: int) -> ActivityFilter {
    ActivityFilter {
        session: flip_if(f.session, i == 0),
        prompt: flip_if(f.prompt, i == 1),
        completion: flip_if(f.completion, i == 2),
        tool_call: flip_if(f.tool_call, i == 3),
        parse_failed: flip_if(f.parse_failed, i == 4),
        tool_result: flip_if(f.tool_result, i == 5),
        verify: flip_if(f.verify, i == 6),
        hard_fail: flip_if(f.hard_fail, i == 7),
        progress: flip_if(f.progress, i == 8),
        metrics: flip_if(f.metrics, i == 9),
        compaction: flip_if(f.compaction, i == 10),
        output_filtered: flip_if(f.output_filtered, i == 11),
        read_evicted: flip_if(f.read_evicted, i == 12),
        read_deduped: flip_if(f.read_deduped, i == 13),
    }
}

pub open spec fn label_s(i: int) -> Seq<char> {
    if i == 0 {
        "session start/end"@
    } else if i == 1 {
        "prompt"@
    } else if i == 2 {
        "completion"@
    } else if i == 3 {
        "tool call"@
    } else if i == 4 {
        "parse fail"@
    } else if i == 5 {
        "tool result"@
    } else if i == 6 {
        "verify"@
    } else if i == 7 {
        "hard fail"@
    } else if i == 8 {
        "progress"@
    } else if i == 9 {
        "metrics"@
    } else if i == 10 {
        "compaction"@
    } else if i == 11 {
        "output filtered"@
    } else if i == 12 {
        "read evicted"@
    } else if i == 13 {
        "read deduped"@
    } else {
        "?"@
    }
}

impl Default for ActivityFilter {
    /// Everything shown but progress.
    fn default() -> (f: Self)
        ensures
            forall|i: int| 0 <= i < FILTER_ITEM_COUNT ==> enabled_s(f, i) == (i != 8),
    {
        ActivityFilter {
            session: true,
            prompt: true,
            completion: true,
            tool_call: true,
            parse_failed: true,
            tool_result: true,
            verify: true,
            hard_fail: true,
            progress: false,
            metrics: true,
            compaction: true,
            output_filtered: true,
            read_evicted: true,
            read_deduped: true,
        }
    }
}

impl ActivityFilter {
    /// Whether events of this kind are shown.
    pub fn allows(&self, kind: EventKind) -> (b: bool)
        ensures
            b == enabled_s(*self, kind_index(kind)),
    {
        match kind {
            EventKind::SessionStart | EventKind::SessionEnd => self.session,
            EventKind::Prompt => self.prompt,
            EventKind::Completion => self.completion,
            EventKind::Parsed => self.tool_call,
            EventKind::ParseFailed => self.parse_failed,
            EventKind::ToolResult => self.tool_result,
            EventKind::Verify => self.verify,
            EventKind::HardFail => self.hard_fail,
            EventKind::Progress => self.progress,
            EventKind::Metrics => self.metrics,
            EventKind::Compaction => self.compaction,
            EventKind::OutputFiltered => self.output_filtered,
            EventKind::ReadEvicted => self.read_evicted,
            EventKind::ReadDeduped => self.read_deduped,
        }
    }

    /// Flip the toggle at menu position `index`; past the end, nothing.
    pub fn toggle(&mut self, index: usize)
        ensures
            *final(self) == toggled_s(*old(self), index as int),
    {
        let f = *self;
        *self = ActivityFilter {
            session: if index == 0 { !f.session } else { f.session },
            prompt: if index == 1 { !f.prompt } else { f.prompt },
            completion: if index == 2 { !f.completion } else { f.completion },
            tool_call: if index == 3 { !f.tool_call } else { f.tool_call },
            parse_failed: if index == 4 { !f.parse_failed } else { f.parse_failed },
            tool_result: if index == 5 { !f.tool_result } else { f.tool_result },
            verify: if index == 6 { !f.verify } else { f.verify },
            hard_fail: if index == 7 { !f.hard_fail } else { f.hard_fail },
            progress: if index == 8 { !f.progress } else { f.progress },
            metrics: if index == 9 { !f.metrics } else { f.metrics },
            compaction: if index == 10 { !f.compaction } else { f.compaction },
            output_filtered: if index == 11 { !f.output_filtered } else { f.output_filtered },
            read_evicted: if index == 12 { !f.read_evicted } else { f.read_evicted },
            read_deduped: if index == 13 { !f.read_deduped } else { f.read_deduped },
        };
    }

    /// The toggle at menu position `index` (`false` past the end).
    pub fn is_enabled(&self, index: usize) -> (b: bool)
        ensures
            b == enabled_s(*self, index as int),
    {
        match index {
            0 => self.session,
            1 => self.prompt,
            2 => self.completion,
            3 => self.tool_call,
            4 => self.parse_failed,
            5 => self.tool_result,
            6 => self.verify,
            7 => self.hard_fail,
            8 => self.progress,
            9 => self.metrics,
            10 => self.compaction,
            11 => self.output_filtered,
            12 => self.read_evicted,
            13 => self.read_deduped,
            _ => false,
        }
    }

    /// The menu label of position `index` (`"?"` past the end).
    pub fn item_label(index: usize) -> (s: &'static str)
        ensures
            s@ == label_s(index as int),
    {
        proof {
            reveal_strlit("session start/end");
            reveal_strlit("prompt");
            reveal_strlit("completion");
            reveal_strlit("tool call");
            reveal_strlit("parse fail");
            reveal_strlit("tool result");
            reveal_strlit("verify");
            reveal_strlit("hard fail");
            reveal_strlit("progress");
            reveal_strlit("metrics");
            reveal_strlit("compaction");
            reveal_strlit("output filtered");
            reveal_strlit("read evicted");
            reveal_strlit("read deduped");
            reveal_strlit("?");
        }
        match index {
            0 => "session start/end",
            1 => "prompt",
            2 => "completion",
            3 => "tool call",
            4 => "parse fail",
            5 => "tool result",
            6 => "verify",
            7 => "hard fail",
            8 => "progress",
            9 => "metrics",
            10 => "compaction",
            11 => "output filtered",
            12 => "read evicted",
            13 => "read deduped",
            _ => "?",
        }
    }
}

/// Toggling flips exactly the toggle at that position and leaves every
/// other one as it was.
pub proof fn lemma_toggle_flips_only(f: ActivityFilter, i: int, j: int)
    ensures
        enabled_s(toggled_s(f, i), j) == if j == i && 0 <= i < FILTER_ITEM_COUNT {
            !enabled_s(f, j)
        } else {
            enabled_s(f, j)
        },
{
}

/// Toggling the same position twice gives back the filter it started from.
pub proof fn lemma_toggle_twice(f: ActivityFilter, i: int)
    ensures
        toggled_s(toggled_s(f, i), i) == f,
{
}

/// A filter is determined by its toggles.
pub proof fn lemma_enabled_determines(f: ActivityFilter, g: ActivityFilter)
    requires
        forall|i: int| 0 <= i < FILTER_ITEM_COUNT ==> enabled_s(f, i) == enabled_s(g, i),
    ensures
        f == g,
{
    assert(enabled_s(f, 0) == enabled_s(g, 0));
    assert(enabled_s(f, 1) == enabled_s(g, 1));
    assert(enabled_s(f, 2) == enabled_s(g, 2));
    assert(enabled_s(f, 3) == enabled_s(g, 3));
    assert(enabled_s(f, 4) == enabled_s(g, 4));
    assert(enabled_s(f, 5) == enabled_s(g, 5));
    assert(enabled_s(f, 6) == enabled_s(g, 6));
    assert(enabled_s(f, 7) == enabled_s(g, 7));
    assert(enabled_s(f, 8) == enabled_s(g, 8));
    assert(enabled_s(f, 9) == enabled_s(g, 9));
    assert(enabled_s(f, 10) == enabled_s(g, 10));
    assert(enabled_s(f, 11) == enabled_s(g, 11));
    assert(enabled_s(f, 12) == enabled_s(g, 12));
    assert(enabled_s(f, 13) == enabled_s(g, 13));
}

/// Filter panel state: open or closed, the cursor's menu position, and
/// the current toggles.
#[derive(Clone, Copy, Debug, PartialEq, Eq, Structural)]
pub struct FilterState {
    pub open: bool,
    pub cursor: usize,
    pub filter: ActivityFilter,
}

impl Default for FilterState {
    /// Closed, cursor on the first item, default toggles.
    fn default() -> (s: Self)
        ensures
            !s.open,
            s.cursor == 0,
            forall|i: int| 0 <= i < FILTER_ITEM_COUNT ==> enabled_s(s.filter, i) == (i != 8),
    {
        FilterState { open: false, cursor: 0, filter: ActivityFilter::default() }
    }
}

impl FilterState {
    /// Move the cursor down one item, wrapping from the last to the first.
    pub fn cursor_down(&mut self)
        requires
            old(self).cursor < FILTER_ITEM_COUNT,
        ensures
            final(self).cursor == (old(self).cursor + 1) % (FILTER_ITEM_COUNT as int),
            final(self).open == old(self).open,
            final(self).filter == old(self).filter,
    {
        self.cursor = (self.cursor + 1) % FILTER_ITEM_COUNT;
    }

    /// Move the cursor up one item, wrapping from the first to the last.
    pub fn cursor_up(&mut self)
        requires
            old(self).cursor < FILTER_ITEM_COUNT,
        ensures
            final(self).cursor == (old(self).cursor + FILTER_ITEM_COUNT - 1) % (FILTER_ITEM_COUNT as int),
            final(self).open == old(self).open,
            final(self).filter == old(self).filter,
    {
        self.cursor = (self.cursor + FILTER_ITEM_COUNT - 1) % FILTER_ITEM_COUNT;
    }
}

} // verus!
