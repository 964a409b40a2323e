//! The dashboard's key handling: the decision half of the event loop. The
//! caller polls the terminal, draws, and feeds each key press here.
use vstd::prelude::*;
use crate::dashboard::filter::{toggled_s, FilterState, FILTER_ITEM_COUNT};

verus! {

/// A key press, as far as the dashboard distinguishes keys.
#[derive(Clone, Copy, Debug, PartialEq, Eq, Structural)]
pub enum Key {
    Char(char),
    Esc,
    Enter,
    Up,
    Down,
    PageUp,
    PageDown,
    Home,
    End,
    Other,
}

/// How the budget panel shows amounts.
#[derive(Clone, Copy, Debug, PartialEq, Eq, Structural)]
pub enum BudgetDisplay {
    Dollars,
    Tokens,
}

/// The view state that key presses change.
#[derive(Clone, Copy, Debug, PartialEq, Eq, Structural)]
pub struct LoopState {
    pub offset: u16,
    pub follow: bool,
    pub filter: FilterState,
    pub budget_display: BudgetDisplay,
}

/// What the loop does after a key.
#[derive(Clone, Copy, Debug, PartialEq, Eq, Structural)]
pub enum KeyOutcome {
    Continue,
    Quit,
}

/// The state is well formed: the filter cursor is on a menu item.
pub open spec fn loop_state_ok(st: LoopState) -> bool {
    st.filter.cursor < FILTER_ITEM_COUNT
}

pub open spec fn sat_sub(a: int, b: int) -> int {
    if a >= b {
        a - b
    } else {
        0
    }
}

pub open spec fn sat_add_u16(a: int, b: int) -> int {
    if a + b <= u16::MAX {
        a + b
    } else {
        u16::MAX as int
    }
}

/// One key press. With the filter panel open: `f`/Esc close it, `j`/Down and
/// `k`/Up move the cursor (wrapping), space/Enter flip the item under it.
/// Otherwise: `q`/Esc quit, `f` opens the panel with the cursor on top,
/// `b` switches dollars/tokens, Up/Down/PageUp/PageDown scroll by 1/10 and
/// stop following, Home jumps to the top and stops following, End follows
/// the tail again. Other keys change nothing.
pub open spec fn key_step(st: LoopState, key: Key) -> (LoopState, KeyOutcome) {
    let n = FILTER_ITEM_COUNT as int;
    if st.filter.open {
        let fs = st.filter;
        let fs2 = match key {
            Key::Char(c) => if c == 'f' {
                FilterState { open: false, ..fs }
            } else if c == 'j' {
                FilterState { cursor: ((fs.cursor + 1) % n) as usize, ..fs }
            } else if c == 'k' {
                FilterState { cursor: ((fs.cursor + n - 1) % n) as usize, ..fs }
            } else if c == ' ' {
                FilterState { filter: toggled_s(fs.filter, fs.cursor as int), ..fs }
            } else {
                fs
            },
            Key::Esc => FilterState { open: false, ..fs },
            Key::Down => FilterState { cursor: ((fs.cursor + 1) % n) as usize, ..fs },
            Key::Up => FilterState { cursor: ((fs.cursor + n - 1) % n) as usize, ..fs },
            Key::Enter => FilterState { filter: toggled_s(fs.filter, fs.cursor as int), ..fs },
            _ => fs,
        };
        (LoopState { filter: fs2, ..st }, KeyOutcome::Continue)
    } else {
        match key {
            Key::Char(c) => if c == 'q' {
                (st, KeyOutcome::Quit)
            } else if c == 'f' {
                (
                    LoopState { filter: FilterState { open: true, cursor: 0, ..st.filter }, ..st },
                    KeyOutcome::Continue,
                )
            } else if c == 'b' {
                (
                    LoopState {
                        budget_display: match st.budget_display {
                            BudgetDisplay::Dollars => BudgetDisplay::Tokens,
                            BudgetDisplay::Tokens => BudgetDisplay::Dollars,
                        },
                        ..st
                    },
                    KeyOutcome::Continue,
                )
            } else {
                (st, KeyOutcome::Continue)
            },
            Key::Esc => (st, KeyOutcome::Quit),
            Key::Up => (
                LoopState { follow: false, offset: sat_sub(st.offset as int, 1) as u16, ..st },
                KeyOutcome::Continue,
            ),
            Key::Down => (
                LoopState { follow: false, offset: sat_add_u16(st.offset as int, 1) as u16, ..st },
                KeyOutcome::Continue,
            ),
            Key::PageUp => (
                LoopState { follow: false, offset: sat_sub(st.offset as int, 10) as u16, ..st },
                KeyOutcome::Continue,
            ),
            Key::PageDown => (
                LoopState { follow: false, offset: sat_add_u16(st.offset as int, 10) as u16, ..st },
                KeyOutcome::Continue,
            ),
            Key::Home => (LoopState { follow: false, offset: 0, ..st }, KeyOutcome::Continue),
            Key::End => (LoopState { follow: true, ..st }, KeyOutcome::Continue),
            _ => (st, KeyOutcome::Continue),
        }
    }
}

fn sat_sub_u16(a: u16, b: u16) -> (r: u16)
    ensures
        r == sat_sub(a as int, b as int),
{
    if a >= b {
        a - b
    } else {
        0
    }
}

fn sat_add_u16_exec(a: u16, b: u16) -> (r: u16)
    ensures
        r == sat_add_u16(a as int, b as int),
{
    if a <= u16::MAX - b {
        a + b
    } else {
        u16::MAX
    }
}

/// Apply one key press to the view state.
pub fn handle_key(st: &mut LoopState, key: Key) -> (out: KeyOutcome)
    requires
        loop_state_ok(*old(st)),
    ensures
        (*final(st), out) == key_step(*old(st), key),
        loop_state_ok(*final(st)),
{
    if st.filter.open {
        match key {
            Key::Char('f') | Key::Esc => {
                st.filter.open = false;
            },
            Key::Char('j') | Key::Down => {
                st.filter.cursor_down();
            },
            Key::Char('k') | Key::Up => {
                st.filter.cursor_up();
            },
            Key::Char(' ') | Key::Enter => {
                let c = st.filter.cursor;
                st.filter.filter.toggle(c);
            },
            _ => {},
        }
        KeyOutcome::Continue
    } else {
        match key {
            Key::Char('q') | Key::Esc => {
                return KeyOutcome::Quit;
            },
            Key::Char('f') => {
                st.filter.open = true;
                st.filter.cursor = 0;
            },
            Key::Char('b') => {
                st.budget_display = match st.budget_display {
                    BudgetDisplay::Dollars => BudgetDisplay::Tokens,
                    BudgetDisplay::Tokens => BudgetDisplay::Dollars,
                };
            },
            Key::Up => {
                st.follow = false;
                st.offset = sat_sub_u16(st.offset, 1);
            },
            Key::Down => {
                st.follow = false;
                st.offset = sat_add_u16_exec(st.offset, 1);
            },
            Key::PageUp => {
                st.follow = false;
                st.offset = sat_sub_u16(st.offset, 10);
            },
            Key::PageDown => {
                st.follow = false;
                st.offset = sat_add_u16_exec(st.offset, 10);
            },
            Key::Home => {
                st.follow = false;
                st.offset = 0;
            },
            Key::End => {
                st.follow = true;
            },
            _ => {},
        }
        KeyOutcome::Continue
    }
}

/// After a refresh: new records re-engage following the tail, whatever
/// the user scrolled to; otherwise following is left as it was.
pub fn follow_after_refresh(follow: bool, prev_count: usize, count: usize) -> (r: bool)
    ensures
        r == (follow || count > prev_count),
{
    follow || count > prev_count
}

/// The spinner frame to draw: the tick while the session runs (not ended
/// and no load error), none otherwise.
pub fn spinner_frame(ended: bool, has_error: bool, tick: usize) -> (r: Option<usize>)
    ensures
        r == (if !ended && !has_error {
            Some(tick)
        } else {
            None::<usize>
        }),
{
    if !ended && !has_error {
        Some(tick)
    } else {
        None
    }
}

/// Opening and then closing the filter panel leaves toggles, scroll and
/// follow state as they were.
pub proof fn lemma_open_close_filter(st: LoopState)
    requires
        loop_state_ok(st),
        !st.filter.open,
    ensures
        ({
            let (s1, o1) = key_step(st, Key::Char('f'));
            let (s2, o2) = key_step(s1, Key::Esc);
            &&& o1 == KeyOutcome::Continue
            &&& o2 == KeyOutcome::Continue
            &&& !s2.filter.open
            &&& s2.filter.filter == st.filter.filter
            &&& s2.offset == st.offset
            &&& s2.follow == st.follow
            &&& s2.budget_display == st.budget_display
        }),
{
}

/// Every key keeps the cursor on a menu item.
pub proof fn lemma_key_step_keeps_cursor(st: LoopState, key: Key)
    requires
        loop_state_ok(st),
    ensures
        loop_state_ok(key_step(st, key).0),
{
}

} // verus!
