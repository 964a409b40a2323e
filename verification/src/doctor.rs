//! Toolchain doctor: which configured command binaries and verifier
//! enhancers resolve on the search path, and the human report.
use vstd::prelude::*;
use vstd::string::StrSliceExecFns;
use crate::text::{
    all_ws, chars_of, contains, contains_s, extend_chars, extend_str, is_ws, is_ws_char, join_s, string_of,
    views,
};

verus! {

// ---------------------------------------------------------------------------
// Command binaries
// ---------------------------------------------------------------------------

/// Index of the first whitespace character of `s` at or after `from`, or
/// `s.len()`.
pub open spec fn next_ws(s: Seq<char>, from: int) -> int
    decreases s.len() - from,
{
    if from < 0 || from >= s.len() {
        s.len() as int
    } else if is_ws(s[from]) {
        from
    } else {
        next_ws(s, from + 1)
    }
}

/// Index of the first non-whitespace character of `s` at or after `from`,
/// or `s.len()`.
pub open spec fn next_non_ws(s: Seq<char>, from: int) -> int
    decreases s.len() - from,
{
    if from < 0 || from >= s.len() {
        s.len() as int
    } else if !is_ws(s[from]) {
        from
    } else {
        next_non_ws(s, from + 1)
    }
}

/// The first whitespace-delimited word of `s`.
pub open spec fn first_word(s: Seq<char>) -> Option<Seq<char>> {
    let i = next_non_ws(s, 0);
    if i >= s.len() {
        None
    } else {
        Some(s.subrange(i, next_ws(s, i)))
    }
}

proof fn lemma_next_bounds(s: Seq<char>, from: int)
    requires
        0 <= from <= s.len(),
    ensures
        from <= next_ws(s, from) <= s.len(),
        from <= next_non_ws(s, from) <= s.len(),
    decreases s.len() - from,
{
    if from < s.len() {
        lemma_next_bounds(s, from + 1);
    }
}

/// The binary a configured command shells out to: its first
/// whitespace-delimited token. `None` for a blank/empty command.
pub fn command_binary(command: &str) -> (r: Option<&str>)
    ensures
        match r {
            Some(b) => first_word(command@) == Some(b@),
            None => first_word(command@) is None,
        },
{
    let v = chars_of(command);
    let mut i: usize = 0;
    while i < v.len() && is_ws_char(v[i])
        invariant
            i <= v.len(),
            next_non_ws(v@, 0) == next_non_ws(v@, i as int),
        decreases v.len() - i,
    {
        i += 1;
    }
    if i >= v.len() {
        return None;
    }
    let mut j = i;
    while j < v.len() && !is_ws_char(v[j])
        invariant
            i <= j <= v.len(),
            next_ws(v@, i as int) == next_ws(v@, j as int),
        decreases v.len() - j,
    {
        j += 1;
    }
    proof {
        lemma_next_bounds(v@, 0);
    }
    Some(command.substring_char(i, j))
}

// ---------------------------------------------------------------------------
// Resolution
// ---------------------------------------------------------------------------

/// `dir.join(name)` as text.
pub uninterp spec fn joined_path(dir: Seq<char>, name: Seq<char>) -> Seq<char>;

/// `std::path::Path::join`: the path `name` inside `dir`. Believed: the
/// result is a function of the two path texts alone.
#[verifier::external_body]
pub(crate) fn join_path(dir: &str, name: &str) -> (r: String)
    ensures
        r@ == joined_path(dir@, name@),
{
    std::path::Path::new(dir).join(name).to_string_lossy().into_owned()
}

/// `std::path::Path::is_file`: whether an existing regular file is at
/// `path` right now. Nothing is stated: the answer depends on the disk.
#[verifier::external_body]
fn path_is_file(path: &str) -> (r: bool) {
    std::path::Path::new(path).is_file()
}

/// `std::path::MAIN_SEPARATOR`, the platform's path separator. Nothing is
/// stated: it depends on the platform the crate is built for.
#[verifier::external_body]
fn main_separator() -> (c: char) {
    std::path::MAIN_SEPARATOR
}

/// The texts of the search directories.
pub open spec fn dir_views(paths: Seq<String>) -> Seq<Seq<char>> {
    paths.map_values(|p: String| p@)
}

/// The paths the file check is asked about, in order: the name itself when
/// it holds the path separator, else `dir.join(name)` for each search dir.
pub open spec fn bin_candidates(binary: Seq<char>, dirs: Seq<Seq<char>>, has_sep: bool) -> Seq<Seq<char>> {
    if has_sep {
        seq![binary]
    } else {
        dirs.map_values(|d: Seq<char>| joined_path(d, binary))
    }
}

/// The first candidate whose file check answered yes (an answer missing
/// from `ans` counts as no), or `None`.
pub open spec fn first_answered(cands: Seq<Seq<char>>, ans: Seq<bool>) -> Option<Seq<char>>
    decreases cands.len(),
{
    if cands.len() == 0 || ans.len() == 0 {
        None
    } else if ans[0] {
        Some(cands[0])
    } else {
        first_answered(cands.drop_first(), ans.drop_first())
    }
}

/// What resolution gives when the file checks of the candidates, in order,
/// answer `ans`.
pub open spec fn resolved_s(binary: Seq<char>, dirs: Seq<Seq<char>>, has_sep: bool, ans: Seq<bool>) -> Option<Seq<char>> {
    first_answered(bin_candidates(binary, dirs, has_sep), ans)
}

/// `r` is what resolution gives for the platform's path separator and for
/// some answers of the file checks (which depend on the disk).
pub open spec fn resolution_of(binary: Seq<char>, dirs: Seq<Seq<char>>, r: Option<Seq<char>>) -> bool {
    exists|sep: char, ans: Seq<bool>| r == #[trigger] resolved_s(binary, dirs, contains_s(binary, seq![sep]), ans)
}

fn candidate(binary: &str, search_paths: &[String], has_sep: bool, k: usize) -> (c: String)
    requires
        has_sep ==> k == 0,
        !has_sep ==> k < search_paths@.len(),
    ensures
        c@ == bin_candidates(binary@, dir_views(search_paths@), has_sep)[k as int],
{
    if has_sep {
        binary.to_string()
    } else {
        join_path(search_paths[k].as_str(), binary)
    }
}

/// The resolution given the file checks' answers, in candidate order: the
/// first candidate whose answer is yes, or `None` when none is.
pub fn first_resolved(binary: &str, search_paths: &[String], has_sep: bool, answers: &Vec<bool>) -> (r: Option<String>)
    ensures
        opt_view(r) == resolved_s(binary@, dir_views(search_paths@), has_sep, answers@),
{
    let ghost cands = bin_candidates(binary@, dir_views(search_paths@), has_sep);
    let n: usize = if has_sep { 1 } else { search_paths.len() };
    let mut k: usize = 0;
    assert(cands.skip(0) =~= cands);
    assert(answers@.skip(0) =~= answers@);
    while k < n && k < answers.len()
        invariant
            n == cands.len(),
            cands == bin_candidates(binary@, dir_views(search_paths@), has_sep),
            has_sep ==> n == 1,
            !has_sep ==> n == search_paths@.len(),
            k <= n,
            k <= answers@.len(),
            first_answered(cands, answers@) == first_answered(cands.skip(k as int), answers@.skip(k as int)),
        decreases n - k,
    {
        let ghost cs = cands.skip(k as int);
        let ghost an = answers@.skip(k as int);
        assert(cs.drop_first() =~= cands.skip(k + 1));
        assert(an.drop_first() =~= answers@.skip(k + 1));
        if answers[k] {
            let c = candidate(binary, search_paths, has_sep, k);
            return Some(c);
        }
        k += 1;
    }
    assert(cands.skip(k as int).len() == 0 || answers@.skip(k as int).len() == 0);
    None
}

/// Resolve a binary against a list of search directories. A name
/// containing a path separator is treated as a path and checked directly;
/// a bare name is probed as `dir.join(name)` in each search dir, in order,
/// stopping at the first existing file. Whether a path is an existing file
/// depends on the disk, so the contract says the result is the first
/// candidate for which the file check said yes, for whatever it said.
pub fn resolve_binary(binary: &str, search_paths: &[String]) -> (r: Option<String>)
    ensures
        resolution_of(binary@, dir_views(search_paths@), opt_view(r)),
{
    let sep = main_separator();
    let v = chars_of(binary);
    let sv = vec![sep];
    let has_sep = contains(&v, &sv);
    let n: usize = if has_sep { 1 } else { search_paths.len() };
    let mut answers: Vec<bool> = Vec::new();
    let mut k: usize = 0;
    while k < n
        invariant
            has_sep ==> n == 1,
            !has_sep ==> n == search_paths@.len(),
            k <= n,
        decreases n - k,
    {
        let c = candidate(binary, search_paths, has_sep, k);
        let found = path_is_file(c.as_str());
        answers.push(found);
        if found {
            break;
        }
        k += 1;
    }
    let r = first_resolved(binary, search_paths, has_sep, &answers);
    proof {
        assert(sv@ =~= seq![sep]);
        assert(opt_view(r) == resolved_s(binary@, dir_views(search_paths@), contains_s(binary@, seq![sep]), answers@));
    }
    r
}

// ---------------------------------------------------------------------------
// Report
// ---------------------------------------------------------------------------

/// One tool row of the report.
pub struct ToolStatus {
    pub binary: String,
    pub found: bool,
    pub note: String,
}

/// Required (Tier-0) and advisory (Tier-1) tool rows.
pub struct DoctorReport {
    pub tier0: Vec<ToolStatus>,
    pub tier1: Vec<ToolStatus>,
}

/// The six configured gate commands (absent ones are `None`).
pub struct CommandConfig {
    pub format: Option<String>,
    pub build: Option<String>,
    pub lint: Option<String>,
    pub test: Option<String>,
    pub lint_fix: Option<String>,
    pub format_fix: Option<String>,
}

/// Every required tool was found.
pub open spec fn tier0_ok_s(tier0: Seq<ToolStatus>) -> bool {
    forall|i: int| 0 <= i < tier0.len() ==> (#[trigger] tier0[i]).found
}

/// The verdict on the required tools: a missing tool makes the report not
/// ok, a report whose tools are all found is ok, and adding a row keeps the
/// verdict only when that row was found.
pub proof fn lemma_tier0_verdict(rows: Seq<ToolStatus>, row: ToolStatus)
    ensures
        (exists|i: int| 0 <= i < rows.len() && !(#[trigger] rows[i]).found) ==> !tier0_ok_s(rows),
        (forall|i: int| 0 <= i < rows.len() ==> (#[trigger] rows[i]).found) ==> tier0_ok_s(rows),
        tier0_ok_s(rows.push(row)) == (tier0_ok_s(rows) && row.found),
        tier0_ok_s(Seq::<ToolStatus>::empty()),
{
    if tier0_ok_s(rows.push(row)) {
        assert(rows.push(row)[rows.len() as int] == row);
        assert forall|i: int| 0 <= i < rows.len() implies (#[trigger] rows[i]).found by {
            assert(rows.push(row)[i] == rows[i]);
        }
    }
    if tier0_ok_s(rows) && row.found {
        assert forall|i: int| 0 <= i < rows.push(row).len() implies (#[trigger] rows.push(row)[i]).found by {
            if i < rows.len() {
                assert(rows.push(row)[i] == rows[i]);
            }
        }
    }
}

impl DoctorReport {
    /// True iff every required (Tier-0) tool was found. Tier-1 status never
    /// affects this: enhancers fail open.
    pub fn tier0_ok(&self) -> (b: bool)
        ensures
            b == tier0_ok_s(self.tier0@),
    {
        let mut i: usize = 0;
        while i < self.tier0.len()
            invariant
                i <= self.tier0@.len(),
                forall|k: int| 0 <= k < i ==> (#[trigger] self.tier0@[k]).found,
            decreases self.tier0@.len() - i,
        {
            if !self.tier0[i].found {
                return false;
            }
            i += 1;
        }
        true
    }
}

/// Index of the row for binary `b`, or -1.
pub open spec fn row_index(rows: Seq<(Seq<char>, Seq<char>)>, b: Seq<char>) -> int
    decreases rows.len(),
{
    if rows.len() == 0 {
        -1
    } else if rows.last().0 == b {
        rows.len() - 1
    } else {
        row_index(rows.drop_last(), b)
    }
}

/// Adds `role` for command `cmd`: skipped when absent or blank; appended to
/// the note of an existing row for the same binary; otherwise a new row.
pub open spec fn add_role(
    rows: Seq<(Seq<char>, Seq<char>)>,
    role: Seq<char>,
    cmd: Option<Seq<char>>,
) -> Seq<(Seq<char>, Seq<char>)> {
    match cmd {
        None => rows,
        Some(c) => match first_word(c) {
            None => rows,
            Some(b) => {
                let k = row_index(rows, b);
                if k >= 0 {
                    rows.update(k, (b, rows[k].1 + ", "@ + role))
                } else {
                    rows.push((b, role))
                }
            },
        },
    }
}

pub open spec fn opt_view(o: Option<String>) -> Option<Seq<char>> {
    match o {
        Some(s) => Some(s@),
        None => None,
    }
}

/// Tier-0 (binary, note) rows: the six commands in fixed order, deduped by
/// binary with the roles listed in the note.
pub open spec fn tier0_rows_s(c: CommandConfig) -> Seq<(Seq<char>, Seq<char>)> {
    let r0 = Seq::<(Seq<char>, Seq<char>)>::empty();
    let r1 = add_role(r0, "format"@, opt_view(c.format));
    let r2 = add_role(r1, "build"@, opt_view(c.build));
    let r3 = add_role(r2, "lint"@, opt_view(c.lint));
    let r4 = add_role(r3, "test"@, opt_view(c.test));
    let r5 = add_role(r4, "lint_fix"@, opt_view(c.lint_fix));
    add_role(r5, "format_fix"@, opt_view(c.format_fix))
}

pub open spec fn rows_view(rows: Seq<(Vec<char>, Vec<char>)>) -> Seq<(Seq<char>, Seq<char>)> {
    rows.map_values(|r: (Vec<char>, Vec<char>)| (r.0@, r.1@))
}

proof fn lemma_row_index(rows: Seq<(Seq<char>, Seq<char>)>, b: Seq<char>)
    ensures
        -1 <= row_index(rows, b) < rows.len(),
        row_index(rows, b) >= 0 ==> rows[row_index(rows, b)].0 == b,
    decreases rows.len(),
{
    if rows.len() > 0 && rows.last().0 != b {
        lemma_row_index(rows.drop_last(), b);
    }
}

fn find_row(rows: &Vec<(Vec<char>, Vec<char>)>, b: &Vec<char>) -> (r: Option<usize>)
    ensures
        match r {
            Some(k) => k as int == row_index(rows_view(rows@), b@) && k < rows.len(),
            None => row_index(rows_view(rows@), b@) == -1,
        },
{
    let mut j = rows.len();
    assert(rows_view(rows@).take(j as int) =~= rows_view(rows@));
    while j > 0
        invariant
            j <= rows.len(),
            row_index(rows_view(rows@), b@) == row_index(rows_view(rows@).take(j as int), b@),
        decreases j,
    {
        assert(rows_view(rows@).take(j as int).drop_last() =~= rows_view(rows@).take(j - 1));
        assert(rows_view(rows@).take(j as int).last() == (rows@[j - 1].0@, rows@[j - 1].1@));
        if crate::text::chars_eq(&rows[j - 1].0, b) {
            return Some(j - 1);
        }
        j -= 1;
    }
    None
}

fn add_role_exec(rows: &mut Vec<(Vec<char>, Vec<char>)>, role: &str, cmd: &Option<String>)
    ensures
        rows_view(final(rows)@) == add_role(rows_view(old(rows)@), role@, opt_view(*cmd)),
{
    let c = match cmd {
        Some(c) => c,
        None => return,
    };
    let b = match command_binary(c.as_str()) {
        Some(b) => chars_of(b),
        None => return,
    };
    match find_row(rows, &b) {
        Some(k) => {
            let mut note = rows[k].1.clone();
            assert(note@ == rows@[k as int].1@);
            extend_str(&mut note, ", ");
            extend_str(&mut note, role);
            let ghost old_rows = rows_view(rows@);
            proof {
                lemma_row_index(old_rows, b@);
            }
            rows.set(k, (b, note));
            assert(rows_view(rows@) =~= old_rows.update(k as int, (old_rows[k as int].0, old_rows[k as int].1 + ", "@ + role@)));
        },
        None => {
            let ghost old_rows = rows_view(rows@);
            rows.push((b, chars_of(role)));
            assert(rows_view(rows@) =~= old_rows.push((b@, role@)));
        },
    }
}

pub open spec fn distinct_bins(rows: Seq<(Seq<char>, Seq<char>)>) -> bool {
    forall|a: int, b: int| 0 <= a < b < rows.len() ==> (#[trigger] rows[a]).0 != (#[trigger] rows[b]).0
}

pub open spec fn has_bin(rows: Seq<(Seq<char>, Seq<char>)>, b: Seq<char>) -> bool {
    exists|i: int| 0 <= i < rows.len() && (#[trigger] rows[i]).0 == b
}

/// The binary a configured command runs, if it names one.
pub open spec fn cmd_bin(cmd: Option<Seq<char>>) -> Option<Seq<char>> {
    match cmd {
        Some(c) => first_word(c),
        None => None,
    }
}

proof fn lemma_add_role(rows: Seq<(Seq<char>, Seq<char>)>, role: Seq<char>, cmd: Option<Seq<char>>)
    requires
        distinct_bins(rows),
    ensures
        distinct_bins(add_role(rows, role, cmd)),
        forall|b: Seq<char>| #[trigger] has_bin(rows, b) ==> has_bin(add_role(rows, role, cmd), b),
        cmd_bin(cmd) matches Some(b) ==> has_bin(add_role(rows, role, cmd), b),
{
    let r = add_role(rows, role, cmd);
    if let Some(c) = cmd {
        if let Some(b) = first_word(c) {
            lemma_row_index(rows, b);
            let k = row_index(rows, b);
            if k >= 0 {
                assert(r[k].0 == b);
                assert forall|x: Seq<char>| #[trigger] has_bin(rows, x) implies has_bin(r, x) by {
                    let i = choose|i: int| 0 <= i < rows.len() && (#[trigger] rows[i]).0 == x;
                    assert(r[i].0 == rows[i].0);
                }
                assert forall|a: int, bb: int| 0 <= a < bb < r.len() implies (#[trigger] r[a]).0 != (#[trigger] r[bb]).0 by {
                    assert(r[a].0 == rows[a].0 && r[bb].0 == rows[bb].0);
                }
            } else {
                lemma_row_index_absent(rows, b);
                assert(r[rows.len() as int].0 == b);
                assert forall|x: Seq<char>| #[trigger] has_bin(rows, x) implies has_bin(r, x) by {
                    let i = choose|i: int| 0 <= i < rows.len() && (#[trigger] rows[i]).0 == x;
                    assert(r[i] == rows[i]);
                }
                assert forall|a: int, bb: int| 0 <= a < bb < r.len() implies (#[trigger] r[a]).0 != (#[trigger] r[bb]).0 by {
                    assert(r[a] == rows[a]);
                    if bb < rows.len() {
                        assert(r[bb] == rows[bb]);
                    }
                }
            }
        }
    }
}

proof fn lemma_row_index_absent(rows: Seq<(Seq<char>, Seq<char>)>, b: Seq<char>)
    requires
        row_index(rows, b) < 0,
    ensures
        forall|i: int| 0 <= i < rows.len() ==> (#[trigger] rows[i]).0 != b,
    decreases rows.len(),
{
    if rows.len() > 0 {
        lemma_row_index_absent(rows.drop_last(), b);
        assert forall|i: int| 0 <= i < rows.len() implies (#[trigger] rows[i]).0 != b by {
            if i < rows.len() - 1 {
                assert(rows[i] == rows.drop_last()[i]);
            }
        }
    }
}

/// The Tier-0 rows list each binary once, and every configured command
/// that names a binary has that binary among the rows.
pub proof fn lemma_tier0_rows_cover_commands(c: CommandConfig)
    ensures
        distinct_bins(tier0_rows_s(c)),
        cmd_bin(opt_view(c.format)) matches Some(b) ==> has_bin(tier0_rows_s(c), b),
        cmd_bin(opt_view(c.build)) matches Some(b) ==> has_bin(tier0_rows_s(c), b),
        cmd_bin(opt_view(c.lint)) matches Some(b) ==> has_bin(tier0_rows_s(c), b),
        cmd_bin(opt_view(c.test)) matches Some(b) ==> has_bin(tier0_rows_s(c), b),
        cmd_bin(opt_view(c.lint_fix)) matches Some(b) ==> has_bin(tier0_rows_s(c), b),
        cmd_bin(opt_view(c.format_fix)) matches Some(b) ==> has_bin(tier0_rows_s(c), b),
{
    let r0 = Seq::<(Seq<char>, Seq<char>)>::empty();
    let r1 = add_role(r0, "format"@, opt_view(c.format));
    let r2 = add_role(r1, "build"@, opt_view(c.build));
    let r3 = add_role(r2, "lint"@, opt_view(c.lint));
    let r4 = add_role(r3, "test"@, opt_view(c.test));
    let r5 = add_role(r4, "lint_fix"@, opt_view(c.lint_fix));
    lemma_add_role(r0, "format"@, opt_view(c.format));
    lemma_add_role(r1, "build"@, opt_view(c.build));
    lemma_add_role(r2, "lint"@, opt_view(c.lint));
    lemma_add_role(r3, "test"@, opt_view(c.test));
    lemma_add_role(r4, "lint_fix"@, opt_view(c.lint_fix));
    lemma_add_role(r5, "format_fix"@, opt_view(c.format_fix));
}

/// Tier-0 (binary, note) rows from the configured commands.
pub fn tier0_rows(commands: &CommandConfig) -> (r: Vec<(Vec<char>, Vec<char>)>)
    ensures
        rows_view(r@) == tier0_rows_s(*commands),
{
    let mut rows: Vec<(Vec<char>, Vec<char>)> = Vec::new();
    assert(rows_view(rows@) =~= Seq::<(Seq<char>, Seq<char>)>::empty());
    add_role_exec(&mut rows, "format", &commands.format);
    add_role_exec(&mut rows, "build", &commands.build);
    add_role_exec(&mut rows, "lint", &commands.lint);
    add_role_exec(&mut rows, "test", &commands.test);
    add_role_exec(&mut rows, "lint_fix", &commands.lint_fix);
    add_role_exec(&mut rows, "format_fix", &commands.format_fix);
    rows
}

/// Binary and note of the three advisory enhancer rows.
pub open spec fn tier1_rows_s() -> Seq<(Seq<char>, Seq<char>)> {
    seq![
        ("cargo"@, "Rust (install the Rust toolchain via https://rustup.rs)"@),
        ("tsc"@, "TypeScript (npm install -g typescript)"@),
        ("ruff"@, "Python (pip install ruff)"@),
    ]
}

pub open spec fn status_rows(rows: Seq<ToolStatus>) -> Seq<(Seq<char>, Seq<char>)> {
    rows.map_values(|t: ToolStatus| (t.binary@, t.note@))
}

/// `found` is whether resolving `binary` succeeds, for the platform's path
/// separator and some answers of the file checks.
pub open spec fn found_by_resolution(binary: Seq<char>, dirs: Seq<Seq<char>>, found: bool) -> bool {
    exists|r: Option<Seq<char>>| resolution_of(binary, dirs, r) && found == (r is Some)
}

/// Every row's `found` is whether its binary resolved.
pub open spec fn rows_found(rows: Seq<ToolStatus>, dirs: Seq<Seq<char>>) -> bool {
    forall|k: int| 0 <= k < rows.len() ==> found_by_resolution((#[trigger] rows[k]).binary@, dirs, rows[k].found)
}

fn probed(binary: &Vec<char>, note: &Vec<char>, search_paths: &[String]) -> (t: ToolStatus)
    ensures
        t.binary@ == binary@,
        t.note@ == note@,
        found_by_resolution(binary@, dir_views(search_paths@), t.found),
{
    let b = string_of(binary);
    let r = resolve_binary(b.as_str(), search_paths);
    let found = match r {
        Some(_) => true,
        None => false,
    };
    assert(resolution_of(binary@, dir_views(search_paths@), opt_view(r)) && found == (opt_view(r) is Some));
    ToolStatus { binary: b, found, note: string_of(note) }
}

/// Build the toolchain report from the configured commands and the known
/// per-language verifier enhancers, resolving each binary against
/// `search_paths`. Rows and notes are exact; whether each was found comes
/// from the disk.
pub fn build_report(commands: &CommandConfig, search_paths: &[String]) -> (r: DoctorReport)
    ensures
        status_rows(r.tier0@) == tier0_rows_s(*commands),
        status_rows(r.tier1@) == tier1_rows_s(),
        rows_found(r.tier0@, dir_views(search_paths@)),
        rows_found(r.tier1@, dir_views(search_paths@)),
{
    let rows = tier0_rows(commands);
    let mut tier0: Vec<ToolStatus> = Vec::new();
    let mut i: usize = 0;
    while i < rows.len()
        invariant
            i <= rows.len(),
            status_rows(tier0@) == rows_view(rows@).take(i as int),
            rows_found(tier0@, dir_views(search_paths@)),
        decreases rows.len() - i,
    {
        let t = probed(&rows[i].0, &rows[i].1, search_paths);
        let ghost before = status_rows(tier0@);
        tier0.push(t);
        assert(status_rows(tier0@) =~= before.push((rows@[i as int].0@, rows@[i as int].1@)));
        assert(rows_view(rows@).take(i + 1) =~= rows_view(rows@).take(i as int).push(
            (rows@[i as int].0@, rows@[i as int].1@),
        ));
        i += 1;
    }
    assert(rows_view(rows@).take(rows.len() as int) =~= rows_view(rows@));
    let mut tier1: Vec<ToolStatus> = Vec::new();
    tier1.push(probed(&chars_of("cargo"), &chars_of("Rust (install the Rust toolchain via https://rustup.rs)"), search_paths));
    tier1.push(probed(&chars_of("tsc"), &chars_of("TypeScript (npm install -g typescript)"), search_paths));
    tier1.push(probed(&chars_of("ruff"), &chars_of("Python (pip install ruff)"), search_paths));
    assert(status_rows(tier1@) =~= tier1_rows_s());
    DoctorReport { tier0, tier1 }
}

/// `  [{status:>7}] {binary} — {note}` for one row.
pub open spec fn report_row_s(t: ToolStatus) -> Seq<char> {
    "  ["@ + (if t.found {
        "     ok"@
    } else {
        "MISSING"@
    }) + "] "@ + t.binary@ + " — "@ + t.note@ + seq!['\n']
}

pub open spec fn report_rows_s(rows: Seq<ToolStatus>) -> Seq<char>
    decreases rows.len(),
{
    if rows.len() == 0 {
        Seq::<char>::empty()
    } else {
        report_rows_s(rows.drop_last()) + report_row_s(rows.last())
    }
}

/// The human report: both tiers, then the verdict on the required tools.
pub open spec fn format_report_s(r: DoctorReport) -> Seq<char> {
    "=== Tier 0 (required) ===\n"@ + report_rows_s(r.tier0@) + "\n=== Tier 1 (advisory) ===\n"@
        + report_rows_s(r.tier1@) + if tier0_ok_s(r.tier0@) {
        "\nAll required tools are present.\n"@
    } else {
        "\nA required tool is missing — fix the above before dispatching a phase.\n"@
    }
}

fn push_report_rows(out: &mut Vec<char>, rows: &Vec<ToolStatus>)
    ensures
        final(out)@ == old(out)@ + report_rows_s(rows@),
{
    let mut i: usize = 0;
    while i < rows.len()
        invariant
            i <= rows.len(),
            out@ == old(out)@ + report_rows_s(rows@.take(i as int)),
        decreases rows.len() - i,
    {
        assert(rows@.take(i + 1).drop_last() =~= rows@.take(i as int));
        let t = &rows[i];
        extend_str(out, "  [");
        extend_str(out, if t.found { "     ok" } else { "MISSING" });
        extend_str(out, "] ");
        extend_str(out, t.binary.as_str());
        extend_str(out, " — ");
        extend_str(out, t.note.as_str());
        out.push('\n');
        i += 1;
        assert(out@ =~= old(out)@ + report_rows_s(rows@.take(i as int)));
    }
    assert(rows@.take(rows.len() as int) =~= rows@);
}

/// Render the report as text.
pub fn format_report(report: &DoctorReport) -> (r: String)
    ensures
        r@ == format_report_s(*report),
{
    let mut out = chars_of("=== Tier 0 (required) ===\n");
    push_report_rows(&mut out, &report.tier0);
    extend_str(&mut out, "\n=== Tier 1 (advisory) ===\n");
    push_report_rows(&mut out, &report.tier1);
    if !report.tier0_ok() {
        extend_str(&mut out, "\nA required tool is missing — fix the above before dispatching a phase.\n");
    } else {
        extend_str(&mut out, "\nAll required tools are present.\n");
    }
    string_of(&out)
}

} // verus!
