//! Phase-doc parsing for the phase runner: section extraction, the
//! `**Tags:**` line, phase and milestone ids from paths, and input warnings.
use vstd::prelude::*;
use crate::num::{is_digit, is_digit_char};
use crate::text::{
    chars_of, contains_s, extend_chars, extend_str, find_from, is_blank, join_chars, join_s,
    lines_of, lines_s, occurs_at, slice_chars, split_chars, split_s, starts_with, starts_with_s,
    starts_with_str, string_of, trim_chars, trim_s, views,
};

verus! {

/// Parsed fields from a phase-doc markdown file.
pub struct PhaseDocFields {
    pub goal: String,
    pub acceptance_criteria: String,
    pub tags: Vec<String>,
}

// ---------------------------------------------------------------------------
// Sections
// ---------------------------------------------------------------------------

/// First index at or after `from` whose trimmed line starts with `p`, or
/// `ls.len()`.
pub open spec fn first_prefixed_from(ls: Seq<Seq<char>>, p: Seq<char>, from: int) -> int
    decreases ls.len() - from,
{
    if from < 0 || from >= ls.len() {
        ls.len() as int
    } else if starts_with_s(trim_s(ls[from]), p) {
        from
    } else {
        first_prefixed_from(ls, p, from + 1)
    }
}

/// Body of the section headed `## {heading}`: the lines after the first
/// line whose trimmed form starts with that heading, up to the next line
/// whose trimmed form starts with `#`, joined and trimmed. Empty when there
/// is no such heading.
pub open spec fn extract_section_s(md: Seq<char>, heading: Seq<char>) -> Seq<char> {
    let ls = lines_s(md);
    let start = first_prefixed_from(ls, "## "@ + heading, 0);
    if start >= ls.len() {
        Seq::<char>::empty()
    } else {
        let end = first_prefixed_from(ls, seq!['#'], start + 1);
        trim_s(join_s(ls.subrange(start + 1, end), seq!['\n']))
    }
}

proof fn lemma_first_prefixed_bounds(ls: Seq<Seq<char>>, p: Seq<char>, from: int)
    requires
        0 <= from <= ls.len(),
    ensures
        from <= first_prefixed_from(ls, p, from) <= ls.len(),
    decreases ls.len() - from,
{
    if from < ls.len() && !starts_with_s(trim_s(ls[from]), p) {
        lemma_first_prefixed_bounds(ls, p, from + 1);
    }
}

/// First index at or after `from` whose trimmed line starts with `p`.
fn find_prefixed(ls: &Vec<Vec<char>>, p: &Vec<char>, from: usize) -> (r: usize)
    requires
        from <= ls.len(),
    ensures
        r as int == first_prefixed_from(views(ls@), p@, from as int),
        from <= r <= ls.len(),
{
    let mut i = from;
    while i < ls.len()
        invariant
            from <= i <= ls.len(),
            first_prefixed_from(views(ls@), p@, from as int) == first_prefixed_from(
                views(ls@),
                p@,
                i as int,
            ),
        decreases ls.len() - i,
    {
        assert(views(ls@)[i as int] == ls@[i as int]@);
        let t = trim_chars(&ls[i]);
        if starts_with(&t, p) {
            return i;
        }
        i += 1;
    }
    i
}

/// Extract a section body from a markdown string: the lines after the first
/// heading line starting with `## {heading}`, up to the next heading (`#`)
/// or EOF, joined and trimmed.
pub fn extract_section(markdown: &str, heading: &str) -> (r: String)
    ensures
        r@ == extract_section_s(markdown@, heading@),
{
    let md = chars_of(markdown);
    let ls = lines_of(&md);
    let mut prefix = chars_of("## ");
    extend_str(&mut prefix, heading);
    let start = find_prefixed(&ls, &prefix, 0);
    if start >= ls.len() {
        return String::new();
    }
    let hash = vec!['#'];
    assert(hash@ =~= seq!['#']);
    let end = find_prefixed(&ls, &hash, start + 1);
    let mut body: Vec<Vec<char>> = Vec::new();
    let mut i = start + 1;
    while i < end
        invariant
            start + 1 <= i <= end <= ls.len(),
            views(body@) == views(ls@).subrange(start + 1, i as int),
        decreases end - i,
    {
        let ghost before = views(body@);
        let line = slice_chars(&ls[i], 0, ls[i].len());
        assert(line@ =~= ls@[i as int]@);
        body.push(line);
        assert(views(body@) =~= before.push(ls@[i as int]@));
        assert(views(ls@).subrange(start + 1, i + 1) =~= views(ls@).subrange(start + 1, i as int).push(
            views(ls@)[i as int],
        ));
        i += 1;
    }
    let nl = vec!['\n'];
    assert(nl@ =~= seq!['\n']);
    let joined = join_chars(&body, &nl);
    let t = trim_chars(&joined);
    string_of(&t)
}

// ---------------------------------------------------------------------------
// Tags
// ---------------------------------------------------------------------------

/// First index of a line containing `p`, or `ls.len()`.
pub open spec fn first_containing_from(ls: Seq<Seq<char>>, p: Seq<char>, from: int) -> int
    decreases ls.len() - from,
{
    if from < 0 || from >= ls.len() {
        ls.len() as int
    } else if contains_s(ls[from], p) {
        from
    } else {
        first_containing_from(ls, p, from + 1)
    }
}

/// First position at or after `from` where `p` occurs in `s`, or -1.
pub open spec fn first_occurrence_from(s: Seq<char>, p: Seq<char>, from: int) -> int
    decreases s.len() + 1 - from,
{
    if from < 0 || from > s.len() {
        -1
    } else if occurs_at(s, p, from) {
        from
    } else {
        first_occurrence_from(s, p, from + 1)
    }
}

/// The trimmed, non-empty pieces of `ps`, in order.
pub open spec fn nonempty_trimmed(ps: Seq<Seq<char>>) -> Seq<Seq<char>>
    decreases ps.len(),
{
    if ps.len() == 0 {
        Seq::<Seq<char>>::empty()
    } else {
        let rest = nonempty_trimmed(ps.drop_last());
        if trim_s(ps.last()).len() == 0 {
            rest
        } else {
            rest.push(trim_s(ps.last()))
        }
    }
}

/// The text after the first `**Tags:**` of a line, up to the next one.
pub open spec fn after_tags_marker(line: Seq<char>) -> Seq<char> {
    let m = "**Tags:**"@;
    let i = first_occurrence_from(line, m, 0);
    let rest = line.skip(i + m.len());
    let j = first_occurrence_from(rest, m, 0);
    if j < 0 {
        rest
    } else {
        rest.take(j)
    }
}

/// Tags from the first line containing `**Tags:**`: the comma-separated
/// items after the marker, trimmed, empties dropped.
pub open spec fn parse_tags_s(md: Seq<char>) -> Seq<Seq<char>> {
    let ls = lines_s(md);
    let k = first_containing_from(ls, "**Tags:**"@, 0);
    if k >= ls.len() {
        Seq::<Seq<char>>::empty()
    } else {
        nonempty_trimmed(split_s(after_tags_marker(ls[k]), ','))
    }
}

/// First position at or after `from` where `p` occurs, as `first_occurrence_from`.
fn find_occurrence(v: &Vec<char>, p: &Vec<char>, from: usize) -> (r: Option<usize>)
    requires
        from <= v.len(),
    ensures
        match r {
            Some(i) => i as int == first_occurrence_from(v@, p@, from as int) && occurs_at(
                v@,
                p@,
                i as int,
            ),
            None => first_occurrence_from(v@, p@, from as int) == -1 && forall|k: int|
                from <= k ==> !occurs_at(v@, p@, k),
        },
{
    let r = find_from(v, p, from);
    proof {
        lemma_first_occurrence(v@, p@, from as int, r);
    }
    r
}

proof fn lemma_first_occurrence(s: Seq<char>, p: Seq<char>, from: int, r: Option<usize>)
    requires
        0 <= from <= s.len(),
        match r {
            Some(i) => from <= i && occurs_at(s, p, i as int) && forall|k: int|
                from <= k < i ==> !occurs_at(s, p, k),
            None => forall|k: int| from <= k ==> !occurs_at(s, p, k),
        },
    ensures
        match r {
            Some(i) => i as int == first_occurrence_from(s, p, from),
            None => first_occurrence_from(s, p, from) == -1,
        },
    decreases s.len() + 1 - from,
{
    reveal_with_fuel(first_occurrence_from, 2);
    match r {
        Some(i) => {
            if from < i {
                assert(!occurs_at(s, p, from));
                lemma_first_occurrence(s, p, from + 1, r);
            } else {
                assert(from == i);
                assert(occurs_at(s, p, from));
            }
        },
        None => {
            if from < s.len() {
                lemma_first_occurrence(s, p, from + 1, r);
            }
        },
    }
}

/// Trimmed non-empty pieces.
fn nonempty_trimmed_exec(ps: &Vec<Vec<char>>) -> (r: Vec<String>)
    ensures
        r@.map_values(|s: String| s@) == nonempty_trimmed(views(ps@)),
{
    let mut out: Vec<String> = Vec::new();
    let mut i: usize = 0;
    while i < ps.len()
        invariant
            i <= ps.len(),
            out@.map_values(|s: String| s@) == nonempty_trimmed(views(ps@).take(i as int)),
        decreases ps.len() - i,
    {
        let ghost prev = views(ps@).take(i as int);
        assert(views(ps@).take(i + 1).drop_last() =~= prev);
        assert(views(ps@).take(i + 1).last() == ps@[i as int]@);
        let t = trim_chars(&ps[i]);
        if t.len() > 0 {
            let ghost before = out@.map_values(|s: String| s@);
            out.push(string_of(&t));
            assert(out@.map_values(|s: String| s@) =~= before.push(t@));
        }
        i += 1;
    }
    assert(views(ps@).take(ps.len() as int) =~= views(ps@));
    out
}

/// Parse the `**Tags:**` frontmatter line into individual tags.
pub fn parse_tags(markdown: &str) -> (r: Vec<String>)
    ensures
        r@.map_values(|s: String| s@) == parse_tags_s(markdown@),
{
    let md = chars_of(markdown);
    let ls = lines_of(&md);
    let marker = chars_of("**Tags:**");
    let mut k: usize = 0;
    while k < ls.len()
        invariant
            k <= ls.len(),
            views(ls@) == lines_s(markdown@),
            marker@ == "**Tags:**"@,
            first_containing_from(views(ls@), marker@, 0) == first_containing_from(
                views(ls@),
                marker@,
                k as int,
            ),
        decreases ls.len() - k,
    {
        assert(views(ls@)[k as int] == ls@[k as int]@);
        let found = find_occurrence(&ls[k], &marker, 0);
        if let Some(i) = found {
            assert(occurs_at(ls@[k as int]@, marker@, i as int));
            assert(contains_s(ls@[k as int]@, marker@));
            assert(k as int == first_containing_from(views(ls@), marker@, k as int));
            let line = &ls[k];
            assert(i + marker@.len() <= line@.len());
            let mlen = marker.len();
            let ll = line.len();
            assert(i + mlen <= ll);
            let lo = i + mlen;
            let rest = slice_chars(line, lo, ll);
            assert(rest@ =~= line@.skip(i + marker@.len()));
            let after = match find_occurrence(&rest, &marker, 0) {
                Some(j) => {
                    let a = slice_chars(&rest, 0, j);
                    assert(a@ =~= rest@.take(j as int));
                    a
                },
                None => rest,
            };
            assert(after@ == after_tags_marker(views(ls@)[k as int]));
            let pieces = split_chars(&after, ',');
            return nonempty_trimmed_exec(&pieces);
        } else {
            assert(!contains_s(ls@[k as int]@, marker@));
        }
        k += 1;
    }
    Vec::new()
}

/// The goal, acceptance criteria and tags of a phase doc.
pub open spec fn phase_doc_fields_s(md: Seq<char>, f: PhaseDocFields) -> bool {
    &&& f.goal@ == extract_section_s(md, "Goal"@)
    &&& f.acceptance_criteria@ == extract_section_s(md, "Acceptance criteria"@)
    &&& f.tags@.map_values(|s: String| s@) == parse_tags_s(md)
}

/// Parse a phase-doc markdown string into structured fields.
pub fn parse_phase_doc(markdown: &str) -> (r: PhaseDocFields)
    ensures
        phase_doc_fields_s(markdown@, r),
{
    PhaseDocFields {
        goal: extract_section(markdown, "Goal"),
        acceptance_criteria: extract_section(markdown, "Acceptance criteria"),
        tags: parse_tags(markdown),
    }
}

// ---------------------------------------------------------------------------
// Input warnings
// ---------------------------------------------------------------------------

pub open spec fn standards_warning() -> Seq<char> {
    "STANDARDS.md is empty or missing at <repo>/docs/dev/STANDARDS.md — the executor ran without a Definition of Done. Confirm the file exists and is readable."@
}

pub open spec fn goal_warning() -> Seq<char> {
    "Phase doc has no parseable '## Goal' section — the executor ran without a stated goal. Confirm the heading is exactly '## Goal'."@
}

pub open spec fn criteria_warning() -> Seq<char> {
    "Phase doc has no parseable '## Acceptance criteria' section. Confirm the heading is exactly '## Acceptance criteria'."@
}

/// One warning per blank input, in the order standards, goal, criteria.
pub open spec fn input_warnings_s(standards: Seq<char>, goal: Seq<char>, criteria: Seq<char>) -> Seq<
    Seq<char>,
> {
    let a = if trim_s(standards).len() == 0 {
        seq![standards_warning()]
    } else {
        Seq::<Seq<char>>::empty()
    };
    let b = if trim_s(goal).len() == 0 {
        a.push(goal_warning())
    } else {
        a
    };
    if trim_s(criteria).len() == 0 {
        b.push(criteria_warning())
    } else {
        b
    }
}

/// Non-fatal warnings about a phase run's inputs: a blank STANDARDS string
/// or an unparsed Goal / Acceptance-criteria section each means the executor
/// is running degraded.
pub fn collect_input_warnings(standards: &str, goal: &str, acceptance_criteria: &str) -> (r: Vec<
    String,
>)
    ensures
        r@.map_values(|s: String| s@) == input_warnings_s(standards@, goal@, acceptance_criteria@),
{
    let mut warnings: Vec<String> = Vec::new();
    let s = chars_of(standards);
    let g = chars_of(goal);
    let a = chars_of(acceptance_criteria);
    if is_blank(&s) {
        warnings.push(
            "STANDARDS.md is empty or missing at <repo>/docs/dev/STANDARDS.md — the executor ran without a Definition of Done. Confirm the file exists and is readable.".to_string(),
        );
    }
    let ghost w1 = warnings@.map_values(|s: String| s@);
    if is_blank(&g) {
        warnings.push(
            "Phase doc has no parseable '## Goal' section — the executor ran without a stated goal. Confirm the heading is exactly '## Goal'.".to_string(),
        );
        assert(warnings@.map_values(|s: String| s@) =~= w1.push(goal_warning()));
    }
    let ghost w2 = warnings@.map_values(|s: String| s@);
    if is_blank(&a) {
        warnings.push(
            "Phase doc has no parseable '## Acceptance criteria' section. Confirm the heading is exactly '## Acceptance criteria'.".to_string(),
        );
        assert(warnings@.map_values(|s: String| s@) =~= w2.push(criteria_warning()));
    }
    assert(warnings@.map_values(|s: String| s@) =~= input_warnings_s(
        standards@,
        goal@,
        acceptance_criteria@,
    ));
    warnings
}

// ---------------------------------------------------------------------------
// Ids from paths
// ---------------------------------------------------------------------------

/// `Path::file_stem` of `path`, as text.
pub uninterp spec fn file_stem_of(path: Seq<char>) -> Option<Seq<char>>;

/// `Path::parent` then `Path::file_name` of `path`, as text.
pub uninterp spec fn parent_name_of(path: Seq<char>) -> Option<Seq<char>>;

/// `std::path::Path::file_stem`: the final component without its
/// extension. Believed: the result is a function of the path text alone.
#[verifier::external_body]
pub(crate) fn path_file_stem(path: &str) -> (r: Option<String>)
    ensures
        match r {
            Some(s) => file_stem_of(path@) == Some(s@),
            None => file_stem_of(path@) is None,
        },
{
    std::path::Path::new(path).file_stem().and_then(|s| s.to_str()).map(|s| s.to_string())
}

/// `std::path::Path::parent` followed by `file_name`: the name of the
/// directory holding `path`. Believed: a function of the path text alone.
#[verifier::external_body]
fn path_parent_name(path: &str) -> (r: Option<String>)
    ensures
        match r {
            Some(s) => parent_name_of(path@) == Some(s@),
            None => parent_name_of(path@) is None,
        },
{
    std::path::Path::new(path).parent().and_then(|p| p.file_name()).and_then(|s| s.to_str()).map(
        |s| s.to_string(),
    )
}

/// Number of leading ASCII digits of `s`.
pub open spec fn lead_digits(s: Seq<char>) -> nat
    decreases s.len(),
{
    if s.len() == 0 || !is_digit(s[0]) {
        0
    } else {
        1 + lead_digits(s.drop_first())
    }
}

/// `phase-NN…` → `phase-NN`; anything else unchanged.
pub open spec fn phase_id_from_stem_s(stem: Seq<char>) -> Seq<char> {
    if starts_with_s(stem, "phase-"@) && lead_digits(stem.skip(6)) > 0 {
        stem.take(6 + lead_digits(stem.skip(6)) as int)
    } else {
        stem
    }
}

pub fn count_lead_digits(v: &Vec<char>, from: usize) -> (n: usize)
    requires
        from <= v.len(),
    ensures
        n == lead_digits(v@.skip(from as int)),
        from + n <= v.len(),
{
    let mut i = from;
    while i < v.len() && is_digit_char(v[i])
        invariant
            from <= i <= v.len(),
            lead_digits(v@.skip(from as int)) == (i - from) + lead_digits(v@.skip(i as int)),
        decreases v.len() - i,
    {
        assert(v@.skip(i as int).drop_first() =~= v@.skip(i + 1));
        i += 1;
    }
    i - from
}

/// The short phase id from a file stem: `phase-01-phase-runner` →
/// `phase-01`; a stem without `phase-` followed by digits is returned whole.
pub fn phase_id_from_stem(stem: &str) -> (r: String)
    ensures
        r@ == phase_id_from_stem_s(stem@),
{
    let v = chars_of(stem);
    if starts_with_str(&v, "phase-") {
        assert("phase-"@.len() == 6) by {
            reveal_strlit("phase-");
        }
        let n = count_lead_digits(&v, 6);
        if n > 0 {
            let t = slice_chars(&v, 0, 6 + n);
            assert(t@ =~= v@.take(6 + n));
            return string_of(&t);
        }
    }
    string_of(&v)
}

/// Derive a short phase id from a file path stem:
/// `phase-01-phase-runner.md` → `"phase-01"`; non-matching → whole stem.
pub fn derive_phase_id(path: &str) -> (r: String)
    ensures
        r@ == phase_id_from_stem_s(
            match file_stem_of(path@) {
                Some(s) => s,
                None => Seq::<char>::empty(),
            },
        ),
{
    match path_file_stem(path) {
        Some(stem) => {
            let r = phase_id_from_stem(stem.as_str());
            assert(file_stem_of(path@) == Some(stem@));
            r
        },
        None => {
            proof {
                reveal_strlit("");
                assert(""@ =~= Seq::<char>::empty());
            }
            phase_id_from_stem("")
        },
    }
}

/// A directory name that looks like `M<digit>…` is a milestone slug.
pub open spec fn milestone_slug_s(name: Seq<char>) -> Option<Seq<char>> {
    if name.len() >= 2 && name[0] == 'M' && is_digit(name[1]) {
        Some(name)
    } else {
        None
    }
}

/// The milestone slug from a directory name: `M17-dashboard-polish-3` is
/// kept, anything not starting with `M` and a digit is `None`.
pub fn milestone_id_from_dir_name(name: &str) -> (r: Option<String>)
    ensures
        match r {
            Some(s) => milestone_slug_s(name@) == Some(s@),
            None => milestone_slug_s(name@) is None,
        },
{
    let v = chars_of(name);
    if v.len() >= 2 && v[0] == 'M' && is_digit_char(v[1]) {
        Some(string_of(&v))
    } else {
        None
    }
}

/// Derive the milestone directory slug from a phase-doc path:
/// `…/milestones/M17-dashboard-polish-3/phase-09.md` →
/// `Some("M17-dashboard-polish-3")`; `None` when the immediate parent does
/// not look like `M<n>-…`.
pub fn milestone_id_from_path(path: &str) -> (r: Option<String>)
    ensures
        match parent_name_of(path@) {
            Some(n) => match r {
                Some(s) => milestone_slug_s(n) == Some(s@),
                None => milestone_slug_s(n) is None,
            },
            None => r is None,
        },
{
    match path_parent_name(path) {
        Some(n) => milestone_id_from_dir_name(n.as_str()),
        None => None,
    }
}

/// The telemetry directory a phase run writes to: none when telemetry is
/// switched off for the run, else the configured one.
pub fn resolve_telemetry_dir(cfg_dir: Option<&str>, no_telemetry: bool) -> (r: Option<&str>)
    ensures
        r == (if no_telemetry {
            None
        } else {
            cfg_dir
        }),
{
    if no_telemetry {
        None
    } else {
        cfg_dir
    }
}

} // verus!
