//! Diff detection and body-line rendering for tool output in the Activity
//! pane, and the choice of a syntax for highlighting.
use vstd::prelude::*;
use crate::num::{dec_s, push_decimal};
use syntect::parsing::{SyntaxReference, SyntaxSet};
use crate::text::{
    chars_of, contains_s, contains_str, ends_with_s, extend_chars, extend_str, lines_of, lines_s,
    split_chars, split_s, starts_with_s, starts_with_str, string_of, trim_chars, trim_s, views,
};

verus! {

/// Max content lines shown per record before collapsing the rest.
pub const TRANSCRIPT_CONTENT_MAX_LINES: usize = 20;

/// Some line starts with `p`.
pub open spec fn some_line_starts(ls: Seq<Seq<char>>, p: Seq<char>) -> bool {
    exists|k: int| 0 <= k < ls.len() && starts_with_s(#[trigger] ls[k], p)
}

/// Content looks like unified diff output: a hunk marker line, a leading
/// `diff --git` header, or both a `--- ` and a `+++ ` header line.
pub open spec fn is_diff_s(s: Seq<char>) -> bool {
    let ls = lines_s(s);
    ||| some_line_starts(ls, "@@"@)
    ||| starts_with_s(trim_s(s), "diff --git"@)
    ||| (some_line_starts(ls, "--- "@) && some_line_starts(ls, "+++ "@))
}

fn any_line_starts(ls: &Vec<Vec<char>>, p: &str) -> (b: bool)
    ensures
        b == some_line_starts(views(ls@), p@),
{
    let mut k: usize = 0;
    while k < ls.len()
        invariant
            k <= ls.len(),
            forall|m: int| 0 <= m < k ==> !starts_with_s(#[trigger] views(ls@)[m], p@),
        decreases ls.len() - k,
    {
        if starts_with_str(&ls[k], p) {
            assert(views(ls@)[k as int] == ls@[k as int]@);
            return true;
        }
        assert(views(ls@)[k as int] == ls@[k as int]@);
        k += 1;
    }
    false
}

/// True when `content` looks like unified diff output.
pub fn is_diff_content(content: &str) -> (b: bool)
    ensures
        b == is_diff_s(content@),
{
    let v = chars_of(content);
    let ls = lines_of(&v);
    if any_line_starts(&ls, "@@") {
        return true;
    }
    let t = trim_chars(&v);
    if starts_with_str(&t, "diff --git") {
        return true;
    }
    any_line_starts(&ls, "--- ") && any_line_starts(&ls, "+++ ")
}

/// The indent of body lines.
pub open spec fn indent4() -> Seq<char> {
    "    "@
}

/// The line that stands for `n` hidden lines.
pub open spec fn more_lines_s(n: nat) -> Seq<char> {
    "    \u{2026} ("@ + dec_s(n) + " more lines)"@
}

/// `body` split on `\n` into lines indented by four spaces; past the cap,
/// the first lines are kept and one line says how many more there were.
pub open spec fn body_lines_s(body: Seq<char>) -> Seq<Seq<char>> {
    let all = split_s(body, '\n');
    let max = TRANSCRIPT_CONTENT_MAX_LINES as int;
    let shown = if all.len() <= max {
        all
    } else {
        all.take(max)
    };
    let ind = shown.map_values(|l: Seq<char>| indent4() + l);
    if all.len() <= max {
        ind
    } else {
        ind.push(more_lines_s((all.len() - max) as nat))
    }
}

fn more_lines(n: usize) -> (s: Vec<char>)
    ensures
        s@ == more_lines_s(n as nat),
{
    let mut v: Vec<char> = Vec::new();
    extend_str(&mut v, "    \u{2026} (");
    push_decimal(&mut v, n as u64);
    extend_str(&mut v, " more lines)");
    proof {
        reveal_strlit("    \u{2026} (");
        reveal_strlit(" more lines)");
    }
    v
}

/// Split `body` on newlines into indented display lines, collapsing the
/// lines past the cap into one count line.
pub fn body_lines(body: &str) -> (r: Vec<String>)
    ensures
        r@.map_values(|s: String| s@) == body_lines_s(body@),
{
    proof {
        reveal_strlit("    ");
    }
    let v = chars_of(body);
    let all = split_chars(&v, '\n');
    let n = all.len();
    let shown = if n <= TRANSCRIPT_CONTENT_MAX_LINES { n } else { TRANSCRIPT_CONTENT_MAX_LINES };
    let ghost a = split_s(body@, '\n');
    let mut out: Vec<String> = Vec::new();
    let mut k: usize = 0;
    while k < shown
        invariant
            k <= shown <= n,
            n == all.len(),
            views(all@) == a,
            out@.map_values(|s: String| s@) == a.take(k as int).map_values(|l: Seq<char>| indent4() + l),
        decreases shown - k,
    {
        let mut line: Vec<char> = Vec::new();
        extend_str(&mut line, "    ");
        extend_chars(&mut line, &all[k]);
        assert(views(all@)[k as int] == all@[k as int]@);
        let s = string_of(&line);
        let ghost before = out@.map_values(|s: String| s@);
        out.push(s);
        assert(out@.map_values(|s: String| s@) =~= before.push(indent4() + a[k as int]));
        assert(a.take(k + 1).map_values(|l: Seq<char>| indent4() + l) =~= a.take(k as int).map_values(
            |l: Seq<char>| indent4() + l,
        ).push(indent4() + a[k as int]));
        k += 1;
    }
    if n > TRANSCRIPT_CONTENT_MAX_LINES {
        let m = more_lines(n - TRANSCRIPT_CONTENT_MAX_LINES);
        let ghost before = out@.map_values(|s: String| s@);
        out.push(string_of(&m));
        assert(out@.map_values(|s: String| s@) =~= before.push(m@));
    } else {
        assert(a.take(n as int) =~= a);
    }
    out
}

/// How a diff body line is shown.
#[derive(Clone, Copy, Debug, PartialEq, Eq, Structural)]
pub enum DiffLineKind {
    /// `+…` (not a `+++` header).
    Added,
    /// `-…` (not a `---` header).
    Removed,
    /// `@@…` hunk marker.
    Hunk,
    /// Headers and context.
    Context,
    /// The count of lines past the cap.
    More,
}

pub open spec fn diff_kind_s(l: Seq<char>) -> DiffLineKind {
    if starts_with_s(l, "+"@) && !starts_with_s(l, "+++"@) {
        DiffLineKind::Added
    } else if starts_with_s(l, "-"@) && !starts_with_s(l, "---"@) {
        DiffLineKind::Removed
    } else if starts_with_s(l, "@@"@) {
        DiffLineKind::Hunk
    } else {
        DiffLineKind::Context
    }
}

/// Diff content as indented lines, each with its kind; past the cap, one
/// line counts the rest.
pub open spec fn diff_body_s(content: Seq<char>) -> Seq<(Seq<char>, DiffLineKind)> {
    let all = lines_s(content);
    let max = TRANSCRIPT_CONTENT_MAX_LINES as int;
    let shown = if all.len() <= max {
        all
    } else {
        all.take(max)
    };
    let body = shown.map_values(|l: Seq<char>| (indent4() + l, diff_kind_s(l)));
    if all.len() <= max {
        body
    } else {
        body.push((more_lines_s((all.len() - max) as nat), DiffLineKind::More))
    }
}

fn diff_kind(l: &Vec<char>) -> (k: DiffLineKind)
    ensures
        k == diff_kind_s(l@),
{
    if starts_with_str(l, "+") && !starts_with_str(l, "+++") {
        DiffLineKind::Added
    } else if starts_with_str(l, "-") && !starts_with_str(l, "---") {
        DiffLineKind::Removed
    } else if starts_with_str(l, "@@") {
        DiffLineKind::Hunk
    } else {
        DiffLineKind::Context
    }
}

pub open spec fn diff_lines_view(v: Seq<(String, DiffLineKind)>) -> Seq<(Seq<char>, DiffLineKind)> {
    v.map_values(|p: (String, DiffLineKind)| (p.0@, p.1))
}

/// Unified diff content as indented lines with their kinds (added, removed,
/// hunk marker, context), at most the cap, then a count of the rest.
pub fn diff_body_lines(content: &str) -> (r: Vec<(String, DiffLineKind)>)
    ensures
        diff_lines_view(r@) == diff_body_s(content@),
{
    proof {
        reveal_strlit("    ");
    }
    let v = chars_of(content);
    let all = lines_of(&v);
    let n = all.len();
    let shown = if n <= TRANSCRIPT_CONTENT_MAX_LINES { n } else { TRANSCRIPT_CONTENT_MAX_LINES };
    let ghost a = lines_s(content@);
    let mut out: Vec<(String, DiffLineKind)> = Vec::new();
    let mut k: usize = 0;
    while k < shown
        invariant
            k <= shown <= n,
            n == all.len(),
            views(all@) == a,
            diff_lines_view(out@) == a.take(k as int).map_values(
                |l: Seq<char>| (indent4() + l, diff_kind_s(l)),
            ),
        decreases shown - k,
    {
        let mut line: Vec<char> = Vec::new();
        extend_str(&mut line, "    ");
        extend_chars(&mut line, &all[k]);
        assert(views(all@)[k as int] == all@[k as int]@);
        let kind = diff_kind(&all[k]);
        let ghost before = diff_lines_view(out@);
        out.push((string_of(&line), kind));
        assert(diff_lines_view(out@) =~= before.push((indent4() + a[k as int], diff_kind_s(a[k as int]))));
        assert(a.take(k + 1).map_values(|l: Seq<char>| (indent4() + l, diff_kind_s(l))) =~= a.take(
            k as int,
        ).map_values(|l: Seq<char>| (indent4() + l, diff_kind_s(l))).push(
            (indent4() + a[k as int], diff_kind_s(a[k as int])),
        ));
        k += 1;
    }
    if n > TRANSCRIPT_CONTENT_MAX_LINES {
        let m = more_lines(n - TRANSCRIPT_CONTENT_MAX_LINES);
        let ghost before = diff_lines_view(out@);
        out.push((string_of(&m), DiffLineKind::More));
        assert(diff_lines_view(out@) =~= before.push((m@, DiffLineKind::More)));
    } else {
        assert(a.take(n as int) =~= a);
    }
    out
}

// ---------------------------------------------------------------------------
// Syntax choice
// ---------------------------------------------------------------------------

/// A line that, trimmed, is a `[section]` header with something inside.
pub open spec fn is_section_line(l: Seq<char>) -> bool {
    let t = trim_s(l);
    t.len() > 2 && t[0] == '[' && t[t.len() - 1] == ']'
}

/// The Rust keyword markers looked for in content.
pub open spec fn rust_markers() -> Seq<Seq<char>> {
    seq!["fn "@, "pub "@, "use "@, "impl "@, "struct "@, "enum "@, "let mut "@, "match "@]
}

/// How many markers of `ms` occur in `s`.
pub open spec fn marker_count(s: Seq<char>, ms: Seq<Seq<char>>) -> nat
    decreases ms.len(),
{
    if ms.len() == 0 {
        0
    } else {
        marker_count(s, ms.drop_last()) + if contains_s(s, ms.last()) {
            1nat
        } else {
            0nat
        }
    }
}

/// File extensions whose syntax the content is guessed to be, in the order
/// they are tried: `diff` for a `diff --git` or `---` opener, `json` for a
/// `{` or `[` opener, `toml` when some line is a `[section]` header, `rs`
/// when at least two Rust keyword markers occur.
pub open spec fn syntax_candidates_s(content: Seq<char>) -> Seq<Seq<char>> {
    let t = trim_s(content);
    let d = if starts_with_s(t, "diff --git"@) || starts_with_s(t, "---"@) {
        seq!["diff"@]
    } else {
        Seq::empty()
    };
    let j = if starts_with_s(t, "{"@) || starts_with_s(t, "["@) {
        seq!["json"@]
    } else {
        Seq::empty()
    };
    let tm = if exists|k: int| 0 <= k < lines_s(content).len() && is_section_line(#[trigger] lines_s(content)[k]) {
        seq!["toml"@]
    } else {
        Seq::empty()
    };
    let r = if marker_count(content, rust_markers()) >= 2 {
        seq!["rs"@]
    } else {
        Seq::empty()
    };
    d + j + tm + r
}

fn is_section_line_exec(l: &Vec<char>) -> (b: bool)
    ensures
        b == is_section_line(l@),
{
    let t = trim_chars(l);
    t.len() > 2 && t[0] == '[' && t[t.len() - 1] == ']'
}

fn rust_marker_count(v: &Vec<char>) -> (n: usize)
    ensures
        n == marker_count(v@, rust_markers()),
        n <= 8,
{
    let ms: [&str; 8] = ["fn ", "pub ", "use ", "impl ", "struct ", "enum ", "let mut ", "match "];
    proof {
        reveal_strlit("fn ");
        reveal_strlit("pub ");
        reveal_strlit("use ");
        reveal_strlit("impl ");
        reveal_strlit("struct ");
        reveal_strlit("enum ");
        reveal_strlit("let mut ");
        reveal_strlit("match ");
    }
    let ghost msv = rust_markers();
    assert(ms@.map_values(|m: &str| m@) =~= msv);
    let mut n: usize = 0;
    let mut k: usize = 0;
    while k < 8
        invariant
            k <= 8,
            msv == rust_markers(),
            ms@.map_values(|m: &str| m@) == msv,
            n == marker_count(v@, msv.take(k as int)),
            n <= k,
        decreases 8 - k,
    {
        assert(msv.take(k + 1).drop_last() =~= msv.take(k as int));
        assert(ms@.map_values(|m: &str| m@)[k as int] == ms@[k as int]@);
        if contains_str(v, ms[k]) {
            n += 1;
        }
        k += 1;
    }
    assert(msv.take(8) =~= msv);
    n
}

/// The extensions to try, in order, when choosing a highlighting syntax by
/// content alone.
pub fn syntax_candidates(content: &str) -> (r: Vec<&'static str>)
    ensures
        r@.map_values(|e: &'static str| e@) == syntax_candidates_s(content@),
{
    proof {
        reveal_strlit("diff");
        reveal_strlit("json");
        reveal_strlit("toml");
        reveal_strlit("rs");
    }
    let v = chars_of(content);
    let t = trim_chars(&v);
    let mut r: Vec<&'static str> = Vec::new();
    if starts_with_str(&t, "diff --git") || starts_with_str(&t, "---") {
        r.push("diff");
    }
    if starts_with_str(&t, "{") || starts_with_str(&t, "[") {
        r.push("json");
    }
    let ls = lines_of(&v);
    let mut has_section = false;
    let mut k: usize = 0;
    while k < ls.len()
        invariant
            k <= ls.len(),
            views(ls@) == lines_s(content@),
            has_section == exists|m: int| 0 <= m < k && is_section_line(#[trigger] lines_s(content@)[m]),
        decreases ls.len() - k,
    {
        assert(views(ls@)[k as int] == ls@[k as int]@);
        if is_section_line_exec(&ls[k]) {
            has_section = true;
        }
        k += 1;
    }
    if has_section {
        r.push("toml");
    }
    if rust_marker_count(&v) >= 2 {
        r.push("rs");
    }
    assert(r@.map_values(|e: &'static str| e@) =~= syntax_candidates_s(content@));
    r
}

#[verifier::external_type_specification]
#[verifier::external_body]
pub struct ExSyntaxSet(syntect::parsing::SyntaxSet);

#[verifier::external_type_specification]
#[verifier::external_body]
pub struct ExSyntaxReference(syntect::parsing::SyntaxReference);

/// What `SyntaxSet::find_syntax_by_first_line` gives for a set and a text.
pub uninterp spec fn first_line_syntax(ss: SyntaxSet, text: Seq<char>) -> Option<SyntaxReference>;

/// What `SyntaxSet::find_syntax_by_extension` gives for a set and an
/// extension.
pub uninterp spec fn ext_syntax(ss: SyntaxSet, ext: Seq<char>) -> Option<SyntaxReference>;

/// The syntax a looked-up reference stands for.
pub open spec fn deref_syntax(o: Option<&SyntaxReference>) -> Option<SyntaxReference> {
    match o {
        Some(x) => Some(*x),
        None => None,
    }
}

/// `syntect::parsing::SyntaxSet::find_syntax_by_first_line`: the syntax
/// (latest loaded first) whose first-line pattern matches the text. The
/// lookup reads only the set and the text, so its answer is named by
/// `first_line_syntax`; which syntax that is depends on what was loaded
/// into the set and is not stated.
#[verifier::external_body]
fn syntax_by_first_line<'a>(ss: &'a SyntaxSet, text: &str) -> (r: Option<&'a SyntaxReference>)
    ensures
        deref_syntax(r) == first_line_syntax(*ss, text@),
{
    ss.find_syntax_by_first_line(text)
}

/// `syntect::parsing::SyntaxSet::find_syntax_by_extension`: the syntax
/// (latest loaded first) registered for the extension, compared without
/// ASCII case. Its answer reads only the set and the extension and is named
/// by `ext_syntax`; which syntax it is depends on the set's contents.
#[verifier::external_body]
fn syntax_by_extension<'a>(ss: &'a SyntaxSet, ext: &str) -> (r: Option<&'a SyntaxReference>)
    ensures
        deref_syntax(r) == ext_syntax(*ss, ext@),
{
    ss.find_syntax_by_extension(ext)
}

/// `Path::extension` of a path, as text.
pub uninterp spec fn extension_of(path: Seq<char>) -> Option<Seq<char>>;

/// `std::path::Path::extension` (as UTF-8 text): the part of the file name
/// after its last dot, if any. Believed: a function of the path text alone.
#[verifier::external_body]
fn path_extension(path: &str) -> (r: Option<String>)
    ensures
        match r {
            Some(e) => extension_of(path@) == Some(e@),
            None => extension_of(path@) is None,
        },
{
    std::path::Path::new(path).extension().and_then(|e| e.to_str()).map(|e| e.to_string())
}

/// The syntax registered for the extension of `path`, if it has one.
pub open spec fn path_syntax_s(ss: SyntaxSet, path: Seq<char>) -> Option<SyntaxReference> {
    match extension_of(path) {
        Some(e) => ext_syntax(ss, e),
        None => None,
    }
}

/// Choose a syntax from a file path's extension (as for a tool call that
/// read that file); `None` when the path has no extension or the set has no
/// syntax for it.
pub fn syntax_for_path<'a>(path: &str, ss: &'a SyntaxSet) -> (r: Option<&'a SyntaxReference>)
    ensures
        deref_syntax(r) == path_syntax_s(*ss, path@),
{
    match path_extension(path) {
        Some(e) => syntax_by_extension(ss, e.as_str()),
        None => None,
    }
}

/// The first lookup that found something: `first` when it did, else the
/// earliest found entry of `rest`, else `None`.
pub open spec fn first_found_s<T>(first: Option<T>, rest: Seq<Option<T>>) -> Option<T>
    decreases rest.len(),
{
    if first is Some {
        first
    } else if rest.len() == 0 {
        None
    } else {
        first_found_s(rest[0], rest.drop_first())
    }
}

/// The syntax choice given the lookups' answers: the first-line lookup wins
/// when it found one; else the first extension lookup that did, in
/// candidate order; else none.
pub fn first_found<T: Copy>(first: Option<T>, rest: &Vec<Option<T>>) -> (r: Option<T>)
    ensures
        r == first_found_s(first, rest@),
{
    if first.is_some() {
        return first;
    }
    let mut k: usize = 0;
    assert(rest@.skip(0) =~= rest@);
    while k < rest.len()
        invariant
            k <= rest@.len(),
            first is None,
            first_found_s(first, rest@) == first_found_s(None, rest@.skip(k as int)),
        decreases rest@.len() - k,
    {
        let ghost tail = rest@.skip(k as int);
        assert(tail[0] == rest@[k as int]);
        assert(tail.drop_first() =~= rest@.skip(k + 1));
        assert(first_found_s(None, tail) == first_found_s(tail[0], tail.drop_first()));
        if rest[k].is_some() {
            return rest[k];
        }
        k += 1;
    }
    assert(rest@.skip(k as int).len() == 0);
    None
}

/// The syntax chosen for `content`: the first-line lookup's answer when it
/// found one, else the first extension of `syntax_candidates_s` whose
/// lookup found one, else none.
pub open spec fn detect_syntax_s(ss: SyntaxSet, content: Seq<char>) -> Option<SyntaxReference> {
    first_found_s(
        first_line_syntax(ss, content),
        syntax_candidates_s(content).map_values(|e: Seq<char>| ext_syntax(ss, e)),
    )
}

/// Choose a highlighting syntax from content alone: a first-line marker
/// (such as a shebang) wins; otherwise the first extension of
/// `syntax_candidates` that the set knows (`first_found`). `None` when
/// nothing fits. Which syntaxes the set holds is the caller's: the result
/// is stated over the lookups' named answers.
pub fn detect_syntax<'a>(content: &str, ss: &'a SyntaxSet) -> (r: Option<&'a SyntaxReference>)
    ensures
        deref_syntax(r) == detect_syntax_s(*ss, content@),
{
    let first = syntax_by_first_line(ss, content);
    if first.is_some() {
        return first;
    }
    let cands = syntax_candidates(content);
    let ghost names = syntax_candidates_s(content@).map_values(|e: Seq<char>| ext_syntax(*ss, e));
    let mut k: usize = 0;
    assert(names.skip(0) =~= names);
    while k < cands.len()
        invariant
            k <= cands@.len(),
            first_line_syntax(*ss, content@) is None,
            cands@.map_values(|e: &'static str| e@) == syntax_candidates_s(content@),
            names == syntax_candidates_s(content@).map_values(|e: Seq<char>| ext_syntax(*ss, e)),
            first_found_s(None, names) == first_found_s(None, names.skip(k as int)),
        decreases cands@.len() - k,
    {
        let ghost tail = names.skip(k as int);
        assert(tail[0] == ext_syntax(*ss, cands@[k as int]@)) by {
            assert(cands@.map_values(|e: &'static str| e@)[k as int] == cands@[k as int]@);
        }
        assert(tail.drop_first() =~= names.skip(k + 1));
        assert(first_found_s(None, tail) == first_found_s(tail[0], tail.drop_first()));
        let found = syntax_by_extension(ss, cands[k]);
        if found.is_some() {
            return found;
        }
        k += 1;
    }
    assert(names.skip(k as int).len() == 0);
    None
}

} // verus!
