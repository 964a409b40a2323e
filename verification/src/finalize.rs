//! Server-authored completion bookkeeping for phase docs: the `**Status:**`
//! flip to `review`, the appended completion entry, and the milestone
//! README's phase-table row flip.
use vstd::prelude::*;
use crate::text::{
    chars_eq_str, chars_of, contains, contains_s, extend_chars, extend_str, join_chars, join_s, lemma_join_split, occurs_at, lemma_split_len, split_chars, split_s, strip_cr,
    last_idx, lines_of, lines_s, pad_right_s, push_pad_right, push_repeat, repeat_s, rfind_char,
    slice_chars, starts_with_s, starts_with_str, string_of, trim_chars, trim_end_chars, trim_end_s,
    trim_s, trim_start_pos, trim_start_s, utf8_len, utf8_len_prefix, views,
};

verus! {

// ---------------------------------------------------------------------------
// Specifications
// ---------------------------------------------------------------------------

/// A trimmed line is a pre-review status line: `todo` or `in-progress`,
/// exactly or followed by a space-delimited note.
pub open spec fn pre_review_s(t: Seq<char>) -> bool {
    ||| t == "**Status:** todo"@
    ||| t == "**Status:** in-progress"@
    ||| starts_with_s(t, "**Status:** todo "@)
    ||| starts_with_s(t, "**Status:** in-progress "@)
}

/// Some line of `doc`, trimmed, is a pre-review status line.
pub open spec fn doc_pre_review_s(doc: Seq<char>) -> bool {
    exists|k: int| 0 <= k < lines_s(doc).len() && pre_review_s(trim_s(#[trigger] lines_s(doc)[k]))
}

/// `k` is the first line of `ls` that is a pre-review status line.
pub open spec fn first_pre_review(ls: Seq<Seq<char>>, k: int) -> bool {
    &&& 0 <= k < ls.len()
    &&& pre_review_s(trim_s(ls[k]))
    &&& forall|j: int| 0 <= j < k ==> !pre_review_s(trim_s(#[trigger] ls[j]))
}

/// The canonical review status line, keeping as many leading spaces as the
/// original line had bytes of leading whitespace.
pub open spec fn review_line_s(line: Seq<char>) -> Seq<char> {
    repeat_s(' ', utf8_len(line.take(line.len() - trim_start_s(line).len())))
        + "**Status:** review"@
}

/// A single `\n` when `doc` ends with one, else nothing.
pub open spec fn trailing_nl(doc: Seq<char>) -> Seq<char> {
    if doc.len() > 0 && doc.last() == '\n' {
        seq!['\n']
    } else {
        Seq::<char>::empty()
    }
}

/// `doc` with its first pre-review status line replaced by the review line
/// and every other byte kept: the text is cut into its `\n`-separated pieces,
/// the status line's piece gets the review line followed by whatever the
/// line ending left after the line's content (a `\r`, or nothing), and the
/// pieces are joined back. Unchanged when no line is pre-review.
pub open spec fn flip_status_s(doc: Seq<char>) -> Seq<char> {
    let ls = lines_s(doc);
    if exists|k: int| first_pre_review(ls, k) {
        let k = choose|k: int| first_pre_review(ls, k);
        let p = split_s(doc, '\n');
        join_s(p.update(k, review_line_s(ls[k]) + p[k].skip(ls[k].len() as int)), seq!['\n'])
    } else {
        doc
    }
}

/// The lines of a text are its `\n`-separated pieces with the line ending's
/// `\r` left off: line `k` is a prefix of piece `k`.
pub proof fn lemma_line_in_piece(doc: Seq<char>, k: int)
    requires
        0 <= k < lines_s(doc).len(),
    ensures
        k < split_s(doc, '\n').len(),
        lines_s(doc)[k].len() <= split_s(doc, '\n')[k].len(),
        split_s(doc, '\n')[k].take(lines_s(doc)[k].len() as int) == lines_s(doc)[k],
{
    lemma_split_len(doc, '\n');
    let p = split_s(doc, '\n');
    if k < p.len() - 1 {
        assert(lines_s(doc)[k] == strip_cr(p[k]));
        assert(p[k].take(strip_cr(p[k]).len() as int) =~= strip_cr(p[k]));
    } else {
        assert(lines_s(doc)[k] == p[k]);
        assert(p[k].take(p[k].len() as int) =~= p[k]);
    }
}

/// Flipping the status changes nothing but the status line: with no
/// pre-review line the text comes back byte for byte, and joining the
/// unchanged pieces back gives the text itself.
pub proof fn lemma_flip_keeps_rest(doc: Seq<char>)
    ensures
        join_s(split_s(doc, '\n'), seq!['\n']) == doc,
        !doc_pre_review_s(doc) ==> flip_status_s(doc) == doc,
{
    lemma_join_split(doc, '\n');
    if !doc_pre_review_s(doc) {
        assert forall|k: int| !first_pre_review(lines_s(doc), k) by {
            if first_pre_review(lines_s(doc), k) {
                assert(pre_review_s(trim_s(lines_s(doc)[k])));
            }
        }
    }
}

/// `doc` and `entry` with trailing whitespace removed, separated by one blank
/// line, ending with exactly one newline.
pub open spec fn append_entry_s(doc: Seq<char>, entry: Seq<char>) -> Seq<char> {
    trim_end_s(doc) + seq!['\n', '\n'] + trim_end_s(entry) + seq!['\n']
}

/// The table row with its last cell (between the final two `|`) replaced by
/// ` review `, padded to the old cell's width, when that cell trims to
/// something starting with `todo` or `in-progress`.
pub open spec fn flip_cell_s(line: Seq<char>) -> Option<Seq<char>> {
    let lp = last_idx(line, '|');
    let before = line.take(lp);
    let sp = last_idx(before, '|');
    if lp < 0 || sp < 0 {
        None
    } else {
        let raw = before.subrange(sp + 1, lp);
        let cell = trim_s(raw);
        if starts_with_s(cell, "todo"@) || starts_with_s(cell, "in-progress"@) {
            Some(
                line.take(sp + 1) + pad_right_s(" review "@, raw.len()) + seq!['|'] + line.skip(
                    lp + 1,
                ),
            )
        } else {
            None
        }
    }
}

/// The replacement for a README line, when it mentions `name` and its last
/// cell is pre-review.
pub open spec fn row_flip_s(line: Seq<char>, name: Seq<char>) -> Option<Seq<char>> {
    if contains_s(line, name) {
        flip_cell_s(line)
    } else {
        None
    }
}

/// `k` is the first README line that flips.
pub open spec fn first_row_flip(ls: Seq<Seq<char>>, name: Seq<char>, k: int) -> bool {
    &&& 0 <= k < ls.len()
    &&& row_flip_s(ls[k], name) is Some
    &&& forall|j: int| 0 <= j < k ==> row_flip_s(#[trigger] ls[j], name) is None
}

/// The README with its first flippable row flipped, or `None`.
pub open spec fn flip_readme_s(doc: Seq<char>, name: Seq<char>) -> Option<Seq<char>> {
    let ls = lines_s(doc);
    if exists|k: int| first_row_flip(ls, name, k) {
        let k = choose|k: int| first_row_flip(ls, name, k);
        Some(
            join_s(ls.update(k, row_flip_s(ls[k], name)->0), seq!['\n']) + trailing_nl(doc),
        )
    } else {
        None
    }
}

// ---------------------------------------------------------------------------
// Status line
// ---------------------------------------------------------------------------

/// True iff `trimmed` is a pre-review status line (`todo` or `in-progress`),
/// with or without a trailing note. The space before the note is the
/// delimiter, so `**Status:** todoish` does not match.
pub fn is_pre_review_status(trimmed: &str) -> (b: bool)
    ensures
        b == pre_review_s(trimmed@),
{
    let t = chars_of(trimmed);
    is_pre_review_chars(&t)
}

fn is_pre_review_chars(t: &Vec<char>) -> (b: bool)
    ensures
        b == pre_review_s(t@),
{
    chars_eq_str(t, "**Status:** todo") || chars_eq_str(t, "**Status:** in-progress")
        || starts_with_str(t, "**Status:** todo ") || starts_with_str(t, "**Status:** in-progress ")
}

/// Index of the first pre-review status line of `ls`, if any.
fn find_pre_review(ls: &Vec<Vec<char>>) -> (r: Option<usize>)
    ensures
        match r {
            Some(k) => first_pre_review(views(ls@), k as int),
            None => forall|j: int|
                0 <= j < ls.len() ==> !pre_review_s(trim_s(#[trigger] views(ls@)[j])),
        },
{
    let mut k: usize = 0;
    while k < ls.len()
        invariant
            k <= ls.len(),
            forall|j: int| 0 <= j < k ==> !pre_review_s(trim_s(#[trigger] views(ls@)[j])),
        decreases ls.len() - k,
    {
        let t = trim_chars(&ls[k]);
        assert(views(ls@)[k as int] == ls@[k as int]@);
        if is_pre_review_chars(&t) {
            return Some(k);
        }
        k += 1;
    }
    None
}

/// True iff some line, trimmed, is a pre-review status line.
pub fn status_is_pre_review(doc: &str) -> (b: bool)
    ensures
        b == doc_pre_review_s(doc@),
{
    let d = chars_of(doc);
    let ls = lines_of(&d);
    let r = find_pre_review(&ls);
    match r {
        Some(k) => {
            assert(pre_review_s(trim_s(lines_s(doc@)[k as int])));
            true
        },
        None => false,
    }
}

/// The review status line replacing `line`.
fn review_line(line: &Vec<char>) -> (r: Vec<char>)
    ensures
        r@ == review_line_s(line@),
{
    let i = trim_start_pos(line, line.len());
    assert(line@.take(line.len() as int) =~= line@);
    let leading = utf8_len_prefix(line, i);
    let mut r: Vec<char> = Vec::new();
    push_repeat(&mut r, ' ', leading);
    extend_str(&mut r, "**Status:** review");
    r
}

/// Appends a `\n` to `v` when `doc` ends with one.
fn push_trailing_nl(v: &mut Vec<char>, doc: &Vec<char>)
    ensures
        final(v)@ == old(v)@ + trailing_nl(doc@),
{
    if doc.len() > 0 && doc[doc.len() - 1] == '\n' {
        v.push('\n');
    }
    assert(v@ =~= old(v)@ + trailing_nl(doc@));
}

/// Replace the first status line that is pre-review (`todo` or
/// `in-progress`, with or without a note) with `**Status:** review`, leaving
/// every other line unchanged and keeping a trailing newline.
pub fn flip_status_to_review(doc: &str) -> (r: String)
    ensures
        r@ == flip_status_s(doc@),
{
    let d = chars_of(doc);
    let ls = lines_of(&d);
    let ghost orig = views(ls@);
    let found = find_pre_review(&ls);
    match found {
        Some(k) => {
            let mut pieces = split_chars(&d, '\n');
            proof {
                lemma_line_in_piece(d@, k as int);
                assert(ls@[k as int]@ == orig[k as int]);
                assert(views(pieces@)[k as int] == pieces@[k as int]@);
            }
            let mut piece = review_line(&ls[k]);
            let rest = slice_chars(&pieces[k], ls[k].len(), pieces[k].len());
            assert(rest@ =~= split_s(d@, '\n')[k as int].skip(orig[k as int].len() as int));
            extend_chars(&mut piece, &rest);
            let ghost before = views(pieces@);
            pieces.set(k, piece);
            proof {
                let kk = choose|kk: int| first_pre_review(orig, kk);
                assert(kk == k as int);
                assert(views(pieces@) =~= before.update(
                    k as int,
                    review_line_s(orig[k as int]) + before[k as int].skip(orig[k as int].len() as int),
                ));
            }
            let nl = vec!['\n'];
            assert(nl@ =~= seq!['\n']);
            let out = join_chars(&pieces, &nl);
            string_of(&out)
        },
        None => {
            assert(!exists|kk: int| first_pre_review(orig, kk));
            doc.to_string()
        },
    }
}

/// `doc` with `entry` appended at the end, separated by a blank line and
/// ending with a single newline.
pub fn append_entry(doc: &str, entry: &str) -> (r: String)
    ensures
        r@ == append_entry_s(doc@, entry@),
{
    let d = chars_of(doc);
    let e = chars_of(entry);
    let mut out = trim_end_chars(&d);
    out.push('\n');
    out.push('\n');
    let te = trim_end_chars(&e);
    extend_chars(&mut out, &te);
    out.push('\n');
    assert(out@ =~= append_entry_s(doc@, entry@));
    string_of(&out)
}

/// The phase doc after finalization: status flipped to review, then the
/// completion entry appended.
pub fn finalized_doc(doc: &str, entry: &str) -> (r: String)
    ensures
        r@ == append_entry_s(flip_status_s(doc@), entry@),
{
    let flipped = flip_status_to_review(doc);
    append_entry(flipped.as_str(), entry)
}

// ---------------------------------------------------------------------------
// README phase table
// ---------------------------------------------------------------------------

/// The row with its pre-review last cell replaced, if it has one.
fn flip_cell(line: &Vec<char>) -> (r: Option<Vec<char>>)
    ensures
        match r {
            Some(v) => flip_cell_s(line@) == Some(v@),
            None => flip_cell_s(line@) is None,
        },
{
    let lp = match rfind_char(line, '|') {
        Some(i) => i,
        None => return None,
    };
    let before = slice_chars(line, 0, lp);
    let sp = match rfind_char(&before, '|') {
        Some(i) => i,
        None => return None,
    };
    let raw = slice_chars(&before, sp + 1, lp);
    let cell = trim_chars(&raw);
    if starts_with_str(&cell, "todo") || starts_with_str(&cell, "in-progress") {
        let mut out = slice_chars(line, 0, sp + 1);
        assert(before@.take(sp + 1) =~= line@.take(sp + 1));
        let rep = chars_of(" review ");
        push_pad_right(&mut out, &rep, raw.len());
        out.push('|');
        let tail = slice_chars(line, lp + 1, line.len());
        extend_chars(&mut out, &tail);
        assert(line@.subrange(lp + 1, line.len() as int) =~= line@.skip(lp + 1));
        Some(out)
    } else {
        None
    }
}

/// Find the first table row that mentions `phase_doc_filename` and whose last
/// cell (text between the final two `|`, trimmed) starts with `todo` or
/// `in-progress`; replace that cell with ` review ` (dropping any note),
/// keeping the cell's width. `None` if no such row.
pub fn flip_readme_row(readme_doc: &str, phase_doc_filename: &str) -> (r: Option<String>)
    ensures
        match r {
            Some(s) => flip_readme_s(readme_doc@, phase_doc_filename@) == Some(s@),
            None => flip_readme_s(readme_doc@, phase_doc_filename@) is None,
        },
{
    let d = chars_of(readme_doc);
    let name = chars_of(phase_doc_filename);
    let mut ls = lines_of(&d);
    let ghost orig = views(ls@);
    let mut k: usize = 0;
    while k < ls.len()
        invariant
            k <= ls.len(),
            views(ls@) == orig,
            orig == lines_s(readme_doc@),
            name@ == phase_doc_filename@,
            d@ == readme_doc@,
            forall|j: int| 0 <= j < k ==> row_flip_s(#[trigger] orig[j], name@) is None,
        decreases ls.len() - k,
    {
        assert(orig[k as int] == ls@[k as int]@);
        if contains(&ls[k], &name) {
            match flip_cell(&ls[k]) {
                Some(new_line) => {
                    ls.set(k, new_line);
                    proof {
                        assert(first_row_flip(orig, name@, k as int));
                        let kk = choose|kk: int| first_row_flip(orig, name@, kk);
                        assert(kk == k as int);
                        assert(views(ls@) =~= orig.update(k as int, row_flip_s(orig[k as int], name@)->0));
                    }
                    let nl = vec!['\n'];
                    assert(nl@ =~= seq!['\n']);
                    let mut out = join_chars(&ls, &nl);
                    push_trailing_nl(&mut out, &d);
                    proof {
                        let kk = choose|kk: int| first_row_flip(orig, name@, kk);
                        assert(kk == k as int);
                        assert(out@ == join_s(orig.update(kk, row_flip_s(orig[kk], name@)->0), seq!['\n']) + trailing_nl(readme_doc@));
                    }
                    return Some(string_of(&out));
                },
                None => {},
            }
        }
        k += 1;
    }
    assert(!exists|kk: int| first_row_flip(orig, name@, kk));
    None
}

// ---------------------------------------------------------------------------
// Completion entry
// ---------------------------------------------------------------------------

/// Tails of the four gate commands' output; `None` when a gate was skipped.
#[derive(Clone, Debug, Default, PartialEq, Eq)]
pub struct CommandOutputs {
    pub format: Option<String>,
    pub build: Option<String>,
    pub lint: Option<String>,
    pub test: Option<String>,
}

/// One changed file and its numstat-style summary.
#[derive(Clone, Debug, PartialEq, Eq)]
pub struct FileChange {
    pub path: String,
    pub change_summary: String,
}

/// Status word of one gate: `run` or `skipped`.
pub open spec fn gate_status_s(present: bool) -> Seq<char> {
    if present {
        "run"@
    } else {
        "skipped"@
    }
}

pub open spec fn gate_line_s(o: CommandOutputs) -> Seq<char> {
    "format="@ + gate_status_s(o.format is Some) + ", build="@ + gate_status_s(o.build is Some) + ", lint="@
        + gate_status_s(o.lint is Some) + ", test="@ + gate_status_s(o.test is Some)
}

/// One labelled section per gate that produced output.
pub open spec fn tail_sections(o: CommandOutputs) -> Seq<Seq<char>> {
    let a = match o.format {
        Some(t) => seq!["FORMAT\n"@ + t@],
        None => Seq::<Seq<char>>::empty(),
    };
    let b = match o.build {
        Some(t) => a.push("BUILD\n"@ + t@),
        None => a,
    };
    let c = match o.lint {
        Some(t) => b.push("LINT\n"@ + t@),
        None => b,
    };
    match o.test {
        Some(t) => c.push("TEST\n"@ + t@),
        None => c,
    }
}

pub open spec fn command_output_tails_s(o: CommandOutputs) -> Seq<char> {
    if tail_sections(o).len() == 0 {
        "(no command output captured)"@
    } else {
        join_s(tail_sections(o), "\n\n"@)
    }
}

/// Each piece of a join occurs in the joined text.
pub proof fn lemma_join_contains(parts: Seq<Seq<char>>, sep: Seq<char>, k: int)
    requires
        0 <= k < parts.len(),
    ensures
        contains_s(join_s(parts, sep), parts[k]),
    decreases parts.len(),
{
    let j = join_s(parts, sep);
    if parts.len() == 1 {
        assert(j.subrange(0, parts[k].len() as int) =~= parts[k]);
        assert(occurs_at(j, parts[k], 0));
    } else if k == parts.len() - 1 {
        let pre = join_s(parts.drop_last(), sep) + sep;
        assert(j == pre + parts.last());
        assert(j.subrange(pre.len() as int, (pre.len() + parts[k].len()) as int) =~= parts[k]);
        assert(occurs_at(j, parts[k], pre.len() as int));
    } else {
        lemma_join_contains(parts.drop_last(), sep, k);
        let pj = join_s(parts.drop_last(), sep);
        assert(parts.drop_last()[k] == parts[k]);
        let i = choose|i: int| occurs_at(pj, parts[k], i);
        assert(j == pj + sep + parts.last());
        assert(j.subrange(i, i + parts[k].len()) =~= pj.subrange(i, i + parts[k].len()));
        assert(occurs_at(j, parts[k], i));
    }
}

proof fn lemma_push_keeps(s: Seq<Seq<char>>, x: Seq<char>, y: Seq<char>)
    requires
        s.contains(x),
    ensures
        s.push(y).contains(x),
        s.push(y).contains(y),
{
    let i = choose|i: int| 0 <= i < s.len() && s[i] == x;
    assert(s.push(y)[i] == x);
    assert(s.push(y)[s.len() as int] == y);
}

/// Every gate with captured output has its section in the tails text: the
/// gate's label (`FORMAT`, `BUILD`, `LINT`, `TEST`), a newline, and the
/// captured output; with no output at all the text is the placeholder.
pub proof fn lemma_tails_keep_every_gate(o: CommandOutputs)
    ensures
        o.format matches Some(t) ==> contains_s(command_output_tails_s(o), "FORMAT\n"@ + t@),
        o.build matches Some(t) ==> contains_s(command_output_tails_s(o), "BUILD\n"@ + t@),
        o.lint matches Some(t) ==> contains_s(command_output_tails_s(o), "LINT\n"@ + t@),
        o.test matches Some(t) ==> contains_s(command_output_tails_s(o), "TEST\n"@ + t@),
        (o.format is None && o.build is None && o.lint is None && o.test is None) ==> command_output_tails_s(o)
            == "(no command output captured)"@,
{
    let a = match o.format {
        Some(t) => seq!["FORMAT\n"@ + t@],
        None => Seq::<Seq<char>>::empty(),
    };
    let b = match o.build {
        Some(t) => a.push("BUILD\n"@ + t@),
        None => a,
    };
    let c = match o.lint {
        Some(t) => b.push("LINT\n"@ + t@),
        None => b,
    };
    let d = tail_sections(o);
    if let Some(t) = o.format {
        assert(a[0] == "FORMAT\n"@ + t@);
        assert(a.contains("FORMAT\n"@ + t@));
    }
    if let Some(t) = o.build {
        if let Some(f) = o.format {
            lemma_push_keeps(a, "FORMAT\n"@ + f@, "BUILD\n"@ + t@);
        } else {
            assert(b[0] == "BUILD\n"@ + t@);
        }
        assert(b.contains("BUILD\n"@ + t@));
    } else if let Some(f) = o.format {
        assert(b.contains("FORMAT\n"@ + f@));
    }
    if let Some(t) = o.lint {
        assert(c[b.len() as int] == "LINT\n"@ + t@);
        assert(c.contains("LINT\n"@ + t@));
        if let Some(f) = o.format {
            lemma_push_keeps(b, "FORMAT\n"@ + f@, "LINT\n"@ + t@);
        }
        if let Some(g) = o.build {
            lemma_push_keeps(b, "BUILD\n"@ + g@, "LINT\n"@ + t@);
        }
    }
    if let Some(t) = o.test {
        assert(d[c.len() as int] == "TEST\n"@ + t@);
        assert(d.contains("TEST\n"@ + t@));
        if let Some(f) = o.format {
            lemma_push_keeps(c, "FORMAT\n"@ + f@, "TEST\n"@ + t@);
        }
        if let Some(g) = o.build {
            lemma_push_keeps(c, "BUILD\n"@ + g@, "TEST\n"@ + t@);
        }
        if let Some(l) = o.lint {
            lemma_push_keeps(c, "LINT\n"@ + l@, "TEST\n"@ + t@);
        }
    }
    assert forall|x: Seq<char>| d.contains(x) implies contains_s(command_output_tails_s(o), x) by {
        let k = choose|k: int| 0 <= k < d.len() && d[k] == x;
        lemma_join_contains(d, "\n\n"@, k);
    }
}

pub open spec fn file_line_s(f: FileChange) -> Seq<char> {
    "- `"@ + f.path@ + "` — "@ + f.change_summary@
}

pub open spec fn files_changed_list_s(files: Seq<FileChange>) -> Seq<char> {
    if files.len() == 0 {
        "(none)"@
    } else {
        join_s(files.map_values(|f: FileChange| file_line_s(f)), seq!['\n'])
    }
}

/// Every changed file is listed, as `- `path` — summary`; with no files
/// the list is `(none)`.
pub proof fn lemma_files_list_names_every_file(files: Seq<FileChange>)
    ensures
        forall|k: int| 0 <= k < files.len() ==> contains_s(files_changed_list_s(files), "- `"@ + (#[trigger] files[k]).path@ + "` — "@ + files[k].change_summary@),
        files.len() == 0 ==> files_changed_list_s(files) == "(none)"@,
{
    assert forall|k: int| 0 <= k < files.len() implies contains_s(files_changed_list_s(files), "- `"@ + (#[trigger] files[k]).path@ + "` — "@ + files[k].change_summary@) by {
        let parts = files.map_values(|f: FileChange| file_line_s(f));
        assert(parts[k] == file_line_s(files[k]));
        lemma_join_contains(parts, seq!['\n'], k);
    }
}

/// The trimmed executor summary, or a placeholder when blank.
pub open spec fn summary_s(summary: Seq<char>) -> Seq<char> {
    if trim_s(summary).len() == 0 {
        "(no summary provided by executor)"@
    } else {
        trim_s(summary)
    }
}

pub open spec fn baseline_entry_s(
    summary: Seq<char>,
    o: CommandOutputs,
    files: Seq<FileChange>,
    stamp: Seq<char>,
    code_sha: Seq<char>,
    model: Seq<char>,
) -> Seq<char> {
    "### Update — "@ + stamp + " (complete, server-authored)\n\n**Summary:** "@ + summary_s(summary)
        + "\n\n**Executor:** "@ + model + "\n\n**Gates:** "@ + gate_line_s(o)
        + "\n\n**Command output tails:**\n\n```\n"@ + command_output_tails_s(o)
        + "\n```\n\n**Files changed:**\n\n"@ + files_changed_list_s(files) + "\n\n**Commit:** "@
        + code_sha
        + "\n\n**Notes:** server-authored completion entry (executor no longer owns the bookkeeping tail; see M27 phase-03).\n"@
}

/// Status word of one gate: `run` or `skipped`.
pub fn gate_status(tail: Option<&String>) -> (r: &'static str)
    ensures
        r@ == gate_status_s(tail is Some),
{
    match tail {
        Some(_) => "run",
        None => "skipped",
    }
}

/// `format=…, build=…, lint=…, test=…` with each gate `run` or `skipped`.
pub fn gate_line(outputs: &CommandOutputs) -> (r: String)
    ensures
        r@ == gate_line_s(*outputs),
{
    let mut v: Vec<char> = Vec::new();
    extend_str(&mut v, "format=");
    extend_str(&mut v, gate_status(outputs.format.as_ref()));
    extend_str(&mut v, ", build=");
    extend_str(&mut v, gate_status(outputs.build.as_ref()));
    extend_str(&mut v, ", lint=");
    extend_str(&mut v, gate_status(outputs.lint.as_ref()));
    extend_str(&mut v, ", test=");
    extend_str(&mut v, gate_status(outputs.test.as_ref()));
    assert(v@ =~= gate_line_s(*outputs));
    string_of(&v)
}

/// One section for a gate's tail, labelled.
fn section(label: &str, tail: &String) -> (r: Vec<char>)
    ensures
        r@ == label@ + tail@,
{
    let mut v = chars_of(label);
    let t = chars_of(tail.as_str());
    extend_chars(&mut v, &t);
    v
}

/// The captured gate outputs as labelled sections separated by blank
/// lines, or a placeholder when nothing was captured.
pub fn command_output_tails(outputs: &CommandOutputs) -> (r: String)
    ensures
        r@ == command_output_tails_s(*outputs),
{
    let mut sections: Vec<Vec<char>> = Vec::new();
    if let Some(t) = &outputs.format {
        sections.push(section("FORMAT\n", t));
    }
    if let Some(t) = &outputs.build {
        sections.push(section("BUILD\n", t));
    }
    if let Some(t) = &outputs.lint {
        sections.push(section("LINT\n", t));
    }
    if let Some(t) = &outputs.test {
        sections.push(section("TEST\n", t));
    }
    assert(views(sections@) =~= tail_sections(*outputs));
    if sections.len() == 0 {
        "(no command output captured)".to_string()
    } else {
        let sep = chars_of("\n\n");
        let v = join_chars(&sections, &sep);
        string_of(&v)
    }
}

/// One bullet per changed file (`` - `path` — summary ``), or `(none)`.
pub fn files_changed_list(files: &Vec<FileChange>) -> (r: String)
    ensures
        r@ == files_changed_list_s(files@),
{
    if files.len() == 0 {
        return "(none)".to_string();
    }
    let mut items: Vec<Vec<char>> = Vec::new();
    let mut i: usize = 0;
    while i < files.len()
        invariant
            i <= files.len(),
            views(items@) == files@.take(i as int).map_values(|f: FileChange| file_line_s(f)),
        decreases files.len() - i,
    {
        let mut v = chars_of("- `");
        extend_str(&mut v, files[i].path.as_str());
        extend_str(&mut v, "` — ");
        extend_str(&mut v, files[i].change_summary.as_str());
        let ghost before = views(items@);
        items.push(v);
        assert(views(items@) =~= before.push(file_line_s(files@[i as int])));
        assert(files@.take(i + 1).map_values(|f: FileChange| file_line_s(f)) =~= files@.take(
            i as int,
        ).map_values(|f: FileChange| file_line_s(f)).push(file_line_s(files@[i as int])));
        i += 1;
    }
    assert(files@.take(files.len() as int) =~= files@);
    let nl = vec!['\n'];
    assert(nl@ =~= seq!['\n']);
    let v = join_chars(&items, &nl);
    string_of(&v)
}

/// The server-authored completion entry: timestamped heading, summary,
/// the dispatched model as the authoritative executor, gate line, command
/// output tails, changed files and the code commit.
pub fn baseline_entry(
    completion_summary: &str,
    outputs: &CommandOutputs,
    files: &Vec<FileChange>,
    stamp: &str,
    code_sha: &str,
    model: &str,
) -> (r: String)
    ensures
        r@ == baseline_entry_s(completion_summary@, *outputs, files@, stamp@, code_sha@, model@),
{
    let sv = chars_of(completion_summary);
    let st = trim_chars(&sv);
    let summary = if st.len() == 0 {
        chars_of("(no summary provided by executor)")
    } else {
        st
    };
    let gates = gate_line(outputs);
    let tails = command_output_tails(outputs);
    let fl = files_changed_list(files);
    let mut v = chars_of("### Update — ");
    extend_str(&mut v, stamp);
    extend_str(&mut v, " (complete, server-authored)\n\n**Summary:** ");
    extend_chars(&mut v, &summary);
    extend_str(&mut v, "\n\n**Executor:** ");
    extend_str(&mut v, model);
    extend_str(&mut v, "\n\n**Gates:** ");
    extend_str(&mut v, gates.as_str());
    extend_str(&mut v, "\n\n**Command output tails:**\n\n```\n");
    extend_str(&mut v, tails.as_str());
    extend_str(&mut v, "\n```\n\n**Files changed:**\n\n");
    extend_str(&mut v, fl.as_str());
    extend_str(&mut v, "\n\n**Commit:** ");
    extend_str(&mut v, code_sha);
    extend_str(
        &mut v,
        "\n\n**Notes:** server-authored completion entry (executor no longer owns the bookkeeping tail; see M27 phase-03).\n",
    );
    assert(v@ =~= baseline_entry_s(completion_summary@, *outputs, files@, stamp@, code_sha@, model@));
    string_of(&v)
}

/// The code commit for the entry: trimmed `git rev-parse HEAD` output on
/// success, `unknown` on failure.
pub fn head_from_output(success: bool, output: &str) -> (r: String)
    ensures
        r@ == (if success { trim_s(output@) } else { "unknown"@ }),
{
    if success {
        let o = chars_of(output);
        let t = trim_chars(&o);
        string_of(&t)
    } else {
        "unknown".to_string()
    }
}

/// `git add -- <paths…>`: stages exactly the given doc paths.
pub fn git_add_command(paths: &Vec<String>) -> (r: String)
    ensures
        r@ == "git add -- "@ + join_s(paths@.map_values(|p: String| p@), seq![' ']),
{
    let mut parts: Vec<Vec<char>> = Vec::new();
    let mut i: usize = 0;
    while i < paths.len()
        invariant
            i <= paths.len(),
            views(parts@) == paths@.take(i as int).map_values(|p: String| p@),
        decreases paths.len() - i,
    {
        let ghost before = views(parts@);
        parts.push(chars_of(paths[i].as_str()));
        assert(views(parts@) =~= before.push(paths@[i as int]@));
        assert(paths@.take(i + 1).map_values(|p: String| p@) =~= paths@.take(i as int).map_values(
            |p: String| p@,
        ).push(paths@[i as int]@));
        i += 1;
    }
    assert(paths@.take(paths.len() as int) =~= paths@);
    let sp = vec![' '];
    assert(sp@ =~= seq![' ']);
    let joined = join_chars(&parts, &sp);
    let mut v = chars_of("git add -- ");
    extend_chars(&mut v, &joined);
    string_of(&v)
}

} // verus!
