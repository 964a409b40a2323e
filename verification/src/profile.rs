//! Model capability profiles: which failure classes count against a model,
//! the ranking of failure classes, gate outcomes, the review-to-run key, and
//! the text of the weaknesses column and phase labels.
use vstd::prelude::*;
use crate::num::{dec_s, push_decimal};
use crate::runner::{file_stem_of, path_file_stem};
use crate::text::{chars_eq_str, chars_of, extend_chars, extend_str, join_chars, join_s, string_of, views};

verus! {

/// Failure classes that are not the model's doing: no failure, the
/// architect's spec bug, a transient backend blip.
pub open spec fn is_model_attributable_s(class: Seq<char>) -> bool {
    class != "none"@ && class != "spec_bug"@ && class != "infra_blip"@
}

/// False for failure classes that must not be charged against a model's
/// competency (`none`, `spec_bug`, `infra_blip`), true for everything else.
pub fn is_model_attributable(class: &str) -> (b: bool)
    ensures
        b == is_model_attributable_s(class@),
{
    let v = chars_of(class);
    !(chars_eq_str(&v, "none") || chars_eq_str(&v, "spec_bug") || chars_eq_str(&v, "infra_blip"))
}

/// One failure class and how many reviews in the bucket carried it.
pub struct FailureClassCount {
    pub class: String,
    pub count: usize,
}

/// `class×count`, parenthesized when the class is not the model's doing.
pub open spec fn weakness_entry_s(c: FailureClassCount) -> Seq<char> {
    let e = c.class@ + "\u{d7}"@ + dec_s(c.count as nat);
    if is_model_attributable_s(c.class@) {
        e
    } else {
        "("@ + e + ")"@
    }
}

/// The weaknesses column: the entries joined by spaces, `—` when none.
pub open spec fn format_weaknesses_s(cs: Seq<FailureClassCount>) -> Seq<char> {
    if cs.len() == 0 {
        "\u{2014}"@
    } else {
        join_s(cs.map_values(|c: FailureClassCount| weakness_entry_s(c)), " "@)
    }
}

/// Render ranked failure classes as `class×count` entries joined by spaces;
/// non-attributable classes are parenthesized.
pub fn format_weaknesses(classes: &Vec<FailureClassCount>) -> (r: String)
    ensures
        r@ == format_weaknesses_s(classes@),
{
    proof {
        reveal_strlit("\u{2014}");
        reveal_strlit("\u{d7}");
        reveal_strlit("(");
        reveal_strlit(")");
        reveal_strlit(" ");
    }
    if classes.len() == 0 {
        return "\u{2014}".to_string();
    }
    let mut entries: Vec<Vec<char>> = Vec::new();
    let mut k: usize = 0;
    while k < classes.len()
        invariant
            k <= classes.len(),
            views(entries@) == classes@.take(k as int).map_values(|c: FailureClassCount| weakness_entry_s(c)),
        decreases classes.len() - k,
    {
        let c = &classes[k];
        let mut e = chars_of(c.class.as_str());
        extend_str(&mut e, "\u{d7}");
        push_decimal(&mut e, c.count as u64);
        let entry = if is_model_attributable(c.class.as_str()) {
            e
        } else {
            let mut p = chars_of("(");
            extend_chars(&mut p, &e);
            extend_str(&mut p, ")");
            p
        };
        let ghost before = views(entries@);
        entries.push(entry);
        assert(views(entries@) =~= before.push(weakness_entry_s(classes@[k as int])));
        assert(classes@.take(k + 1).map_values(|c: FailureClassCount| weakness_entry_s(c)) =~= classes@.take(
            k as int,
        ).map_values(|c: FailureClassCount| weakness_entry_s(c)).push(weakness_entry_s(classes@[k as int])));
        k += 1;
    }
    assert(classes@.take(classes.len() as int) =~= classes@);
    let sep = chars_of(" ");
    let joined = join_chars(&entries, &sep);
    string_of(&joined)
}

/// Outcome of each verification gate of a run (`None`: not run).
pub struct Gates {
    pub fmt: Option<bool>,
    pub build: Option<bool>,
    pub lint: Option<bool>,
    pub test: Option<bool>,
}

/// Every gate ran and passed.
pub fn gates_all_pass(gates: &Gates) -> (b: bool)
    ensures
        b == (gates.fmt == Some(true) && gates.build == Some(true) && gates.lint == Some(true)
            && gates.test == Some(true)),
{
    gates.fmt == Some(true) && gates.build == Some(true) && gates.lint == Some(true) && gates.test == Some(true)
}

/// How a review is matched to runs: by phase-doc path when it has one,
/// else by phase id and project id (an absent project as empty).
pub enum RecordKey {
    Path(String),
    IdProject(String, String),
}

pub open spec fn key_view(k: RecordKey) -> (bool, Seq<char>, Seq<char>) {
    match k {
        RecordKey::Path(p) => (true, p@, Seq::empty()),
        RecordKey::IdProject(i, p) => (false, i@, p@),
    }
}

pub open spec fn record_key_s(phase_doc_path: Option<String>, phase_id: Seq<char>, project_id: Option<String>) -> (bool, Seq<char>, Seq<char>) {
    match phase_doc_path {
        Some(p) => (true, p@, Seq::empty()),
        None => (
            false,
            phase_id,
            match project_id {
                Some(p) => p@,
                None => Seq::empty(),
            },
        ),
    }
}

/// How keys match: a record with a phase-doc path is keyed by that path
/// alone, so two such records share a key exactly when their paths are
/// equal, whatever their phase and project ids; such a key never equals
/// the key of a record without a path; records without a path share a key
/// exactly when their phase ids and project ids (absent as empty) agree.
pub proof fn lemma_record_key_matching(
    p1: String,
    p2: String,
    i1: Seq<char>,
    i2: Seq<char>,
    pr1: Option<String>,
    pr2: Option<String>,
)
    ensures
        record_key_s(Some(p1), i1, pr1).0,
        record_key_s(Some(p1), i1, pr1).1 == p1@,
        (record_key_s(Some(p1), i1, pr1) == record_key_s(Some(p2), i2, pr2)) == (p1@ == p2@),
        record_key_s(Some(p1), i1, pr1) != record_key_s(None, i2, pr2),
        (record_key_s(None, i1, pr1) == record_key_s(None, i2, pr2)) == (i1 == i2 && (match pr1 {
            Some(p) => p@,
            None => Seq::<char>::empty(),
        }) == (match pr2 {
            Some(p) => p@,
            None => Seq::<char>::empty(),
        })),
{
}

/// The matching key of a run or a review.
pub fn record_key(phase_doc_path: &Option<String>, phase_id: &String, project_id: &Option<String>) -> (k: RecordKey)
    ensures
        key_view(k) == record_key_s(*phase_doc_path, phase_id@, *project_id),
{
    match phase_doc_path {
        Some(p) => RecordKey::Path(p.clone()),
        None => RecordKey::IdProject(
            phase_id.clone(),
            match project_id {
                Some(p) => p.clone(),
                None => String::new(),
            },
        ),
    }
}

/// Token counts of a phase, by class.
pub struct PhaseTokens {
    pub input_tokens: u64,
    pub output_tokens: u64,
    pub cache_read_tokens: u64,
    pub cache_write_tokens: u64,
}

impl Default for PhaseTokens {
    fn default() -> (t: Self)
        ensures
            t.input_tokens == 0 && t.output_tokens == 0 && t.cache_read_tokens == 0 && t.cache_write_tokens == 0,
    {
        PhaseTokens { input_tokens: 0, output_tokens: 0, cache_read_tokens: 0, cache_write_tokens: 0 }
    }
}

/// What it took to ship one phase.
pub struct PhaseCost {
    pub phase_id: String,
    pub phase_doc_path: Option<String>,
    pub milestone_id: Option<String>,
    pub model: String,
    pub attempts: u32,
    pub verdict: String,
    pub tokens: PhaseTokens,
}

/// The phase label: the doc path's file stem when there is a path with a
/// stem, else the phase id.
pub open spec fn phase_label_s(row: PhaseCost) -> Seq<char> {
    match row.phase_doc_path {
        Some(p) => match file_stem_of(p@) {
            Some(s) => s,
            None => row.phase_id@,
        },
        None => row.phase_id@,
    }
}

/// Derive the human phase label: file stem from `phase_doc_path` when
/// present, falling back to `phase_id`.
pub fn phase_label_str(row: &PhaseCost) -> (r: String)
    ensures
        r@ == phase_label_s(*row),
{
    match &row.phase_doc_path {
        Some(p) => match path_file_stem(p.as_str()) {
            Some(s) => s,
            None => row.phase_id.clone(),
        },
        None => row.phase_id.clone(),
    }
}

// ---------------------------------------------------------------------------
// Ranking failure classes
// ---------------------------------------------------------------------------

/// Lexicographic order of texts by character. Character order is code
/// point order, which is also the byte order of their UTF-8 encodings, so
/// this is the order `String`'s `Ord` uses.
pub open spec fn lex_lt(a: Seq<char>, b: Seq<char>) -> bool
    decreases a.len(),
{
    if a.len() == 0 {
        b.len() > 0
    } else if b.len() == 0 {
        false
    } else if a[0] != b[0] {
        a[0] < b[0]
    } else {
        lex_lt(a.drop_first(), b.drop_first())
    }
}

pub proof fn lemma_lex_total(a: Seq<char>, b: Seq<char>)
    ensures
        lex_lt(a, b) || lex_lt(b, a) || a == b,
        !(lex_lt(a, b) && lex_lt(b, a)),
    decreases a.len(),
{
    if a.len() > 0 && b.len() > 0 && a[0] == b[0] {
        lemma_lex_total(a.drop_first(), b.drop_first());
        if a.drop_first() == b.drop_first() {
            assert(a =~= seq![a[0]] + a.drop_first());
            assert(b =~= seq![b[0]] + b.drop_first());
        }
    } else if a.len() == 0 && b.len() == 0 {
        assert(a =~= b);
    }
}

pub proof fn lemma_lex_trans(a: Seq<char>, b: Seq<char>, c: Seq<char>)
    requires
        lex_lt(a, b),
        lex_lt(b, c),
    ensures
        lex_lt(a, c),
    decreases a.len(),
{
    if a.len() > 0 && b.len() > 0 && c.len() > 0 && a[0] == b[0] && b[0] == c[0] {
        lemma_lex_trans(a.drop_first(), b.drop_first(), c.drop_first());
    }
}

pub fn chars_lt(a: &Vec<char>, b: &Vec<char>) -> (r: bool)
    ensures
        r == lex_lt(a@, b@),
{
    let mut i: usize = 0;
    assert(a@.skip(0) =~= a@);
    assert(b@.skip(0) =~= b@);
    while i < a.len() && i < b.len() && a[i] == b[i]
        invariant
            i <= a.len(),
            i <= b.len(),
            lex_lt(a@, b@) == lex_lt(a@.skip(i as int), b@.skip(i as int)),
        decreases a.len() - i,
    {
        assert(a@.skip(i as int).drop_first() =~= a@.skip(i + 1));
        assert(b@.skip(i as int).drop_first() =~= b@.skip(i + 1));
        i += 1;
    }
    if i == a.len() {
        i < b.len()
    } else if i == b.len() {
        false
    } else {
        a[i] < b[i]
    }
}

/// How often `c` occurs in `s`.
pub open spec fn occurrences(s: Seq<Seq<char>>, c: Seq<char>) -> nat
    decreases s.len(),
{
    if s.len() == 0 {
        0
    } else {
        occurrences(s.drop_last(), c) + if s.last() == c {
            1nat
        } else {
            0nat
        }
    }
}

/// `x` ranks before `y`: a higher count, or an equal count and a class
/// earlier in lexicographic order.
pub open spec fn ranked_before(x: FailureClassCount, y: FailureClassCount) -> bool {
    x.count > y.count || (x.count == y.count && lex_lt(x.class@, y.class@))
}

proof fn lemma_ranked_trans(x: FailureClassCount, y: FailureClassCount, z: FailureClassCount)
    requires
        ranked_before(x, y),
        ranked_before(y, z),
    ensures
        ranked_before(x, z),
{
    if x.count == y.count && y.count == z.count {
        lemma_lex_trans(x.class@, y.class@, z.class@);
    }
}

proof fn lemma_ranked_total(x: FailureClassCount, y: FailureClassCount)
    requires
        x.class@ != y.class@,
    ensures
        ranked_before(x, y) || ranked_before(y, x),
{
    lemma_lex_total(x.class@, y.class@);
}

/// The ranking of a bucket's failure classes: every class but `none`
/// appears once, with the number of times it was given, ordered by count
/// (descending) and then class (ascending).
pub open spec fn is_ranking(classes: Seq<Seq<char>>, out: Seq<FailureClassCount>) -> bool {
    &&& forall|k: int|
        0 <= k < out.len() ==> (#[trigger] out[k]).class@ != "none"@ && out[k].count == occurrences(
            classes,
            out[k].class@,
        ) && out[k].count > 0
    &&& forall|i: int|
        0 <= i < classes.len() && classes[i] != "none"@ ==> exists|k: int| 0 <= k < out.len() && (#[trigger] out[k]).class@ == #[trigger] classes[i]
    &&& forall|k: int, m: int| 0 <= k < m < out.len() ==> ranked_before(#[trigger] out[k], #[trigger] out[m])
}

proof fn lemma_occ_push(s: Seq<Seq<char>>, x: Seq<char>, c: Seq<char>)
    ensures
        occurrences(s.push(x), c) == occurrences(s, c) + if x == c {
            1nat
        } else {
            0nat
        },
{
    assert(s.push(x).drop_last() =~= s);
}

proof fn lemma_occ_pos(s: Seq<Seq<char>>, i: int)
    requires
        0 <= i < s.len(),
    ensures
        occurrences(s, s[i]) > 0,
    decreases s.len(),
{
    if i < s.len() - 1 {
        lemma_occ_pos(s.drop_last(), i);
    }
}

fn find_class(counts: &Vec<FailureClassCount>, c: &String) -> (r: Option<usize>)
    ensures
        match r {
            Some(k) => k < counts@.len() && counts@[k as int].class@ == c@,
            None => forall|m: int| 0 <= m < counts@.len() ==> (#[trigger] counts@[m]).class@ != c@,
        },
{
    let mut k: usize = 0;
    while k < counts.len()
        invariant
            k <= counts.len(),
            forall|m: int| 0 <= m < k ==> (#[trigger] counts@[m]).class@ != c@,
        decreases counts.len() - k,
    {
        if counts[k].class == *c {
            return Some(k);
        }
        k += 1;
    }
    None
}

pub open spec fn ranked_sorted(s: Seq<FailureClassCount>) -> bool {
    forall|k: int, m: int| 0 <= k < m < s.len() ==> ranked_before(#[trigger] s[k], #[trigger] s[m])
}

fn ranks_before(x: &FailureClassCount, xc: &Vec<char>, o: &FailureClassCount) -> (b: bool)
    requires
        xc@ == x.class@,
    ensures
        b == ranked_before(*x, *o),
{
    x.count > o.count || (x.count == o.count && chars_lt(xc, &chars_of(o.class.as_str())))
}

/// Insert `x` where the ranking puts it.
fn insert_ranked(out: &mut Vec<FailureClassCount>, x: FailureClassCount) -> (p: usize)
    requires
        ranked_sorted(old(out)@),
        forall|q: int| 0 <= q < old(out)@.len() ==> (#[trigger] old(out)@[q]).class@ != x.class@,
    ensures
        p <= old(out)@.len(),
        final(out)@ == old(out)@.insert(p as int, x),
        ranked_sorted(final(out)@),
{
    let xc = chars_of(x.class.as_str());
    let mut p: usize = 0;
    while p < out.len() && !ranks_before(&x, &xc, &out[p])
        invariant
            p <= out@.len(),
            xc@ == x.class@,
            forall|q: int| 0 <= q < p ==> !ranked_before(x, #[trigger] out@[q]),
        decreases out.len() - p,
    {
        p += 1;
    }
    let ghost old_out = out@;
    assert(p == old_out.len() || ranked_before(x, old_out[p as int]));
    out.insert(p, x);
    proof {
        assert forall|k: int, m: int| 0 <= k < m < out@.len() implies ranked_before(#[trigger] out@[k], #[trigger] out@[m]) by {
            if k < p && m < p {
                assert(out@[k] == old_out[k] && out@[m] == old_out[m]);
            } else if k < p && m == p {
                assert(out@[k] == old_out[k]);
                lemma_ranked_total(x, old_out[k]);
            } else if k < p && m > p {
                assert(out@[k] == old_out[k] && out@[m] == old_out[m - 1]);
            } else if k == p {
                assert(out@[m] == old_out[m - 1]);
                if m - 1 > p {
                    assert(ranked_before(old_out[p as int], old_out[m - 1]));
                    lemma_ranked_trans(x, old_out[p as int], old_out[m - 1]);
                }
            } else {
                assert(out@[k] == old_out[k - 1] && out@[m] == old_out[m - 1]);
            }
        }
    }
    p
}

/// Rank failure classes: count each class (skipping `none`), then order by
/// count descending, ties by class ascending.
#[verifier::rlimit(40)]
pub fn rank_failure_classes(classes: &Vec<String>) -> (out: Vec<FailureClassCount>)
    ensures
        is_ranking(classes@.map_values(|c: String| c@), out@),
{
    proof {
        reveal_strlit("none");
    }
    let ghost cs = classes@.map_values(|c: String| c@);
    // Count, in first-seen order.
    let mut counts: Vec<FailureClassCount> = Vec::new();
    let mut i: usize = 0;
    while i < classes.len()
        invariant
            i <= classes.len(),
            cs == classes@.map_values(|c: String| c@),
            forall|k: int|
                0 <= k < counts@.len() ==> (#[trigger] counts@[k]).class@ != "none"@ && counts@[k].count
                    == occurrences(cs.take(i as int), counts@[k].class@) && counts@[k].count > 0,
            forall|j: int|
                0 <= j < i && cs[j] != "none"@ ==> exists|k: int| 0 <= k < counts@.len() && (#[trigger] counts@[k]).class@ == #[trigger] cs[j],
            forall|k: int, m: int| 0 <= k < m < counts@.len() ==> (#[trigger] counts@[k]).class@ != (#[trigger] counts@[m]).class@,
            counts@.len() <= i,
        decreases classes.len() - i,
    {
        let c = &classes[i];
        assert(cs[i as int] == c@);
        assert(cs.take(i + 1) =~= cs.take(i as int).push(c@));
        if chars_eq_str(&chars_of(c.as_str()), "none") {
            proof {
                assert forall|k: int| 0 <= k < counts@.len() implies (#[trigger] counts@[k]).count == occurrences(cs.take(i + 1), counts@[k].class@) by {
                    lemma_occ_push(cs.take(i as int), c@, counts@[k].class@);
                }
            }
        } else {
            match find_class(&counts, c) {
                Some(k) => {
                    let ghost old_counts = counts@;
                    let cnt = counts[k].count;
                    let cls = counts[k].class.clone();
                    assert(cnt <= i) by {
                        assert(occurrences(cs.take(i as int), old_counts[k as int].class@) <= i) by {
                            lemma_occ_le(cs.take(i as int), old_counts[k as int].class@);
                        }
                    }
                    counts.set(k, FailureClassCount { class: cls, count: cnt + 1 });
                    proof {
                        assert forall|m: int| 0 <= m < counts@.len() implies (#[trigger] counts@[m]).count == occurrences(cs.take(i + 1), counts@[m].class@) by {
                            lemma_occ_push(cs.take(i as int), c@, old_counts[m].class@);
                        }
                        assert forall|j: int| 0 <= j < i + 1 && cs[j] != "none"@ implies exists|m: int| 0 <= m < counts@.len() && (#[trigger] counts@[m]).class@ == #[trigger] cs[j] by {
                            if j < i {
                                let w = choose|w: int| 0 <= w < old_counts.len() && (#[trigger] old_counts[w]).class@ == cs[j];
                                assert(counts@[w].class@ == cs[j]);
                            } else {
                                assert(counts@[k as int].class@ == cs[j]);
                            }
                        }
                    }
                },
                None => {
                    let ghost old_counts = counts@;
                    counts.push(FailureClassCount { class: c.clone(), count: 1 });
                    proof {
                        assert forall|m: int| 0 <= m < counts@.len() implies (#[trigger] counts@[m]).count == occurrences(cs.take(i + 1), counts@[m].class@) by {
                            lemma_occ_push(cs.take(i as int), c@, counts@[m].class@);
                            if m == old_counts.len() {
                                lemma_occ_absent(cs.take(i as int), c@, old_counts);
                            }
                        }
                        assert forall|j: int| 0 <= j < i + 1 && cs[j] != "none"@ implies exists|m: int| 0 <= m < counts@.len() && (#[trigger] counts@[m]).class@ == #[trigger] cs[j] by {
                            if j < i {
                                let w = choose|w: int| 0 <= w < old_counts.len() && (#[trigger] old_counts[w]).class@ == cs[j];
                                assert(counts@[w].class@ == cs[j]);
                            } else {
                                assert(counts@[old_counts.len() as int].class@ == cs[j]);
                            }
                        }
                    }
                },
            }
        }
        i += 1;
    }
    assert(cs.take(classes.len() as int) =~= cs);
    // Insert each count into place.
    let mut out: Vec<FailureClassCount> = Vec::new();
    let mut t: usize = 0;
    while t < counts.len()
        invariant
            t <= counts.len(),
            forall|k: int| 0 <= k < counts@.len() ==> (#[trigger] counts@[k]).class@ != "none"@ && counts@[k].count == occurrences(cs, counts@[k].class@) && counts@[k].count > 0,
            forall|k: int, m: int| 0 <= k < m < counts@.len() ==> (#[trigger] counts@[k]).class@ != (#[trigger] counts@[m]).class@,
            forall|k: int| 0 <= k < out@.len() ==> counts@.take(t as int).contains(#[trigger] out@[k]),
            forall|q: int| 0 <= q < t ==> out@.contains(#[trigger] counts@[q]),
            ranked_sorted(out@),
        decreases counts.len() - t,
    {
        let x = FailureClassCount { class: counts[t].class.clone(), count: counts[t].count };
        assert(x == counts@[t as int]);
        let ghost old_out = out@;
        proof {
            assert forall|q: int| 0 <= q < old_out.len() implies (#[trigger] old_out[q]).class@ != x.class@ by {
                assert(counts@.take(t as int).contains(old_out[q]));
                let w = choose|w: int| 0 <= w < counts@.take(t as int).len() && counts@.take(t as int)[w] == old_out[q];
                assert(counts@[w] == old_out[q]);
            }
        }
        let p = insert_ranked(&mut out, x);
        proof {
            lemma_insert_tracks(old_out, p as int, counts@, t as int);
        }
        t += 1;
    }
    proof {
        assert(counts@.take(counts.len() as int) =~= counts@);
        assert forall|k: int| 0 <= k < out@.len() implies (#[trigger] out@[k]).class@ != "none"@ && out@[k].count == occurrences(cs, out@[k].class@) && out@[k].count > 0 by {
            assert(counts@.contains(out@[k]));
            let q = choose|q: int| 0 <= q < counts@.len() && counts@[q] == out@[k];
            assert(counts@[q] == out@[k]);
        }
        assert forall|j: int| 0 <= j < cs.len() && cs[j] != "none"@ implies exists|k: int| 0 <= k < out@.len() && (#[trigger] out@[k]).class@ == #[trigger] cs[j] by {
            let q = choose|q: int| 0 <= q < counts@.len() && (#[trigger] counts@[q]).class@ == cs[j];
            assert(out@.contains(counts@[q]));
            let k = choose|k: int| 0 <= k < out@.len() && out@[k] == counts@[q];
            assert(out@[k].class@ == cs[j]);
        }
    }
    out
}

proof fn lemma_insert_tracks(old_out: Seq<FailureClassCount>, p: int, counts: Seq<FailureClassCount>, t: int)
    requires
        0 <= p <= old_out.len(),
        0 <= t < counts.len(),
        forall|k: int| 0 <= k < old_out.len() ==> counts.take(t).contains(#[trigger] old_out[k]),
        forall|q: int| 0 <= q < t ==> old_out.contains(#[trigger] counts[q]),
    ensures
        forall|k: int| 0 <= k < old_out.insert(p, counts[t]).len() ==> counts.take(t + 1).contains(#[trigger] old_out.insert(p, counts[t])[k]),
        forall|q: int| 0 <= q < t + 1 ==> old_out.insert(p, counts[t]).contains(#[trigger] counts[q]),
{
    let x = counts[t];
    let out = old_out.insert(p, x);
    assert(counts.take(t + 1) =~= counts.take(t).push(x));
    assert forall|k: int| 0 <= k < out.len() implies counts.take(t + 1).contains(#[trigger] out[k]) by {
        if k == p {
            assert(counts.take(t + 1)[t] == x);
        } else {
            let e = if k < p { old_out[k] } else { old_out[k - 1] };
            assert(out[k] == e);
            assert(counts.take(t).contains(e));
            let w = choose|w: int| 0 <= w < counts.take(t).len() && counts.take(t)[w] == e;
            assert(counts.take(t + 1)[w] == e);
        }
    }
    assert forall|q: int| 0 <= q < t + 1 implies out.contains(#[trigger] counts[q]) by {
        if q == t {
            assert(out[p] == x);
        } else {
            assert(old_out.contains(counts[q]));
            let w = choose|w: int| 0 <= w < old_out.len() && old_out[w] == counts[q];
            if w < p {
                assert(out[w] == old_out[w]);
            } else {
                assert(out[w + 1] == old_out[w]);
            }
        }
    }
}

proof fn lemma_occ_le(s: Seq<Seq<char>>, c: Seq<char>)
    ensures
        occurrences(s, c) <= s.len(),
    decreases s.len(),
{
    if s.len() > 0 {
        lemma_occ_le(s.drop_last(), c);
    }
}

/// A class seen nowhere in the prefix (no count records it) has no
/// occurrences there.
proof fn lemma_occ_absent(s: Seq<Seq<char>>, c: Seq<char>, counts: Seq<FailureClassCount>)
    requires
        forall|m: int| 0 <= m < counts.len() ==> (#[trigger] counts[m]).class@ != c,
        forall|j: int| 0 <= j < s.len() && s[j] != "none"@ ==> exists|k: int| 0 <= k < counts.len() && (#[trigger] counts[k]).class@ == #[trigger] s[j],
        c != "none"@,
    ensures
        occurrences(s, c) == 0,
    decreases s.len(),
{
    if s.len() > 0 {
        let n = s.len() - 1;
        assert forall|j: int| 0 <= j < s.drop_last().len() && s.drop_last()[j] != "none"@ implies exists|k: int| 0 <= k < counts.len() && (#[trigger] counts[k]).class@ == #[trigger] s.drop_last()[j] by {
            assert(s.drop_last()[j] == s[j]);
        }
        lemma_occ_absent(s.drop_last(), c, counts);
        if s[n] == c {
            let k = choose|k: int| 0 <= k < counts.len() && (#[trigger] counts[k]).class@ == s[n];
        }
    }
}

} // verus!
