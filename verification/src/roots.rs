//! Corroborating a dispatched `repo_path` against the client's advertised
//! roots and `CLAUDE_PROJECT_DIR`.
use vstd::prelude::*;
use crate::text::{
    chars_of, extend_chars, extend_str, join_chars, join_s, slice_chars, starts_with_s,
    starts_with_str, string_of, views,
};

verus! {

/// Which source matched.
#[derive(Debug, Clone, PartialEq, Eq)]
pub enum MatchedSource {
    Root { uri: String },
    ProjectDir(String),
}

/// Result of the corroboration check.
#[derive(Debug, Clone, PartialEq, Eq)]
pub enum Corroboration {
    /// At least one source matched; names the winning source.
    Matched(MatchedSource),
    /// Sources existed but none matched.
    Mismatch { repo_path: String, roots: Vec<String>, project_dir: Option<String> },
    /// No sources to check (no roots, no project dir).
    NoSources,
}

/// `std::path::Path::starts_with` on two path texts: `base` is a
/// component-wise prefix of `path`.
pub uninterp spec fn path_starts_with_s(path: Seq<char>, base: Seq<char>) -> bool;

/// `std::path::Path::starts_with`. Believed: the answer is a function of
/// the two path texts alone.
#[verifier::external_body]
fn path_starts_with(path: &str, base: &str) -> (b: bool)
    ensures
        b == path_starts_with_s(path@, base@),
{
    std::path::Path::new(path).starts_with(base)
}

pub open spec fn file_scheme() -> Seq<char> {
    "file://"@
}

/// The path a `file://` root names: the text after `file://`; `None` for a
/// root of another scheme (such roots are not canonicalized).
pub open spec fn root_path_s(uri: Seq<char>) -> Option<Seq<char>> {
    if starts_with_s(uri, file_scheme()) {
        Some(uri.skip(7))
    } else {
        None
    }
}

/// The path to canonicalize for a root: the text after `file://`, or
/// `None` when the root is not a `file://` URI.
pub fn root_path(uri: &str) -> (r: Option<String>)
    ensures
        match r {
            Some(p) => root_path_s(uri@) == Some(p@),
            None => root_path_s(uri@) is None,
        },
{
    proof {
        reveal_strlit("file://");
    }
    let v = chars_of(uri);
    let scheme = chars_of("file://");
    if crate::text::starts_with(&v, &scheme) {
        let rest = slice_chars(&v, 7, v.len());
        assert(rest@ =~= uri@.skip(7));
        Some(string_of(&rest))
    } else {
        None
    }
}

/// Index of the first `file://` root whose canonical form contains the
/// canonical repo path, or `roots.len()`.
pub open spec fn first_matching_root(
    roots: Seq<Seq<char>>,
    canon_roots: Seq<Option<Seq<char>>>,
    repo: Seq<char>,
    from: int,
) -> int
    decreases roots.len() - from,
{
    if from < 0 || from >= roots.len() {
        roots.len() as int
    } else if starts_with_s(roots[from], file_scheme()) && canon_roots[from] is Some
        && path_starts_with_s(repo, canon_roots[from]->0) {
        from
    } else {
        first_matching_root(roots, canon_roots, repo, from + 1)
    }
}

/// The decision given what canonicalization returned: `canon_repo` for the
/// repo path, `canon_roots[i]` for the path after `file://` of each root
/// (ignored for other roots), `canon_pd` for the project dir.
pub open spec fn decide_matches(
    roots: Seq<Seq<char>>,
    has_pd: bool,
    canon_repo: Option<Seq<char>>,
    canon_roots: Seq<Option<Seq<char>>>,
    canon_pd: Option<Seq<char>>,
) -> int {
    // -3: no sources; -2: mismatch; -1: project dir matched; i >= 0: root i matched.
    if roots.len() == 0 && !has_pd {
        -3
    } else if canon_repo is None {
        -2
    } else {
        let k = first_matching_root(roots, canon_roots, canon_repo->0, 0);
        if k < roots.len() {
            k
        } else if has_pd && canon_pd is Some && path_starts_with_s(canon_repo->0, canon_pd->0) {
            -1
        } else {
            -2
        }
    }
}

/// The outcome of the check given the canonicalization results, as
/// `decide_matches` encodes it: which source matched, or none.
pub fn corroboration_outcome(
    roots: &Vec<String>,
    has_pd: bool,
    canon_repo: &Option<String>,
    canon_roots: &Vec<Option<String>>,
    canon_pd: &Option<String>,
) -> (r: i64)
    requires
        canon_roots.len() == roots.len(),
        roots.len() < 0x7FFF_FFFF_FFFF_FFFF,
    ensures
        r == decide_matches(
            roots@.map_values(|s: String| s@),
            has_pd,
            match canon_repo {
                Some(s) => Some(s@),
                None => None,
            },
            canon_roots@.map_values(
                |o: Option<String>|
                    match o {
                        Some(s) => Some(s@),
                        None => None,
                    },
            ),
            match canon_pd {
                Some(s) => Some(s@),
                None => None,
            },
        ),
{
    let ghost rv = roots@.map_values(|s: String| s@);
    let ghost cv = canon_roots@.map_values(
        |o: Option<String>|
            match o {
                Some(s) => Some(s@),
                None => None,
            },
    );
    if roots.len() == 0 && !has_pd {
        return -3;
    }
    let repo = match canon_repo {
        Some(r) => r,
        None => return -2,
    };
    let mut i: usize = 0;
    while i < roots.len()
        invariant
            i <= roots.len(),
            roots.len() < 0x7FFF_FFFF_FFFF_FFFF,
            canon_roots.len() == roots.len(),
            !(roots.len() == 0 && !has_pd),
            canon_repo matches Some(rr) && rr@ == repo@,
            rv == roots@.map_values(|s: String| s@),
            cv == canon_roots@.map_values(
                |o: Option<String>|
                    match o {
                        Some(s) => Some(s@),
                        None => None,
                    },
            ),
            first_matching_root(rv, cv, repo@, 0) == first_matching_root(rv, cv, repo@, i as int),
        decreases roots.len() - i,
    {
        let rc = chars_of(roots[i].as_str());
        assert(rv[i as int] == roots@[i as int]@);
        if starts_with_str(&rc, "file://") {
            match &canon_roots[i] {
                Some(c) => {
                    assert(cv[i as int] == Some(c@));
                    if path_starts_with(repo.as_str(), c.as_str()) {
                        return i as i64;
                    }
                },
                None => {
                    assert(cv[i as int] is None);
                },
            }
        }
        i += 1;
    }
    if has_pd {
        if let Some(p) = canon_pd {
            if path_starts_with(repo.as_str(), p.as_str()) {
                return -1;
            }
        }
    }
    -2
}

pub open spec fn opt_view(o: Option<String>) -> Option<Seq<char>> {
    match o {
        Some(s) => Some(s@),
        None => None,
    }
}

pub open spec fn opt_str_view(o: Option<&str>) -> Option<Seq<char>> {
    match o {
        Some(s) => Some(s@),
        None => None,
    }
}

/// Corroboration of `repo_path` against the advertised `roots` (raw URIs
/// such as `file:///foo/bar`) and `project_dir` (`CLAUDE_PROJECT_DIR`,
/// `None` when unset or empty), given what canonicalization returned:
/// `canon_repo` for the repo path, `canon_roots[i]` for the path after
/// `file://` of each `file://` root (ignored for other roots), `canon_pd`
/// for the project dir. A root matches when the canonical repo lies within
/// its canonical path; roots are tried in order before the project dir.
pub fn corroborate(
    repo_path: &str,
    roots: &Vec<String>,
    project_dir: Option<&str>,
    canon_repo: &Option<String>,
    canon_roots: &Vec<Option<String>>,
    canon_pd: &Option<String>,
) -> (r: Corroboration)
    requires
        canon_roots.len() == roots.len(),
        roots.len() < 0x7FFF_FFFF_FFFF_FFFF,
    ensures
        ({
            let k = decide_matches(
                roots@.map_values(|s: String| s@),
                project_dir is Some,
                opt_view(*canon_repo),
                canon_roots@.map_values(|o: Option<String>| opt_view(o)),
                opt_view(*canon_pd),
            );
            &&& k == -3 ==> r is NoSources
            &&& k == -1 ==> (r matches Corroboration::Matched(MatchedSource::ProjectDir(p)) && Some(
                p@,
            ) == opt_view(*canon_pd))
            &&& k >= 0 ==> (r matches Corroboration::Matched(MatchedSource::Root { uri }) && uri@
                == roots@[k]@)
            &&& k == -2 ==> (r matches Corroboration::Mismatch {
                repo_path: rp,
                roots: rs,
                project_dir: pd,
            } && rp@ == repo_path@ && rs@.map_values(|s: String| s@) == roots@.map_values(
                |s: String| s@,
            ) && opt_view(pd) == opt_str_view(project_dir))
        }),
{
    let k = corroboration_outcome(roots, project_dir.is_some(), canon_repo, canon_roots, canon_pd);
    proof {
        assert(canon_roots@.map_values(|o: Option<String>| opt_view(o)) =~= canon_roots@.map_values(
            |o: Option<String>|
                match o {
                    Some(s) => Some(s@),
                    None => None,
                },
        ));
        lemma_first_root_is_file(
            roots@.map_values(|s: String| s@),
            canon_roots@.map_values(|o: Option<String>| opt_view(o)),
            match canon_repo {
                Some(s) => s@,
                None => Seq::<char>::empty(),
            },
            0,
        );
    }
    if k == -3 {
        Corroboration::NoSources
    } else if k == -1 {
        match canon_pd {
            Some(p) => Corroboration::Matched(MatchedSource::ProjectDir(p.clone())),
            None => Corroboration::NoSources,
        }
    } else if k >= 0 {
        let ku = k as usize;
        Corroboration::Matched(MatchedSource::Root { uri: roots[ku].clone() })
    } else {
        let rs = roots.clone();
        let pd: Option<String> = match project_dir {
            Some(p) => Some(p.to_string()),
            None => None,
        };
        Corroboration::Mismatch { repo_path: repo_path.to_string(), roots: rs, project_dir: pd }
    }
}

proof fn lemma_first_root_is_file(
    roots: Seq<Seq<char>>,
    canon_roots: Seq<Option<Seq<char>>>,
    repo: Seq<char>,
    from: int,
)
    requires
        0 <= from <= roots.len(),
    ensures
        from <= first_matching_root(roots, canon_roots, repo, from) <= roots.len(),
        first_matching_root(roots, canon_roots, repo, from) < roots.len() ==> starts_with_s(
            roots[first_matching_root(roots, canon_roots, repo, from)],
            file_scheme(),
        ),
    decreases roots.len() - from,
{
    if from < roots.len() {
        lemma_first_root_is_file(roots, canon_roots, repo, from + 1);
    }
}

/// The error text for a mismatch, naming the repo path, each inspected
/// root and the project dir, with the fix hint.
pub open spec fn mismatch_error_s(repo: Seq<char>, roots: Seq<Seq<char>>, pd: Option<Seq<char>>) -> Seq<
    char,
> {
    let roots_str = if roots.len() == 0 {
        "none advertised"@
    } else {
        seq!['['] + join_s(roots, ", "@) + seq![']']
    };
    let pd_str = match pd {
        Some(p) => p,
        None => "(unset)"@,
    };
    "repo_path "@ + repo + " does not corroborate against any MCP root or CLAUDE_PROJECT_DIR.\nInspected roots: "@
        + roots_str + "   (or \"none advertised\")\nCLAUDE_PROJECT_DIR: "@ + pd_str
        + "\nThis usually means the architect passed the wrong repo_path, or the MCPclient roots / CLAUDE_PROJECT_DIR are misconfigured. Fix one of those andre-dispatch."@
}

/// Format a mismatch into the error string returned by the tool handler.
pub fn format_mismatch_error(repo_path: &str, roots: &Vec<String>, project_dir: Option<&str>) -> (r:
    String)
    ensures
        r@ == mismatch_error_s(
            repo_path@,
            roots@.map_values(|s: String| s@),
            match project_dir {
                Some(p) => Some(p@),
                None => None,
            },
        ),
{
    let mut parts: Vec<Vec<char>> = Vec::new();
    let mut i: usize = 0;
    while i < roots.len()
        invariant
            i <= roots.len(),
            views(parts@) == roots@.take(i as int).map_values(|s: String| s@),
        decreases roots.len() - i,
    {
        let ghost before = views(parts@);
        parts.push(chars_of(roots[i].as_str()));
        assert(views(parts@) =~= before.push(roots@[i as int]@));
        assert(roots@.take(i + 1).map_values(|s: String| s@) =~= roots@.take(i as int).map_values(
            |s: String| s@,
        ).push(roots@[i as int]@));
        i += 1;
    }
    assert(roots@.take(roots.len() as int) =~= roots@);
    let roots_str = if roots.len() == 0 {
        chars_of("none advertised")
    } else {
        let mut v = vec!['['];
        let sep = chars_of(", ");
        let j = join_chars(&parts, &sep);
        extend_chars(&mut v, &j);
        v.push(']');
        assert(v@ =~= seq!['['] + j@ + seq![']']);
        v
    };
    let mut out = chars_of("repo_path ");
    extend_str(&mut out, repo_path);
    extend_str(&mut out, " does not corroborate against any MCP root or CLAUDE_PROJECT_DIR.\nInspected roots: ");
    extend_chars(&mut out, &roots_str);
    extend_str(&mut out, "   (or \"none advertised\")\nCLAUDE_PROJECT_DIR: ");
    match project_dir {
        Some(p) => extend_str(&mut out, p),
        None => extend_str(&mut out, "(unset)"),
    }
    extend_str(
        &mut out,
        "\nThis usually means the architect passed the wrong repo_path, or the MCPclient roots / CLAUDE_PROJECT_DIR are misconfigured. Fix one of those andre-dispatch.",
    );
    string_of(&out)
}

} // verus!
