//! Choosing the session that most likely produced a worktree.
use vstd::prelude::*;
use crate::branch::feature_prefix;
use crate::path::{PathParts, path_parts, same_path, path_starts_with, same_path_exec, starts_with_exec};
use crate::text::{chars_of, occurs_in, occurs_in_exec, strip_or_keep, strip_or_keep_exec, same_chars, string_from_chars};

verus! {

/// One entry of a project's session index.
pub struct SessionRecord {
    pub session_id: String,
    /// The path the session was started in.
    pub project_path: String,
    pub git_branch: Option<String>,
    pub summary: Option<String>,
}

/// A session as the matcher sees it: the record, the project directory whose
/// index listed it, and its project path in canonical form.
pub struct IndexedSession {
    pub record: SessionRecord,
    pub project_dir: String,
    pub canonical_project_path: String,
}

/// The session chosen for a worktree.
pub struct SessionMatch {
    pub session_id: String,
    pub project_dir: String,
}

/// The lowercase form of a text.
pub uninterp spec fn lower_of(s: Seq<char>) -> Seq<char>;

/// Relies on `str::to_lowercase`: the lowercase form of a text, which depends
/// on its characters alone.
#[verifier::external_body]
fn lowercase(s: &str) -> (r: String)
    ensures
        r@ == lower_of(s@),
{
    s.to_lowercase()
}

/// A branch name without a leading `feature/`.
pub open spec fn without_feature(branch: Seq<char>) -> Seq<char> {
    strip_or_keep(branch, feature_prefix())
}

pub open spec fn dash_to_space(c: char) -> char {
    if c == '-' {
        ' '
    } else {
        c
    }
}

/// The words a branch name stands for: without a leading `feature/`, and with
/// each `-` read as a space.
pub open spec fn branch_phrase(branch: Seq<char>) -> Seq<char> {
    without_feature(branch).map_values(|c: char| dash_to_space(c))
}

/// The score of a candidate, given the lowercase branch phrase and the
/// lowercase summary: +10 when the worktree lies inside the canonical project
/// path, +5 when the project path and the repository lie one inside the other,
/// +20 when the branches agree once a leading `feature/` is dropped from
/// both, +15 when the phrase occurs in the summary.
pub open spec fn score_parts(
    worktree: Seq<char>,
    branch: Seq<char>,
    repo: Seq<char>,
    c: IndexedSession,
    folded_phrase: Seq<char>,
    folded_summary: Option<Seq<char>>,
) -> nat {
    let project = c.record.project_path@;
    (if path_starts_with(worktree, c.canonical_project_path@) {
        10nat
    } else {
        0nat
    }) + (if path_starts_with(project, repo) || path_starts_with(repo, project) {
        5nat
    } else {
        0nat
    }) + (match c.record.git_branch {
        Some(g) => if without_feature(branch) == without_feature(g@) {
            20nat
        } else {
            0nat
        },
        None => 0nat,
    }) + (match folded_summary {
        Some(sf) => if occurs_in(sf, folded_phrase) {
            15nat
        } else {
            0nat
        },
        None => 0nat,
    })
}

/// The lowercase summary of a candidate, where it has one.
pub open spec fn folded_summary(c: IndexedSession) -> Option<Seq<char>> {
    match c.record.summary {
        Some(s) => Some(lower_of(s@)),
        None => None,
    }
}

/// The score of a candidate session for a worktree.
pub open spec fn session_score(
    worktree: Seq<char>,
    branch: Seq<char>,
    repo: Seq<char>,
    c: IndexedSession,
) -> nat {
    score_parts(worktree, branch, repo, c, lower_of(branch_phrase(branch)), folded_summary(c))
}

/// The canonical project path of the session is the worktree's path.
pub open spec fn is_exact(worktree: Seq<char>, c: IndexedSession) -> bool {
    same_path(c.canonical_project_path@, worktree)
}

/// The first candidate, from index `from` on, whose path is the worktree's.
pub open spec fn first_exact(worktree: Seq<char>, cs: Seq<IndexedSession>, from: int) -> Option<int>
    decreases cs.len() - from,
{
    if from < 0 || from >= cs.len() {
        None
    } else if is_exact(worktree, cs[from]) {
        Some(from)
    } else {
        first_exact(worktree, cs, from + 1)
    }
}

/// Among the first `n` candidates, the first one of the highest positive score.
pub open spec fn best_scored(
    worktree: Seq<char>,
    branch: Seq<char>,
    repo: Seq<char>,
    cs: Seq<IndexedSession>,
    n: int,
) -> Option<int>
    decreases n,
{
    if n <= 0 {
        None
    } else {
        let prev = best_scored(worktree, branch, repo, cs, n - 1);
        let sc = session_score(worktree, branch, repo, cs[n - 1]);
        if sc == 0 {
            prev
        } else {
            match prev {
                None => Some(n - 1),
                Some(b) => if sc > session_score(worktree, branch, repo, cs[b]) {
                    Some(n - 1)
                } else {
                    prev
                },
            }
        }
    }
}

/// The index of the session chosen for a worktree: the first candidate whose
/// canonical path is the worktree's, else the first of the highest positive score.
pub open spec fn chosen_session(
    worktree: Seq<char>,
    branch: Seq<char>,
    repo: Seq<char>,
    cs: Seq<IndexedSession>,
) -> Option<int> {
    match first_exact(worktree, cs, 0) {
        Some(i) => Some(i),
        None => best_scored(worktree, branch, repo, cs, cs.len() as int),
    }
}

/// What the matcher needs of the worktree, computed once.
struct Prepared {
    worktree: PathParts,
    repo: PathParts,
    branch: Vec<char>,
    folded_phrase: Vec<char>,
}

impl Prepared {
    spec fn models(&self, worktree: Seq<char>, branch: Seq<char>, repo: Seq<char>, phrase: Seq<char>) -> bool {
        &&& self.worktree.models(worktree)
        &&& self.repo.models(repo)
        &&& self.branch@ == without_feature(branch)
        &&& self.folded_phrase@ == phrase
    }
}

fn feature_chars() -> (r: Vec<char>)
    ensures
        r@ == feature_prefix(),
{
    let r = vec!['f', 'e', 'a', 't', 'u', 'r', 'e', '/'];
    assert(r@ == feature_prefix());
    r
}

fn prepare(worktree_path: &str, branch: &str, repo_path: &str, folded_phrase: Vec<char>) -> (r: Prepared)
    ensures
        r.models(worktree_path@, branch@, repo_path@, folded_phrase@),
{
    let wt = chars_of(worktree_path);
    let repo = chars_of(repo_path);
    let b = chars_of(branch);
    let pre = feature_chars();
    Prepared {
        worktree: path_parts(&wt),
        repo: path_parts(&repo),
        branch: strip_or_keep_exec(&b, &pre),
        folded_phrase,
    }
}

/// The branch phrase of `branch`, as a string.
fn phrase_of(branch: &str) -> (r: String)
    ensures
        r@ == branch_phrase(branch@),
{
    let b = chars_of(branch);
    let pre = feature_chars();
    let stripped = strip_or_keep_exec(&b, &pre);
    let mut out: Vec<char> = Vec::new();
    for i in 0..stripped.len()
        invariant
            out@ == stripped@.take(i as int).map_values(|c: char| dash_to_space(c)),
    {
        let c = stripped[i];
        out.push(if c == '-' {
            ' '
        } else {
            c
        });
        assert(out@ =~= stripped@.take(i + 1).map_values(|c: char| dash_to_space(c)));
    }
    assert(stripped@.take(stripped.len() as int) == stripped@);
    string_from_chars(out.as_slice())
}

fn score_prepared(
    p: &Prepared,
    c: &IndexedSession,
    folded_summary: Option<&Vec<char>>,
    Ghost(worktree): Ghost<Seq<char>>,
    Ghost(branch): Ghost<Seq<char>>,
    Ghost(repo): Ghost<Seq<char>>,
) -> (r: u32)
    requires
        p.models(worktree, branch, repo, p.folded_phrase@),
    ensures
        r as nat == score_parts(
            worktree,
            branch,
            repo,
            *c,
            p.folded_phrase@,
            match folded_summary {
                Some(v) => Some(v@),
                None => None,
            },
        ),
{
    let canonical = chars_of(c.canonical_project_path.as_str());
    let canonical_parts = path_parts(&canonical);
    let project = chars_of(c.record.project_path.as_str());
    let project_parts = path_parts(&project);
    let mut score: u32 = 0;
    if starts_with_exec(&p.worktree, &canonical_parts) {
        score = score + 10;
    }
    if starts_with_exec(&project_parts, &p.repo) || starts_with_exec(&p.repo, &project_parts) {
        score = score + 5;
    }
    match &c.record.git_branch {
        Some(g) => {
            let gc = chars_of(g.as_str());
            let pre = feature_chars();
            let gs = strip_or_keep_exec(&gc, &pre);
            if same_chars(&p.branch, &gs) {
                score = score + 20;
            }
        },
        None => {},
    }
    match folded_summary {
        Some(sf) => {
            if occurs_in_exec(sf, &p.folded_phrase) {
                score = score + 15;
            }
        },
        None => {},
    }
    score
}

/// The score of a candidate, given the lowercase branch phrase and the
/// lowercase summary of the candidate (see `score_parts`).
pub fn score_folded(
    worktree_path: &str,
    branch: &str,
    repo_path: &str,
    candidate: &IndexedSession,
    folded_phrase: &str,
    folded_summary: Option<&str>,
) -> (r: u32)
    ensures
        r as nat == score_parts(
            worktree_path@,
            branch@,
            repo_path@,
            *candidate,
            folded_phrase@,
            match folded_summary {
                Some(s) => Some(s@),
                None => None,
            },
        ),
{
    let p = prepare(worktree_path, branch, repo_path, chars_of(folded_phrase));
    match folded_summary {
        Some(s) => {
            let sc = chars_of(s);
            score_prepared(&p, candidate, Some(&sc), Ghost(worktree_path@), Ghost(branch@), Ghost(repo_path@))
        },
        None => score_prepared(&p, candidate, None, Ghost(worktree_path@), Ghost(branch@), Ghost(repo_path@)),
    }
}

fn folded_summary_of(c: &IndexedSession) -> (r: Option<Vec<char>>)
    ensures
        match r {
            Some(v) => folded_summary(*c) == Some(v@),
            None => folded_summary(*c) is None,
        },
{
    match &c.record.summary {
        Some(s) => {
            let low = lowercase(s.as_str());
            Some(chars_of(low.as_str()))
        },
        None => None,
    }
}

/// The score of a candidate session for a worktree (see `session_score`).
pub fn score_session(worktree_path: &str, branch: &str, repo_path: &str, candidate: &IndexedSession) -> (r: u32)
    ensures
        r as nat == session_score(worktree_path@, branch@, repo_path@, *candidate),
{
    let phrase = lowercase(phrase_of(branch).as_str());
    let p = prepare(worktree_path, branch, repo_path, chars_of(phrase.as_str()));
    let fs = folded_summary_of(candidate);
    match &fs {
        Some(v) => score_prepared(&p, candidate, Some(v), Ghost(worktree_path@), Ghost(branch@), Ghost(repo_path@)),
        None => score_prepared(&p, candidate, None, Ghost(worktree_path@), Ghost(branch@), Ghost(repo_path@)),
    }
}

proof fn lemma_first_exact_from(worktree: Seq<char>, cs: Seq<IndexedSession>, from: int, i: int)
    requires
        0 <= from <= i < cs.len(),
        is_exact(worktree, cs[i]),
        forall|j: int| from <= j < i ==> !is_exact(worktree, #[trigger] cs[j]),
    ensures
        first_exact(worktree, cs, from) == Some(i),
    decreases i - from,
{
    if from < i {
        lemma_first_exact_from(worktree, cs, from + 1, i);
    }
}

proof fn lemma_no_exact_from(worktree: Seq<char>, cs: Seq<IndexedSession>, from: int)
    requires
        0 <= from,
        forall|j: int| from <= j < cs.len() ==> !is_exact(worktree, #[trigger] cs[j]),
    ensures
        first_exact(worktree, cs, from) is None,
    decreases cs.len() - from,
{
    if from < cs.len() {
        lemma_no_exact_from(worktree, cs, from + 1);
    }
}

/// The first `n` candidates: the chosen one has a positive score, the highest
/// among them, and every candidate before it scores lower; none is chosen
/// only when every score is zero.
pub proof fn lemma_best_scored_is_first_maximum(
    worktree: Seq<char>,
    branch: Seq<char>,
    repo: Seq<char>,
    cs: Seq<IndexedSession>,
    n: int,
)
    requires
        0 <= n <= cs.len(),
    ensures
        match best_scored(worktree, branch, repo, cs, n) {
            None => forall|j: int|
                0 <= j < n ==> session_score(worktree, branch, repo, #[trigger] cs[j]) == 0,
            Some(b) => {
                &&& 0 <= b < n
                &&& session_score(worktree, branch, repo, cs[b]) > 0
                &&& forall|j: int|
                    0 <= j < n ==> session_score(worktree, branch, repo, #[trigger] cs[j])
                        <= session_score(worktree, branch, repo, cs[b])
                &&& forall|j: int|
                    0 <= j < b ==> session_score(worktree, branch, repo, #[trigger] cs[j])
                        < session_score(worktree, branch, repo, cs[b])
            },
        },
    decreases n,
{
    if n > 0 {
        lemma_best_scored_is_first_maximum(worktree, branch, repo, cs, n - 1);
    }
}

/// A session whose canonical project path is the worktree's path is chosen,
/// whatever the other candidates score, unless an earlier candidate has that
/// path too.
pub proof fn lemma_exact_match_wins(
    worktree: Seq<char>,
    branch: Seq<char>,
    repo: Seq<char>,
    cs: Seq<IndexedSession>,
    i: int,
)
    requires
        0 <= i < cs.len(),
        is_exact(worktree, cs[i]),
        forall|j: int| 0 <= j < i ==> !is_exact(worktree, #[trigger] cs[j]),
    ensures
        chosen_session(worktree, branch, repo, cs) == Some(i),
{
    lemma_first_exact_from(worktree, cs, 0, i);
}

/// Where no candidate has the worktree's path, a candidate that scores
/// higher than every other one is chosen.
pub proof fn lemma_highest_score_wins(
    worktree: Seq<char>,
    branch: Seq<char>,
    repo: Seq<char>,
    cs: Seq<IndexedSession>,
    i: int,
)
    requires
        0 <= i < cs.len(),
        forall|j: int| 0 <= j < cs.len() ==> !is_exact(worktree, #[trigger] cs[j]),
        session_score(worktree, branch, repo, cs[i]) > 0,
        forall|j: int|
            0 <= j < cs.len() && j != i ==> session_score(worktree, branch, repo, #[trigger] cs[j])
                < session_score(worktree, branch, repo, cs[i]),
    ensures
        chosen_session(worktree, branch, repo, cs) == Some(i),
{
    lemma_no_exact_from(worktree, cs, 0);
    lemma_best_scored_is_first_maximum(worktree, branch, repo, cs, cs.len() as int);
}

/// Chooses the session that most likely produced a worktree: the first
/// candidate whose canonical project path is the worktree's path, else the
/// first candidate of the highest positive score (see `session_score`);
/// `None` when every candidate scores zero. `worktree_path` is the worktree's
/// canonical path.
pub fn find_matching_session(
    worktree_path: &str,
    branch: &str,
    repo_path: &str,
    candidates: &Vec<IndexedSession>,
) -> (r: Option<SessionMatch>)
    ensures
        match chosen_session(worktree_path@, branch@, repo_path@, candidates@) {
            Some(i) => {
                &&& 0 <= i < candidates.len()
                &&& r is Some
                &&& r->0.session_id@ == candidates@[i].record.session_id@
                &&& r->0.project_dir@ == candidates@[i].project_dir@
            },
            None => r is None,
        },
{
    let ghost wt = worktree_path@;
    let ghost br = branch@;
    let ghost rp = repo_path@;
    let ghost cs = candidates@;
    let phrase = lowercase(phrase_of(branch).as_str());
    let p = prepare(worktree_path, branch, repo_path, chars_of(phrase.as_str()));
    let mut best: Option<(usize, u32)> = None;
    for i in 0..candidates.len()
        invariant
            cs == candidates@,
            wt == worktree_path@,
            br == branch@,
            rp == repo_path@,
            p.models(wt, br, rp, lower_of(branch_phrase(br))),
            first_exact(wt, cs, 0) == first_exact(wt, cs, i as int),
            match best {
                None => best_scored(wt, br, rp, cs, i as int) is None,
                Some((b, s)) => {
                    &&& b < i
                    &&& best_scored(wt, br, rp, cs, i as int) == Some(b as int)
                    &&& s as nat == session_score(wt, br, rp, cs[b as int])
                },
            },
    {
        let c = &candidates[i];
        let canonical = chars_of(c.canonical_project_path.as_str());
        let canonical_parts = path_parts(&canonical);
        if same_path_exec(&canonical_parts, &p.worktree) {
            assert(first_exact(wt, cs, i as int) == Some(i as int));
            return Some(SessionMatch { session_id: c.record.session_id.clone(), project_dir: c.project_dir.clone() });
        }
        let fs = folded_summary_of(c);
        let score = match &fs {
            Some(v) => score_prepared(&p, c, Some(v), Ghost(wt), Ghost(br), Ghost(rp)),
            None => score_prepared(&p, c, None, Ghost(wt), Ghost(br), Ghost(rp)),
        };
        if score > 0 {
            match best {
                None => {
                    best = Some((i, score));
                },
                Some((_, s)) => {
                    if score > s {
                        best = Some((i, score));
                    }
                },
            }
        }
    }
    proof {
        lemma_no_exact_from(wt, cs, cs.len() as int);
        lemma_best_scored_is_first_maximum(wt, br, rp, cs, cs.len() as int);
    }
    match best {
        Some((b, _)) => {
            let c = &candidates[b];
            Some(SessionMatch { session_id: c.record.session_id.clone(), project_dir: c.project_dir.clone() })
        },
        None => None,
    }
}

} // verus!
