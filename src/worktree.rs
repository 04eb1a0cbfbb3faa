//! Worktree listings and the record assembled for each worktree.
use vstd::prelude::*;
use crate::branch::{extract_issue_number, issue_number};
use crate::matcher::SessionMatch;
use crate::tasks::{Task, task_views, sorted_by_id, sort_tasks_by_id};
use crate::text::{
    chars_of, occurs_at, occurs_at_exec, split_on, split_chars, views, slice_chars, strip_or_keep,
    strip_or_keep_exec, string_from_chars,
};
use crate::transcript::{mined_tasks, mine_completed_tasks};

verus! {

/// One worktree of a listing: its path and its branch (empty when detached).
pub struct WorktreeEntry {
    pub path: String,
    pub branch: String,
}

/// What a `WorktreeEntry` holds, as plain sequences.
pub struct EntryView {
    pub path: Seq<char>,
    pub branch: Seq<char>,
}

impl View for WorktreeEntry {
    type V = EntryView;

    open spec fn view(&self) -> EntryView {
        EntryView { path: self.path@, branch: self.branch@ }
    }
}

/// The views of a sequence of worktree entries.
pub open spec fn entry_views(v: Seq<WorktreeEntry>) -> Seq<EntryView> {
    v.map_values(|e: WorktreeEntry| e@)
}

pub open spec fn worktree_tag() -> Seq<char> {
    seq!['w', 'o', 'r', 'k', 't', 'r', 'e', 'e', ' ']
}

pub open spec fn branch_tag() -> Seq<char> {
    seq!['b', 'r', 'a', 'n', 'c', 'h', ' ']
}

pub open spec fn heads_prefix() -> Seq<char> {
    seq!['r', 'e', 'f', 's', '/', 'h', 'e', 'a', 'd', 's', '/']
}

/// The listing read so far: the finished worktrees, and the record being read.
pub struct ListingState {
    pub done: Seq<EntryView>,
    pub path: Option<Seq<char>>,
    pub branch: Seq<char>,
}

/// The finished worktrees, with the record being read closed.
pub open spec fn close_record(st: ListingState) -> ListingState {
    match st.path {
        Some(p) => ListingState {
            done: st.done.push(EntryView { path: p, branch: st.branch }),
            path: None,
            branch: Seq::empty(),
        },
        None => ListingState { done: st.done, path: None, branch: Seq::empty() },
    }
}

/// One line of a listing: a blank line closes a record, `worktree <path>`
/// gives its path, `branch <ref>` its branch without a leading `refs/heads/`;
/// other lines are read past.
pub open spec fn listing_step(st: ListingState, line: Seq<char>) -> ListingState {
    if line.len() == 0 {
        close_record(st)
    } else if occurs_at(line, worktree_tag(), 0) {
        ListingState { path: Some(line.subrange(worktree_tag().len() as int, line.len() as int)), ..st }
    } else if occurs_at(line, branch_tag(), 0) {
        ListingState {
            branch: strip_or_keep(line.subrange(branch_tag().len() as int, line.len() as int), heads_prefix()),
            ..st
        }
    } else {
        st
    }
}

/// The listing state after its first `n` lines.
pub open spec fn listing_upto(lines: Seq<Seq<char>>, n: int) -> ListingState
    decreases n,
{
    if n <= 0 || n > lines.len() {
        ListingState { done: Seq::empty(), path: None, branch: Seq::empty() }
    } else {
        listing_step(listing_upto(lines, n - 1), lines[n - 1])
    }
}

/// The worktrees of a porcelain listing, in order; a record without a
/// `worktree` line gives none.
pub open spec fn listed_worktrees(output: Seq<char>) -> Seq<EntryView> {
    let lines = split_on(output, '\n');
    close_record(listing_upto(lines, lines.len() as int)).done
}

fn string_of(v: &Vec<char>) -> (r: String)
    ensures
        r@ == v@,
{
    string_from_chars(v.as_slice())
}

/// Reads the worktrees out of the porcelain output of a worktree listing
/// (see `listed_worktrees`).
pub fn parse_worktree_list(output: &str) -> (r: Vec<WorktreeEntry>)
    ensures
        entry_views(r@) == listed_worktrees(output@),
{
    let text = chars_of(output);
    let lines = split_chars(&text, '\n');
    let ghost ls = views(lines@);
    let wt_tag = vec!['w', 'o', 'r', 'k', 't', 'r', 'e', 'e', ' '];
    let br_tag = vec!['b', 'r', 'a', 'n', 'c', 'h', ' '];
    let heads = vec!['r', 'e', 'f', 's', '/', 'h', 'e', 'a', 'd', 's', '/'];
    assert(wt_tag@ == worktree_tag());
    assert(br_tag@ == branch_tag());
    assert(heads@ == heads_prefix());
    let mut done: Vec<WorktreeEntry> = Vec::new();
    let mut path: Option<Vec<char>> = None;
    let mut branch: Vec<char> = Vec::new();
    assert(entry_views(done@) =~= Seq::<EntryView>::empty());
    for n in 0..lines.len()
        invariant
            ls == views(lines@),
            ls == split_on(output@, '\n'),
            wt_tag@ == worktree_tag(),
            br_tag@ == branch_tag(),
            heads@ == heads_prefix(),
            listing_upto(ls, n as int) == (ListingState {
                done: entry_views(done@),
                path: match path {
                    Some(p) => Some(p@),
                    None => None,
                },
                branch: branch@,
            }),
    {
        let line = &lines[n];
        if line.len() == 0 {
            match path {
                Some(p) => {
                    let e = WorktreeEntry { path: string_of(&p), branch: string_of(&branch) };
                    let ghost before = done@;
                    done.push(e);
                    assert(entry_views(done@) =~= entry_views(before).push(e@));
                },
                None => {},
            }
            path = None;
            branch = Vec::new();
        } else if occurs_at_exec(line, &wt_tag, 0) {
            path = Some(slice_chars(line, wt_tag.len(), line.len()));
        } else if occurs_at_exec(line, &br_tag, 0) {
            let rest = slice_chars(line, br_tag.len(), line.len());
            branch = strip_or_keep_exec(&rest, &heads);
        }
    }
    match path {
        Some(p) => {
            let e = WorktreeEntry { path: string_of(&p), branch: string_of(&branch) };
            let ghost before = done@;
            done.push(e);
            assert(entry_views(done@) =~= entry_views(before).push(e@));
        },
        None => {},
    }
    done
}

/// What a repository's worktree listing gave: its output, or `None` where
/// the listing command failed.
pub struct RepoListing {
    pub repo_path: String,
    pub output: Option<String>,
}

/// What a `RepoListing` holds, as plain sequences.
pub struct ListingView {
    pub repo_path: Seq<char>,
    pub output: Option<Seq<char>>,
}

impl View for RepoListing {
    type V = ListingView;

    open spec fn view(&self) -> ListingView {
        ListingView {
            repo_path: self.repo_path@,
            output: match self.output {
                Some(o) => Some(o@),
                None => None,
            },
        }
    }
}

/// The views of a sequence of listings.
pub open spec fn listing_views(v: Seq<RepoListing>) -> Seq<ListingView> {
    v.map_values(|l: RepoListing| l@)
}

/// A worktree with the repository it belongs to.
pub struct RepoWorktree {
    pub repo_path: String,
    pub entry: WorktreeEntry,
}

/// Each worktree as its repository path and entry view.
pub open spec fn repo_worktree_views(v: Seq<RepoWorktree>) -> Seq<(Seq<char>, EntryView)> {
    v.map_values(|w: RepoWorktree| (w.repo_path@, w.entry@))
}

/// The worktrees of one listing, each with its repository; none where the
/// listing failed.
pub open spec fn worktrees_of(l: ListingView) -> Seq<(Seq<char>, EntryView)> {
    match l.output {
        Some(o) => listed_worktrees(o).map_values(|e: EntryView| (l.repo_path, e)),
        None => Seq::empty(),
    }
}

/// The worktrees of all listings, repository by repository.
pub open spec fn all_worktrees(ls: Seq<ListingView>) -> Seq<(Seq<char>, EntryView)>
    decreases ls.len(),
{
    if ls.len() == 0 {
        Seq::empty()
    } else {
        all_worktrees(ls.drop_last()) + worktrees_of(ls.last())
    }
}

/// A repository whose listing failed adds no worktree, and takes none away:
/// the result is what the other repositories give.
pub proof fn lemma_failed_listing_contributes_nothing(ls: Seq<ListingView>, k: int)
    requires
        0 <= k < ls.len(),
        ls[k].output is None,
    ensures
        all_worktrees(ls) == all_worktrees(ls.remove(k)),
    decreases ls.len(),
{
    if k == ls.len() - 1 {
        assert(ls.remove(k) =~= ls.drop_last());
        assert(worktrees_of(ls.last()) =~= Seq::<(Seq<char>, EntryView)>::empty());
        assert(all_worktrees(ls) =~= all_worktrees(ls.drop_last()));
    } else {
        let r = ls.remove(k);
        lemma_failed_listing_contributes_nothing(ls.drop_last(), k);
        assert(r.drop_last() =~= ls.drop_last().remove(k));
        assert(r.last() == ls.last());
    }
}

/// The worktrees of every repository whose listing succeeded, in order,
/// each with its repository path.
pub fn collect_worktrees(listings: &Vec<RepoListing>) -> (r: Vec<RepoWorktree>)
    ensures
        repo_worktree_views(r@) == all_worktrees(listing_views(listings@)),
{
    let ghost lv = listing_views(listings@);
    let mut out: Vec<RepoWorktree> = Vec::new();
    assert(repo_worktree_views(out@) =~= Seq::<(Seq<char>, EntryView)>::empty());
    for i in 0..listings.len()
        invariant
            lv == listing_views(listings@),
            repo_worktree_views(out@) == all_worktrees(lv.take(i as int)),
    {
        assert(lv.take(i + 1).drop_last() =~= lv.take(i as int));
        let l = &listings[i];
        match &l.output {
            Some(o) => {
                let mut parsed = parse_worktree_list(o.as_str());
                let ghost ev = entry_views(parsed@);
                let ghost start = repo_worktree_views(out@);
                let total = parsed.len();
                let mut k: usize = 0;
                while parsed.len() > 0
                    invariant
                        k + parsed.len() == total,
                        total == ev.len(),
                        entry_views(parsed@) == ev.skip(k as int),
                        repo_worktree_views(out@) == start + ev.take(k as int).map_values(
                            |e: EntryView| (l.repo_path@, e),
                        ),
                    decreases parsed.len(),
                {
                    let ghost before = parsed@;
                    let e = parsed.remove(0);
                    assert(e@ == ev[k as int]) by {
                        assert(entry_views(before)[0] == e@);
                    }
                    let w = RepoWorktree { repo_path: l.repo_path.clone(), entry: e };
                    let ghost prev = out@;
                    out.push(w);
                    assert(repo_worktree_views(out@) =~= repo_worktree_views(prev).push(
                        (l.repo_path@, e@),
                    ));
                    assert(ev.take(k + 1).map_values(|e: EntryView| (l.repo_path@, e)) =~= ev.take(
                        k as int,
                    ).map_values(|e: EntryView| (l.repo_path@, e)).push((l.repo_path@, e@)));
                    assert forall|j: int| 0 <= j < parsed@.len() implies entry_views(parsed@)[j]
                        == ev.skip(k + 1)[j] by {
                        assert(parsed@[j] == before[j + 1]);
                        assert(entry_views(before)[j + 1] == ev.skip(k as int)[j + 1]);
                    }
                    k = k + 1;
                    assert(entry_views(parsed@) =~= ev.skip(k as int));
                }
                assert(ev.take(k as int) =~= ev);
                assert(repo_worktree_views(out@) =~= all_worktrees(lv.take(i + 1)));
            },
            None => {
                assert(repo_worktree_views(out@) =~= all_worktrees(lv.take(i + 1)));
            },
        }
    }
    assert(lv.take(listings.len() as int) =~= lv);
    out
}

/// Everything known about one worktree.
pub struct WorktreeInfo {
    pub path: String,
    pub branch: String,
    pub repo_path: String,
    pub issue_number: Option<u32>,
    pub session: Option<SessionMatch>,
    /// The session's live tasks, by numeric id.
    pub tasks: Vec<Task>,
    /// The tasks rebuilt from the transcript; only where no live task
    /// directory exists.
    pub completed_tasks: Vec<Task>,
    pub status: Option<String>,
}

/// Assembles the record of a worktree. `live_tasks` is `None` where the
/// session has no live task directory; only then is the transcript mined.
pub fn build_worktree_info(
    worktree: RepoWorktree,
    session: Option<SessionMatch>,
    live_tasks: Option<Vec<Task>>,
    transcript: Option<String>,
    status: Option<String>,
) -> (r: WorktreeInfo)
    ensures
        r.path@ == worktree.entry.path@,
        r.branch@ == worktree.entry.branch@,
        r.repo_path@ == worktree.repo_path@,
        r.issue_number == issue_number(worktree.entry.branch@),
        r.session == session,
        task_views(r.tasks@) == match live_tasks {
            Some(v) => sorted_by_id(task_views(v@)),
            None => Seq::empty(),
        },
        task_views(r.completed_tasks@) == match live_tasks {
            Some(_) => Seq::empty(),
            None => match transcript {
                Some(t) => mined_tasks(t@),
                None => Seq::<crate::tasks::TaskView>::empty(),
            },
        },
        r.status == status,
{
    let issue = extract_issue_number(worktree.entry.branch.as_str());
    let (tasks, completed) = match live_tasks {
        Some(v) => {
            let sorted = sort_tasks_by_id(v);
            let none: Vec<Task> = Vec::new();
            assert(task_views(none@) =~= Seq::empty());
            (sorted, none)
        },
        None => {
            let none: Vec<Task> = Vec::new();
            assert(task_views(none@) =~= Seq::empty());
            let mined = match &transcript {
                Some(t) => mine_completed_tasks(t.as_str()),
                None => {
                    let empty: Vec<Task> = Vec::new();
                    assert(task_views(empty@) =~= Seq::empty());
                    empty
                },
            };
            (none, mined)
        },
    };
    WorktreeInfo {
        path: worktree.entry.path,
        branch: worktree.entry.branch,
        repo_path: worktree.repo_path,
        issue_number: issue,
        session,
        tasks,
        completed_tasks: completed,
        status,
    }
}

} // verus!
