use synthia_core::matcher::SessionMatch;
use synthia_core::tasks::Task;
use synthia_core::worktree::{
    build_worktree_info, collect_worktrees, parse_worktree_list, RepoListing, RepoWorktree, WorktreeEntry,
};

const LISTING: &str = "worktree /home/u/repo\nHEAD 1111\nbranch refs/heads/main\n\nworktree /home/u/repo-wt\nHEAD 2222\ndetached\n\nworktree /home/u/repo-f\nHEAD 3333\nbranch refs/heads/feature/12-x\n";

fn task(id: &str, status: &str) -> Task {
    Task {
        id: id.to_string(),
        subject: format!("task {}", id),
        status: status.to_string(),
        active_form: None,
        blocked_by: Vec::new(),
    }
}

#[test]
fn porcelain_listing_is_parsed() {
    let wts = parse_worktree_list(LISTING);
    let got: Vec<(&str, &str)> = wts.iter().map(|w| (w.path.as_str(), w.branch.as_str())).collect();
    assert_eq!(
        got,
        vec![("/home/u/repo", "main"), ("/home/u/repo-wt", ""), ("/home/u/repo-f", "feature/12-x")]
    );
}

#[test]
fn empty_listing_has_no_worktree() {
    assert!(parse_worktree_list("").is_empty());
    assert!(parse_worktree_list("\n\n").is_empty());
    assert!(parse_worktree_list("HEAD 1\nbranch refs/heads/x\n").is_empty());
}

#[test]
fn failed_listing_contributes_nothing() {
    let listings = vec![
        RepoListing { repo_path: "/a".to_string(), output: Some("worktree /a\nbranch refs/heads/main\n".to_string()) },
        RepoListing { repo_path: "/b".to_string(), output: None },
        RepoListing { repo_path: "/c".to_string(), output: Some("worktree /c\n\nworktree /c2\n".to_string()) },
    ];
    let all = collect_worktrees(&listings);
    let got: Vec<(&str, &str)> = all.iter().map(|w| (w.repo_path.as_str(), w.entry.path.as_str())).collect();
    assert_eq!(got, vec![("/a", "/a"), ("/c", "/c"), ("/c", "/c2")]);
}

fn repo_worktree(branch: &str) -> RepoWorktree {
    RepoWorktree {
        repo_path: "/repo".to_string(),
        entry: WorktreeEntry { path: "/repo/wt".to_string(), branch: branch.to_string() },
    }
}

#[test]
fn live_tasks_take_precedence() {
    let transcript = "{\"name\":\"TaskCreate\",\"input\":{\"subject\":\"s\"},\"id\":\"1\"}\n{\"name\":\"TaskUpdate\",\"input\":{\"taskId\":\"1\",\"status\":\"completed\"}}".to_string();
    let session = Some(SessionMatch { session_id: "sid".to_string(), project_dir: "pd".to_string() });
    let info = build_worktree_info(
        repo_worktree("feature/99-refactor"),
        session,
        Some(vec![task("10", "pending"), task("2", "in_progress")]),
        Some(transcript.clone()),
        Some("review".to_string()),
    );
    assert_eq!(info.issue_number, Some(99));
    assert_eq!(info.path, "/repo/wt");
    assert_eq!(info.repo_path, "/repo");
    assert_eq!(info.session.as_ref().unwrap().session_id, "sid");
    let ids: Vec<&str> = info.tasks.iter().map(|t| t.id.as_str()).collect();
    assert_eq!(ids, vec!["2", "10"]);
    assert!(info.completed_tasks.is_empty());
    assert_eq!(info.status.as_deref(), Some("review"));

    let empty_dir = build_worktree_info(repo_worktree("main"), None, Some(Vec::new()), Some(transcript.clone()), None);
    assert!(empty_dir.tasks.is_empty());
    assert!(empty_dir.completed_tasks.is_empty());
    assert_eq!(empty_dir.issue_number, None);

    let archived = build_worktree_info(repo_worktree("main"), None, None, Some(transcript), None);
    assert!(archived.tasks.is_empty());
    assert_eq!(archived.completed_tasks.len(), 1);
    assert_eq!(archived.completed_tasks[0].id, "1");
}

#[test]
fn missing_transcript_gives_no_history() {
    let info = build_worktree_info(repo_worktree("main"), None, None, None, None);
    assert!(info.tasks.is_empty());
    assert!(info.completed_tasks.is_empty());
}
