use synthia_core::matcher::{
    find_matching_session, score_folded, score_session, IndexedSession, SessionRecord,
};

fn session(
    id: &str,
    project_path: &str,
    canonical: &str,
    branch: Option<&str>,
    summary: Option<&str>,
) -> IndexedSession {
    IndexedSession {
        record: SessionRecord {
            session_id: id.to_string(),
            project_path: project_path.to_string(),
            git_branch: branch.map(|b| b.to_string()),
            summary: summary.map(|s| s.to_string()),
        },
        project_dir: format!("dir-{}", id),
        canonical_project_path: canonical.to_string(),
    }
}

#[test]
fn exact_path_wins_over_any_score() {
    let strong = session(
        "strong",
        "/elsewhere/p",
        "/elsewhere/p",
        Some("feature/7-login"),
        Some("Work on 7 login page"),
    );
    let exact = session("exact", "/other", "/repo/wt", None, None);
    let cands = vec![strong, exact];
    let m = find_matching_session("/repo/wt", "feature/7-login", "/repo", &cands).unwrap();
    assert_eq!(m.session_id, "exact");
    assert_eq!(m.project_dir, "dir-exact");
}

#[test]
fn first_exact_match_wins_among_duplicates() {
    let a = session("a", "/x", "/repo/wt/", None, None);
    let b = session("b", "/y", "/repo/wt", None, None);
    let m = find_matching_session("/repo/wt", "main", "/repo", &vec![a, b]).unwrap();
    assert_eq!(m.session_id, "a");
}

#[test]
fn higher_score_wins() {
    let twenty = session("twenty", "/a", "/a", Some("add-cache"), None);
    let thirty_five = session("thirty-five", "/b", "/b", Some("feature/add-cache"), Some("Add cache layer"));
    assert_eq!(score_session("/wt", "feature/add-cache", "/repo", &twenty), 20);
    assert_eq!(score_session("/wt", "feature/add-cache", "/repo", &thirty_five), 35);
    let cands = vec![twenty, thirty_five];
    let m = find_matching_session("/wt", "feature/add-cache", "/repo", &cands).unwrap();
    assert_eq!(m.session_id, "thirty-five");
}

#[test]
fn branch_prefix_stripping_is_symmetric() {
    let s = session("s", "/p", "/p", Some("99-refactor"), None);
    assert_eq!(score_session("/wt", "feature/99-refactor", "/repo", &s), 20);
    let t = session("t", "/p", "/p", Some("feature/99-refactor"), None);
    assert_eq!(score_session("/wt", "99-refactor", "/repo", &t), 20);
}

#[test]
fn worktree_inside_project_scores_ten() {
    let s = session("s", "/unrelated", "/home/u/proj", None, None);
    assert_eq!(score_session("/home/u/proj/wt", "main", "/repo", &s), 10);
    let sibling = session("s2", "/unrelated", "/home/u/pro", None, None);
    assert_eq!(score_session("/home/u/proj/wt", "main", "/repo", &sibling), 0);
}

#[test]
fn project_and_repo_on_one_line_score_five() {
    let inside = session("s", "/repo/sub", "/canon", None, None);
    assert_eq!(score_session("/wt", "main", "/repo", &inside), 5);
    let above = session("s", "/", "/canon", None, None);
    assert_eq!(score_session("/wt", "main", "/repo", &above), 5);
    let apart = session("s", "/repository", "/canon", None, None);
    assert_eq!(score_session("/wt", "main", "/repo", &apart), 0);
}

#[test]
fn summary_match_ignores_case() {
    let s = session("s", "/p", "/p", None, Some("Fix the LOGIN Flow today"));
    assert_eq!(score_session("/wt", "feature/login-flow", "/repo", &s), 15);
    let t = session("t", "/p", "/p", None, Some("unrelated"));
    assert_eq!(score_session("/wt", "feature/login-flow", "/repo", &t), 0);
}

#[test]
fn folded_score_uses_the_given_forms() {
    let s = session("s", "/p", "/p", None, Some("ignored"));
    assert_eq!(score_folded("/wt", "feature/a-b", "/repo", &s, "a b", Some("x a b y")), 15);
    assert_eq!(score_folded("/wt", "feature/a-b", "/repo", &s, "a b", Some("x A B y")), 0);
    assert_eq!(score_folded("/wt", "feature/a-b", "/repo", &s, "a b", None), 0);
}

#[test]
fn all_signals_add_up() {
    let s = session("s", "/repo", "/repo", Some("feature/x-y"), Some("X Y"));
    assert_eq!(score_session("/repo/wt", "x-y", "/repo", &s), 50);
}

#[test]
fn no_signal_means_no_match() {
    let s = session("s", "/p", "/q", Some("other"), Some("nothing"));
    assert!(find_matching_session("/wt", "feature/x", "/repo", &vec![s]).is_none());
    assert!(find_matching_session("/wt", "feature/x", "/repo", &vec![]).is_none());
}

#[test]
fn tie_keeps_the_first_candidate() {
    let a = session("a", "/p", "/p", Some("x"), None);
    let b = session("b", "/q", "/q", Some("x"), None);
    let m = find_matching_session("/wt", "x", "/repo", &vec![a, b]).unwrap();
    assert_eq!(m.session_id, "a");
}
