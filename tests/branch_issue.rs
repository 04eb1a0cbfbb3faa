use synthia_core::branch::extract_issue_number;

#[test]
fn prefixed_and_bare_branches_give_their_number() {
    for name in ["feature/42-foo", "issue-42-foo", "fix/42-foo", "bugfix/42-foo", "hotfix/42-foo", "42-foo"] {
        assert_eq!(extract_issue_number(name), Some(42), "{}", name);
    }
}

#[test]
fn branch_without_number_gives_none() {
    assert_eq!(extract_issue_number("foo-bar"), None);
    assert_eq!(extract_issue_number(""), None);
    assert_eq!(extract_issue_number("main"), None);
}

#[test]
fn bare_number_must_lead_the_name() {
    assert_eq!(extract_issue_number("x/42-foo"), None);
    assert_eq!(extract_issue_number("42foo"), None);
    assert_eq!(extract_issue_number("007-bond"), Some(7));
}

#[test]
fn prefixed_pattern_may_stand_inside_the_name() {
    assert_eq!(extract_issue_number("user/feature/15-login"), Some(15));
}

#[test]
fn earlier_pattern_wins_over_later_one() {
    assert_eq!(extract_issue_number("fix/3-feature/8-x"), Some(8));
    assert_eq!(extract_issue_number("12-hotfix/34-x"), Some(34));
}

#[test]
fn number_must_be_followed_by_dash() {
    assert_eq!(extract_issue_number("feature/42"), None);
    assert_eq!(extract_issue_number("feature/-42-x"), None);
}

#[test]
fn number_beyond_u32_gives_none() {
    assert_eq!(extract_issue_number("99999999999-big"), None);
    assert_eq!(extract_issue_number("4294967295-max"), Some(4294967295));
    assert_eq!(extract_issue_number("4294967296-over"), None);
}

#[test]
fn overflowing_pattern_falls_through_to_the_next() {
    assert_eq!(extract_issue_number("feature/99999999999-x-issue-5-y"), Some(5));
}
