use branch_hygiene::naming::{
    archive_name, based_name, has_prefix_ignoring_case, split_remote, NameError,
};
use branch_hygiene::outcome::handle_process_output;
use branch_hygiene::plan::{
    after_ref_check, append_base_plan, append_base_remote_plan, archive_branch_plan,
    archive_remote_branch_plan, next_action, ref_check, Action, EXIT_TOOL_FAILURE,
};

fn strings(v: &[&str]) -> Vec<String> {
    v.iter().map(|s| s.to_string()).collect()
}

#[test]
fn success_with_output_carries_stdout() {
    let r = handle_process_output(true, b"done\n", b"ignored");
    assert_eq!(r, Ok(Some("done\n".to_string())));
}

#[test]
fn success_without_output_is_empty() {
    assert_eq!(handle_process_output(true, b"", b"warning"), Ok(None));
}

#[test]
fn failure_with_stderr_carries_it() {
    let r = handle_process_output(false, b"out", b"fatal: bad ref");
    assert_eq!(r, Err(Some("fatal: bad ref".to_string())));
}

#[test]
fn failure_without_stderr_is_empty() {
    assert_eq!(handle_process_output(false, b"out", b""), Err(None));
}

#[test]
fn invalid_utf8_is_replaced() {
    let r = handle_process_output(true, &[b'a', 0xff, b'b'], b"");
    assert_eq!(r, Ok(Some("a\u{FFFD}b".to_string())));
}

#[test]
fn prefix_check_ignores_case() {
    assert!(has_prefix_ignoring_case("ARCHIVE/old", "archive/"));
    assert!(has_prefix_ignoring_case("archive/old", "Archive/"));
    assert!(!has_prefix_ignoring_case("feature/archive/old", "archive/"));
}

#[test]
fn archive_name_prepends_namespace() {
    assert_eq!(archive_name("feature-x"), Ok("archive/feature-x".to_string()));
    assert_eq!(archive_name("Archive/feature-x"), Err(NameError::AlreadyPrefixed));
    assert_eq!(NameError::AlreadyPrefixed.exit_code(), 1);
}

#[test]
fn based_name_adds_separator() {
    assert_eq!(based_name("fix-1", "release"), Ok("release/fix-1".to_string()));
    assert_eq!(based_name("RELEASE/fix-1", "release"), Err(NameError::AlreadyPrefixed));
    assert_eq!(based_name("releases-fix", "release"), Ok("release/releases-fix".to_string()));
}

#[test]
fn split_remote_at_first_slash() {
    assert_eq!(
        split_remote("origin/feature/x"),
        Ok(("origin".to_string(), "feature/x".to_string()))
    );
    assert_eq!(split_remote("feature"), Err(NameError::MissingRemote));
    assert_eq!(split_remote("/x"), Ok((String::new(), "x".to_string())));
}

#[test]
fn archived_remote_branch_is_rejected_before_any_step() {
    let r = archive_remote_branch_plan("main", "origin/archive/feature-x");
    assert_eq!(r, Err(NameError::AlreadyPrefixed));
    assert_eq!(r.unwrap_err().exit_code(), 1);
}

#[test]
fn remote_archive_plan_steps() {
    let steps = archive_remote_branch_plan("main", "origin/feature-x").unwrap();
    let expected = vec![
        strings(&["checkout", "-b", "archive/feature-x", "origin/feature-x"]),
        strings(&["push", "origin", "archive/feature-x"]),
        strings(&["push", "origin", "-u", "archive/feature-x"]),
        strings(&["push", "origin", "--delete", "feature-x"]),
        strings(&["checkout", "main"]),
        strings(&["branch", "--delete", "archive/feature-x"]),
    ];
    assert_eq!(steps, expected);
}

#[test]
fn remote_plan_without_remote_is_rejected() {
    assert_eq!(archive_remote_branch_plan("main", "feature"), Err(NameError::MissingRemote));
}

#[test]
fn base_remote_plan_steps() {
    let steps = append_base_remote_plan("dev", "upstream/fix", "hotfix").unwrap();
    assert_eq!(steps.len(), 6);
    assert_eq!(steps[0], strings(&["checkout", "-b", "hotfix/fix", "upstream/fix"]));
    assert_eq!(steps[3], strings(&["push", "upstream", "--delete", "fix"]));
    assert_eq!(
        append_base_remote_plan("dev", "upstream/HotFix/fix", "hotfix"),
        Err(NameError::AlreadyPrefixed)
    );
}

#[test]
fn local_archive_plan_renames() {
    let steps = archive_branch_plan("old-work").unwrap();
    assert_eq!(steps, vec![strings(&["branch", "-m", "old-work", "archive/old-work"])]);
    assert_eq!(archive_branch_plan("archive/old-work"), Err(NameError::AlreadyPrefixed));
}

#[test]
fn base_plan_checks_destination_first() {
    let (check, steps) = append_base_plan("topic", "team").unwrap();
    assert_eq!(check, strings(&["show-ref", "--verify", "--quiet", "team/topic"]));
    assert_eq!(check, ref_check("team/topic"));
    assert_eq!(steps, vec![strings(&["branch", "-m", "topic", "team/topic"])]);
    assert_eq!(append_base_plan("Team/topic", "team"), Err(NameError::AlreadyPrefixed));
}

#[test]
fn existing_destination_aborts() {
    assert_eq!(after_ref_check(true), Action::Abort(EXIT_TOOL_FAILURE));
    assert_eq!(after_ref_check(false), Action::Run(0));
}

#[test]
fn failed_step_aborts_with_two() {
    assert_eq!(next_action(0, 6, &Err(Some("boom".to_string()))), Action::Abort(2));
    assert_eq!(next_action(3, 6, &Err(None)), Action::Abort(2));
}

#[test]
fn successful_steps_advance_then_finish() {
    assert_eq!(next_action(0, 6, &Ok(None)), Action::Run(1));
    assert_eq!(next_action(4, 6, &Ok(Some("x".to_string()))), Action::Run(5));
    assert_eq!(next_action(5, 6, &Ok(None)), Action::Finish);
}
