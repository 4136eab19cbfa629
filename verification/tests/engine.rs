use grove::addflow::{apply_branch_prefix, branch_checked_out, branch_ref,
    build_add_worktree_args, build_remove_worktree_args, canonical_remote_ref,
    choose_default_worktree_spec, generated_worktree_spec, is_name_available,
    parse_remote_tracking_reference, pr_branch_name, pr_worktree_name, resolve_target_branch,
    resolve_worktree_spec, sanitize_pr_branch, sync_refspec, tracking_fetch_refspec};
use grove::bootstrap::{classify_outcome, format_bootstrap_command, has_blank_program,
    summarize_bootstrap, BootstrapCommand, FailureReason, SpawnOutcome};
use grove::merge::{branch_listed_merged, diff_files, get_default_branch, is_age_candidate,
    is_branch_merged, prune_excluded, select_age_candidates};
use grove::model::Worktree;

fn plain_worktree(path: &str, branch: &str, created_at: i64) -> Worktree {
    Worktree {
        path: path.as_bytes().to_vec(),
        branch: branch.as_bytes().to_vec(),
        head: b"abc".to_vec(),
        created_at,
        is_dirty: false,
        is_locked: false,
        is_prunable: false,
        is_main: false,
    }
}

fn command_of(program: &str, args: &[&str]) -> BootstrapCommand {
    BootstrapCommand {
        program: program.as_bytes().to_vec(),
        args: args.iter().map(|a| a.as_bytes().to_vec()).collect(),
    }
}

#[test]
fn resolve_target_branch_defaults_to_name_without_track() {
    let result = resolve_target_branch(b"foo", None).unwrap();
    assert_eq!(result, b"foo");
}

#[test]
fn resolve_target_branch_uses_remote_branch_part() {
    let track = b"origin/feature/new-ui".to_vec();
    let result = resolve_target_branch(b"foo", Some(&track)).unwrap();
    assert_eq!(result, b"feature/new-ui");
}

#[test]
fn resolve_target_branch_rejects_non_remote_ref() {
    let track = b"refs/heads/feature/new-ui".to_vec();
    let result = resolve_target_branch(b"foo", Some(&track));
    assert!(result.is_none());
}

#[test]
fn apply_branch_prefix_adds_separator_when_configured() {
    let prefix = b"safia".to_vec();
    let prefixed = apply_branch_prefix(Some(&prefix), b"quiet-meadow");
    assert_eq!(prefixed, b"safia/quiet-meadow");
}

#[test]
fn apply_branch_prefix_trims_whitespace_and_trailing_slashes() {
    let prefix = b"  teams/safia/  ".to_vec();
    let prefixed = apply_branch_prefix(Some(&prefix), b"quiet-meadow");
    assert_eq!(prefixed, b"teams/safia/quiet-meadow");
}

#[test]
fn apply_branch_prefix_ignores_empty_prefix() {
    let prefix = b"  /  ".to_vec();
    let unprefixed = apply_branch_prefix(Some(&prefix), b"quiet-meadow");
    assert_eq!(unprefixed, b"quiet-meadow");
}

#[test]
fn generated_worktree_spec_applies_prefix_only_to_branch_name() {
    let prefix = b"safia".to_vec();
    let spec = generated_worktree_spec(Some(&prefix), b"quiet-meadow");
    assert_eq!(spec.directory_name, b"quiet-meadow");
    assert_eq!(spec.branch_name, b"safia/quiet-meadow");
}

#[test]
fn generated_worktree_spec_without_prefix_keeps_names_equal() {
    let spec = generated_worktree_spec(None, b"quiet-meadow");
    assert_eq!(spec.directory_name, b"quiet-meadow");
    assert_eq!(spec.branch_name, b"quiet-meadow");
}

#[test]
fn provided_name_serves_as_both_names() {
    let name = b"topic".to_vec();
    let spec = resolve_worktree_spec(Some(&name)).unwrap();
    assert_eq!(spec.directory_name, b"topic");
    assert_eq!(spec.branch_name, b"topic");
    assert!(resolve_worktree_spec(None).is_none());
}

#[test]
fn default_spec_takes_first_available_candidate() {
    let candidates = vec![b"one".to_vec(), b"two".to_vec(), b"three".to_vec()];
    let available = vec![false, true, true];
    let prefix = b"me".to_vec();
    let spec = choose_default_worktree_spec(&candidates, &available, Some(&prefix)).unwrap();
    assert_eq!(spec.directory_name, b"two");
    assert_eq!(spec.branch_name, b"me/two");
    let none = choose_default_worktree_spec(&candidates, &vec![false, false, false], None);
    assert!(none.is_none());
    assert!(is_name_available(false, false));
    assert!(!is_name_available(true, false));
    assert!(!is_name_available(false, true));
}

#[test]
fn build_add_worktree_args_for_new_branch_with_track() {
    let track = b"origin/some-remote-branch".to_vec();
    let args = build_add_worktree_args(b"/tmp/repo/pr-9148", b"pr-9148", true, Some(&track));
    let expected: Vec<Vec<u8>> = vec![
        b"worktree".to_vec(),
        b"add".to_vec(),
        b"-b".to_vec(),
        b"pr-9148".to_vec(),
        b"--track".to_vec(),
        b"/tmp/repo/pr-9148".to_vec(),
        b"origin/some-remote-branch".to_vec(),
    ];
    assert_eq!(args, expected);
}

#[test]
fn build_add_worktree_args_for_new_branch_without_track() {
    let args = build_add_worktree_args(b"/tmp/repo/feature", b"feature", true, None);
    let expected: Vec<Vec<u8>> = vec![
        b"worktree".to_vec(),
        b"add".to_vec(),
        b"-b".to_vec(),
        b"feature".to_vec(),
        b"/tmp/repo/feature".to_vec(),
    ];
    assert_eq!(args, expected);
}

#[test]
fn build_add_worktree_args_for_existing_branch_ignores_track() {
    let track = b"origin/existing".to_vec();
    let args = build_add_worktree_args(b"/tmp/repo/existing", b"existing", false, Some(&track));
    let expected: Vec<Vec<u8>> = vec![
        b"worktree".to_vec(),
        b"add".to_vec(),
        b"/tmp/repo/existing".to_vec(),
        b"existing".to_vec(),
    ];
    assert_eq!(args, expected);
}

#[test]
fn remove_args_with_and_without_force() {
    let plain = build_remove_worktree_args(b"/repo/x", false);
    assert_eq!(plain, vec![b"worktree".to_vec(), b"remove".to_vec(), b"/repo/x".to_vec()]);
    let forced = build_remove_worktree_args(b"/repo/x", true);
    assert_eq!(
        forced,
        vec![b"worktree".to_vec(), b"remove".to_vec(), b"--force".to_vec(), b"/repo/x".to_vec()]
    );
}

#[test]
fn parse_remote_tracking_reference_short_form() {
    assert_eq!(
        parse_remote_tracking_reference(b"origin/feature/test"),
        Some((b"origin".to_vec(), b"feature/test".to_vec()))
    );
}

#[test]
fn parse_remote_tracking_reference_full_ref_form() {
    assert_eq!(
        parse_remote_tracking_reference(b"refs/remotes/upstream/main"),
        Some((b"upstream".to_vec(), b"main".to_vec()))
    );
}

#[test]
fn parse_remote_tracking_reference_rejects_non_remote_refs() {
    assert_eq!(parse_remote_tracking_reference(b"refs/heads/feature/test"), None);
    assert_eq!(parse_remote_tracking_reference(b"origin"), None);
}

#[test]
fn ref_and_refspec_builders() {
    assert_eq!(branch_ref(b"main"), b"refs/heads/main");
    assert_eq!(canonical_remote_ref(b"origin", b"dev"), b"refs/remotes/origin/dev");
    assert_eq!(tracking_fetch_refspec(b"origin", b"dev"), b"dev:refs/remotes/origin/dev");
    assert_eq!(sync_refspec(b"main"), b"main:main");
}

#[test]
fn pr_names_are_sanitized() {
    assert_eq!(sanitize_pr_branch(b"fix/login bug"), b"fix-login-bug");
    assert_eq!(sanitize_pr_branch(b"--weird--name--"), b"weird-name");
    assert_eq!(pr_worktree_name(9148, b"fix/login"), b"pr-9148-fix-login");
    assert_eq!(pr_branch_name(7), b"pr-7");
}

#[test]
fn checked_out_branch_blocks_sync() {
    let worktrees = vec![plain_worktree("/r/a", "main", 0), plain_worktree("/r/b", "dev", 0)];
    assert!(branch_checked_out(&worktrees, b"dev"));
    assert!(!branch_checked_out(&worktrees, b"feature"));
}

#[test]
fn bootstrap_no_commands_is_noop() {
    let summary = summarize_bootstrap(&vec![], &vec![]);
    assert_eq!(summary.total, 0);
    assert_eq!(summary.succeeded, 0);
    assert_eq!(summary.failed.len(), 0);
}

#[test]
fn bootstrap_continues_after_failure() {
    let commands = vec![
        command_of("git", &["--version"]),
        command_of("git", &["--definitely-invalid-flag"]),
        command_of("git", &["--version"]),
    ];
    let outcomes = vec![
        SpawnOutcome::Exited(0),
        SpawnOutcome::Exited(129),
        SpawnOutcome::Exited(0),
    ];
    let summary = summarize_bootstrap(&commands, &outcomes);
    assert_eq!(summary.total, 3);
    assert_eq!(summary.succeeded, 2);
    assert_eq!(summary.failed.len(), 1);
    assert_eq!(summary.failed[0].0, b"git --definitely-invalid-flag".to_vec());
}

#[test]
fn bootstrap_marks_empty_program_as_failed() {
    let commands = vec![command_of("", &["--version"])];
    let outcomes = vec![SpawnOutcome::Exited(0)];
    let summary = summarize_bootstrap(&commands, &outcomes);
    assert_eq!(summary.total, 1);
    assert_eq!(summary.succeeded, 0);
    assert_eq!(summary.failed.len(), 1);
    assert!(matches!(summary.failed[0].1, FailureReason::EmptyProgram));
}

#[test]
fn bootstrap_outcome_classification() {
    let ok = command_of("git", &[]);
    assert!(classify_outcome(&ok, &SpawnOutcome::Exited(0)).is_none());
    assert!(matches!(
        classify_outcome(&ok, &SpawnOutcome::Exited(2)),
        Some(FailureReason::ExitCode(2))
    ));
    assert!(matches!(
        classify_outcome(&ok, &SpawnOutcome::Signaled),
        Some(FailureReason::Signal)
    ));
    assert!(matches!(
        classify_outcome(&ok, &SpawnOutcome::NotRun(b"no such file".to_vec())),
        Some(FailureReason::SpawnError(_))
    ));
    assert!(has_blank_program(&command_of("   ", &[])));
    assert!(!has_blank_program(&ok));
}

#[test]
fn bootstrap_command_display() {
    assert_eq!(format_bootstrap_command(&command_of("npm", &["install"])), b"npm install");
    assert_eq!(format_bootstrap_command(&command_of("make", &[])), b"make");
    assert_eq!(
        format_bootstrap_command(&command_of("cargo", &["build", "--release"])),
        b"cargo build --release"
    );
}

#[test]
fn merged_branch_listing_membership() {
    let output = b"  dev\n* main\n  feature/x\n";
    assert!(branch_listed_merged(output, b"dev"));
    assert!(branch_listed_merged(output, b"main"));
    assert!(branch_listed_merged(output, b"feature/x"));
    assert!(!branch_listed_merged(output, b"feature"));
    assert!(!branch_listed_merged(output, b""));
}

#[test]
fn zero_diffed_files_classify_as_merged() {
    assert!(is_branch_merged(false, b"", None));
    assert!(is_branch_merged(false, b"\n\n", None));
}

#[test]
fn squash_merge_decision() {
    let listed = false;
    let touched = b"src/a.rs\nsrc/b.rs\n";
    let empty_rediff = b"  \n".to_vec();
    let real_rediff = b"diff --git a/src/a.rs b/src/a.rs\n".to_vec();
    assert!(is_branch_merged(listed, touched, Some(&empty_rediff)));
    assert!(!is_branch_merged(listed, touched, Some(&real_rediff)));
    assert!(!is_branch_merged(listed, touched, None));
    assert!(is_branch_merged(true, touched, None));
}

#[test]
fn diff_file_lists_drop_blank_lines() {
    let files = diff_files(b"a.txt\n\nb/c.txt\n");
    assert_eq!(files, vec![b"a.txt".to_vec(), b"b/c.txt".to_vec()]);
    assert_eq!(diff_files(b""), Vec::<Vec<u8>>::new());
}

#[test]
fn default_branch_resolution() {
    let symref = b"refs/remotes/origin/trunk\n".to_vec();
    assert_eq!(get_default_branch(Some(&symref), false, false).unwrap(), b"trunk");
    assert_eq!(get_default_branch(None, true, true).unwrap(), b"main");
    assert_eq!(get_default_branch(None, false, true).unwrap(), b"master");
    assert!(get_default_branch(None, false, false).is_none());
}

#[test]
fn age_pruning_selects_old_known_worktrees() {
    let now_ms: i64 = 1_700_000_000_000;
    let threshold: u64 = 30 * 24 * 3600 * 1000;
    let old = (now_ms / 1000) - 40 * 24 * 3600;
    let fresh = (now_ms / 1000) - 5 * 24 * 3600;
    assert!(is_age_candidate(old, now_ms, threshold));
    assert!(!is_age_candidate(fresh, now_ms, threshold));
    assert!(!is_age_candidate(0, now_ms, threshold));

    let mut main_wt = plain_worktree("/r/main", "main", old);
    main_wt.is_main = true;
    let mut locked = plain_worktree("/r/locked", "locked-branch", old);
    locked.is_locked = true;
    let detached = plain_worktree("/r/det", "detached HEAD", old);
    let keepable = plain_worktree("/r/keep", "keep", fresh);
    let unknown = plain_worktree("/r/unknown", "unknown-age", 0);
    let target = plain_worktree("/r/old", "old-branch", old);
    let worktrees = vec![main_wt, locked, detached, keepable, unknown, target];
    let selected = select_age_candidates(&worktrees, b"", now_ms, threshold);
    assert_eq!(selected.len(), 1);
    assert_eq!(selected[0].branch, b"old-branch".to_vec());
}

#[test]
fn prune_exclusions() {
    let mut w = plain_worktree("/r/a", "a", 0);
    assert!(!prune_excluded(&w, b"main"));
    w.is_main = true;
    assert!(prune_excluded(&w, b"main"));
    w.is_main = false;
    w.is_locked = true;
    assert!(prune_excluded(&w, b"main"));
    w.is_locked = false;
    w.branch = b"detached HEAD".to_vec();
    assert!(prune_excluded(&w, b"main"));
    w.branch = b"main".to_vec();
    assert!(prune_excluded(&w, b"main"));
    assert!(!prune_excluded(&w, b""));
}
