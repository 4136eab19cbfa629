use std::time::{SystemTime, UNIX_EPOCH};

use grove::discovery::{discovery_failure, extract_bare_clone_from_gitdir, get_project_root,
    is_bare_repo_by_structure, parse_git_file, resolve_gitdir, GroveDiscoveryError};
use grove::shellcfg::{format_path_with_tilde, get_config_dir, get_config_path,
    mark_shell_tip_shown, should_show_shell_tip, GroveConfig};
use grove::timefmt::{format_created_time, format_created_time_at};

fn now_epoch_secs() -> i64 {
    SystemTime::now().duration_since(UNIX_EPOCH).unwrap().as_secs() as i64
}

#[test]
fn extract_bare_clone_simple() {
    assert_eq!(
        extract_bare_clone_from_gitdir(b"/home/user/projects/myproject/myproject.git/worktrees/main")
            .unwrap(),
        b"/home/user/projects/myproject/myproject.git"
    );
}

#[test]
fn extract_bare_clone_nested_branch() {
    assert_eq!(
        extract_bare_clone_from_gitdir(
            b"/home/user/projects/myproject/myproject.git/worktrees/feature/my-feature"
        )
        .unwrap(),
        b"/home/user/projects/myproject/myproject.git"
    );
}

#[test]
fn extract_bare_clone_deep_nesting() {
    assert_eq!(
        extract_bare_clone_from_gitdir(b"/a/b/c/repo.git/worktrees/feature/sub/deep").unwrap(),
        b"/a/b/c/repo.git"
    );
}

#[test]
fn extract_bare_clone_branch_named_worktrees() {
    assert_eq!(
        extract_bare_clone_from_gitdir(b"/home/user/repo.git/worktrees/fix/worktrees/bug").unwrap(),
        b"/home/user/repo.git"
    );
}

#[test]
fn extract_bare_clone_no_worktrees() {
    assert!(extract_bare_clone_from_gitdir(b"/home/user/repo.git").is_none());
}

#[test]
fn extract_bare_clone_empty() {
    assert!(extract_bare_clone_from_gitdir(b"").is_none());
}

#[test]
fn get_project_root_normal() {
    assert_eq!(
        get_project_root(b"/home/user/projects/myproject/myproject.git"),
        b"/home/user/projects/myproject"
    );
}

#[test]
fn get_project_root_at_root() {
    assert_eq!(get_project_root(b"/myproject.git"), b"/");
}

#[test]
fn get_project_root_nested() {
    assert_eq!(get_project_root(b"/a/b/c/d/repo.git"), b"/a/b/c/d");
}

#[test]
fn grove_discovery_error_basic() {
    let error = GroveDiscoveryError {
        message: b"Not in a grove repository".to_vec(),
        is_regular_git_repo: false,
    };
    assert_eq!(error.message, b"Not in a grove repository".to_vec());
    assert!(!error.is_regular_git_repo);
}

#[test]
fn grove_discovery_error_with_regular_repo() {
    let error = GroveDiscoveryError {
        message: b"Not a grove repo".to_vec(),
        is_regular_git_repo: true,
    };
    assert_eq!(error.message, b"Not a grove repo".to_vec());
    assert!(error.is_regular_git_repo);
}

#[test]
fn discovery_failure_messages_distinguish_repo_kind() {
    let plain = discovery_failure(false);
    assert!(!plain.is_regular_git_repo);
    assert!(plain.message.starts_with(b"Not in a grove repository"));
    let regular = discovery_failure(true);
    assert!(regular.is_regular_git_repo);
    assert!(regular.message.starts_with(b"This is a git repository"));
}

#[test]
fn git_file_parsing() {
    assert_eq!(
        parse_git_file(b"gitdir: /repo.git/worktrees/main\n").unwrap(),
        b"/repo.git/worktrees/main"
    );
    assert_eq!(parse_git_file(b"  gitdir:../x  ").unwrap(), b"../x");
    assert!(parse_git_file(b"not a git file").is_none());
    assert!(parse_git_file(b"gitdir:   ").is_none());
    assert!(parse_git_file(b"gitdir: a\nb").is_none());
}

#[test]
fn gitdir_resolution_honours_absolute_paths() {
    assert_eq!(resolve_gitdir(b"/cwd", b"/abs/repo.git/worktrees/m"), b"/abs/repo.git/worktrees/m");
    assert_eq!(resolve_gitdir(b"/cwd", b"rel/worktrees/m"), b"/cwd/rel/worktrees/m");
}

#[test]
fn worktree_git_file_resolves_through_nested_branch_names() {
    let content = b"gitdir: /home/u/proj/repo.git/worktrees/feature/x\n";
    let gitdir = parse_git_file(content).unwrap();
    let bare = extract_bare_clone_from_gitdir(&gitdir).unwrap();
    assert_eq!(bare, b"/home/u/proj/repo.git");
    assert_eq!(get_project_root(&bare), b"/home/u/proj");
}

#[test]
fn bare_structure_requires_all_markers_and_no_git_entry() {
    assert!(is_bare_repo_by_structure(true, true, true, false));
    assert!(!is_bare_repo_by_structure(true, true, true, true));
    assert!(!is_bare_repo_by_structure(false, true, true, false));
    assert!(!is_bare_repo_by_structure(true, false, true, false));
    assert!(!is_bare_repo_by_structure(true, true, false, false));
}

#[test]
fn format_created_time_epoch() {
    assert_eq!(format_created_time(0), b"unknown");
}

#[test]
fn format_created_time_minutes() {
    let thirty_min_ago = now_epoch_secs() - 30 * 60;
    assert_eq!(format_created_time(thirty_min_ago), b"30 minutes ago");
}

#[test]
fn format_created_time_hours() {
    let two_hours_ago = now_epoch_secs() - 2 * 3600;
    assert_eq!(format_created_time(two_hours_ago), b"2 hours ago");
}

#[test]
fn format_created_time_days() {
    let three_days_ago = now_epoch_secs() - 3 * 24 * 3600;
    assert_eq!(format_created_time(three_days_ago), b"3 days ago");
}

#[test]
fn format_created_time_weeks() {
    let two_weeks_ago = now_epoch_secs() - 14 * 24 * 3600;
    assert_eq!(format_created_time(two_weeks_ago), b"2 weeks ago");
}

#[test]
fn format_created_time_old_date() {
    let two_months_ago = now_epoch_secs() - 60 * 24 * 3600;
    let result = format_created_time(two_months_ago);
    assert_eq!(result.len(), 10);
    assert!(result.iter().enumerate().all(|(i, b)| {
        if i == 4 || i == 7 { *b == b'-' } else { b.is_ascii_digit() }
    }));
}

#[test]
fn format_created_time_renders_known_date() {
    assert_eq!(format_created_time_at(1431648000, 1431648000 + 90 * 24 * 3600), b"2015-05-15");
    assert_eq!(format_created_time_at(0, 12345), b"unknown");
    assert_eq!(format_created_time_at(1000, 1000 + 61), b"1 minute ago");
    assert_eq!(format_created_time_at(1000, 1000 + 3600), b"1 hour ago");
    assert_eq!(format_created_time_at(1000, 1000 + 24 * 3600), b"1 day ago");
    assert_eq!(format_created_time_at(1000, 1000 + 7 * 24 * 3600), b"1 week ago");
}

#[test]
fn format_path_with_tilde_not_in_home() {
    let home = b"/home/user".to_vec();
    assert_eq!(
        format_path_with_tilde(b"/tmp/projects/grove", Some(&home)),
        b"/tmp/projects/grove"
    );
}

#[test]
fn format_path_with_tilde_in_home() {
    let home = b"/home/user".to_vec();
    assert_eq!(format_path_with_tilde(b"/home/user/proj", Some(&home)), b"~/proj");
    assert_eq!(format_path_with_tilde(b"/home/user", Some(&home)), b"~");
    assert_eq!(format_path_with_tilde(b"/home/username/x", Some(&home)), b"/home/username/x");
    assert_eq!(format_path_with_tilde(b"/home/user/proj", None), b"/home/user/proj");
}

#[test]
fn config_paths_follow_home() {
    let home = b"/home/user".to_vec();
    assert_eq!(get_config_dir(Some(&home)), b"/home/user/.config/grove");
    assert_eq!(get_config_dir(None), b".config/grove");
    assert_eq!(get_config_path(Some(&home)), b"/home/user/.config/grove/config.json");
}

#[test]
fn shell_tip_flag_lifecycle() {
    let fresh = GroveConfig::default();
    assert!(should_show_shell_tip(&fresh));
    let seen = mark_shell_tip_shown(&fresh);
    assert!(!should_show_shell_tip(&seen));
    let explicit_false = GroveConfig { shell_tip_shown: Some(false) };
    assert!(should_show_shell_tip(&explicit_false));
}
