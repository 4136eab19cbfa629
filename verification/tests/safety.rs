use grove::path_safety::{confirm_worktree_path, get_worktree_path, trim_trailing_branch_slashes,
    validate_branch_name, ValidationError};

#[test]
fn reject_branch_names_with_double_dots() {
    assert!(get_worktree_path(b"../malicious", b"/tmp/project").is_err());
}

#[test]
fn reject_embedded_double_dots() {
    assert!(get_worktree_path(b"feature/../../../etc/passwd", b"/tmp/project").is_err());
}

#[test]
fn reject_absolute_paths() {
    assert!(get_worktree_path(b"/etc/passwd", b"/tmp/project").is_err());
}

#[test]
fn reject_angle_brackets() {
    assert!(get_worktree_path(b"feature<test>", b"/tmp/project").is_err());
    assert!(get_worktree_path(b"feature>test", b"/tmp/project").is_err());
}

#[test]
fn reject_colon() {
    assert!(get_worktree_path(b"feature:test", b"/tmp/project").is_err());
}

#[test]
fn reject_quotes() {
    assert!(get_worktree_path(b"feature\"test", b"/tmp/project").is_err());
}

#[test]
fn reject_pipe() {
    assert!(get_worktree_path(b"feature|test", b"/tmp/project").is_err());
}

#[test]
fn reject_question_mark() {
    assert!(get_worktree_path(b"feature?test", b"/tmp/project").is_err());
}

#[test]
fn reject_asterisk() {
    assert!(get_worktree_path(b"feature*test", b"/tmp/project").is_err());
}

#[test]
fn accept_simple_branch_names() {
    let result = get_worktree_path(b"feature-branch", b"/tmp/project").unwrap();
    assert_eq!(result, b"/tmp/project/feature-branch");
}

#[test]
fn accept_nested_branch_names() {
    let result = get_worktree_path(b"feature/my-feature", b"/tmp/project");
    assert_eq!(result.unwrap(), b"/tmp/project/feature/my-feature");
}

#[test]
fn accept_branch_with_numbers() {
    assert!(get_worktree_path(b"feature-123", b"/tmp/project").is_ok());
}

#[test]
fn worktree_path_error_variants() {
    assert_eq!(
        get_worktree_path(b"a..b", b"/r"),
        Err(ValidationError::Traversal)
    );
    assert_eq!(
        get_worktree_path(b"a|b", b"/r"),
        Err(ValidationError::ProhibitedChar)
    );
}

#[test]
fn containment_accepts_descendants_only() {
    assert!(confirm_worktree_path(b"/home/u/proj", b"/home/u/proj").is_ok());
    assert!(confirm_worktree_path(b"/home/u/proj/feature", b"/home/u/proj").is_ok());
    assert!(confirm_worktree_path(b"/home/u/proj2", b"/home/u/proj").is_err());
    assert!(confirm_worktree_path(b"/etc/passwd", b"/home/u/proj").is_err());
    assert_eq!(
        confirm_worktree_path(b"/elsewhere", b"/home/u/proj"),
        Err(ValidationError::OutsideProject)
    );
    assert!(confirm_worktree_path(b"/anything", b"/").is_ok());
}

#[test]
fn validate_branch_name_trims_trailing_slashes() {
    assert_eq!(
        validate_branch_name(b"feature/my-branch///").unwrap(),
        b"feature/my-branch"
    );
}

#[test]
fn validate_branch_name_rejects_empty_after_trimming() {
    assert!(validate_branch_name(b"///").is_err());
}

#[test]
fn validate_branch_name_error_variants() {
    assert_eq!(validate_branch_name(b"  "), Err(ValidationError::EmptyName));
    assert_eq!(validate_branch_name(b"a..b"), Err(ValidationError::Traversal));
    assert_eq!(validate_branch_name(b"/abs"), Err(ValidationError::Traversal));
    assert_eq!(
        validate_branch_name(b"a*b"),
        Err(ValidationError::ProhibitedChar)
    );
}

#[test]
fn branch_slash_trimming() {
    assert_eq!(trim_trailing_branch_slashes(b"  teams/safia/  "), b"teams/safia");
    assert_eq!(trim_trailing_branch_slashes(b"  /  "), b"");
    assert_eq!(trim_trailing_branch_slashes(b"plain"), b"plain");
}
