use grove::urls::{extract_repo_name, is_valid_git_url, validate_git_url, validate_pr_number,
    validate_version, UrlError};

#[test]
fn extract_repo_name_https_standard() {
    assert_eq!(
        extract_repo_name(b"https://github.com/user/my-repo.git").unwrap(),
        b"my-repo"
    );
}

#[test]
fn extract_repo_name_https_no_git_suffix() {
    assert_eq!(
        extract_repo_name(b"https://github.com/user/my-repo").unwrap(),
        b"my-repo"
    );
}

#[test]
fn extract_repo_name_gitlab_https() {
    assert_eq!(
        extract_repo_name(b"https://gitlab.com/org/project.git").unwrap(),
        b"project"
    );
}

#[test]
fn extract_repo_name_bitbucket_https() {
    assert_eq!(
        extract_repo_name(b"https://bitbucket.org/team/repo-name.git").unwrap(),
        b"repo-name"
    );
}

#[test]
fn extract_repo_name_self_hosted_with_ports() {
    assert_eq!(
        extract_repo_name(b"https://git.company.com:8443/team/project.git").unwrap(),
        b"project"
    );
}

#[test]
fn extract_repo_name_nested_https() {
    assert_eq!(
        extract_repo_name(b"https://github.com/org/group/subgroup/repo.git").unwrap(),
        b"repo"
    );
}

#[test]
fn extract_repo_name_ssh_standard() {
    assert_eq!(
        extract_repo_name(b"git@github.com:user/my-repo.git").unwrap(),
        b"my-repo"
    );
}

#[test]
fn extract_repo_name_ssh_no_git_suffix() {
    assert_eq!(
        extract_repo_name(b"git@github.com:user/my-repo").unwrap(),
        b"my-repo"
    );
}

#[test]
fn extract_repo_name_ssh_nested() {
    assert_eq!(
        extract_repo_name(b"git@github.com:org/group/repo.git").unwrap(),
        b"repo"
    );
}

#[test]
fn extract_repo_name_local_path() {
    assert_eq!(
        extract_repo_name(b"/home/user/projects/my-repo").unwrap(),
        b"my-repo"
    );
}

#[test]
fn extract_repo_name_local_path_git_suffix() {
    assert_eq!(
        extract_repo_name(b"/home/user/projects/my-repo.git").unwrap(),
        b"my-repo"
    );
}

#[test]
fn extract_repo_name_relative_path() {
    assert_eq!(extract_repo_name(b"./my-repo.git").unwrap(), b"my-repo");
}

#[test]
fn extract_repo_name_simple() {
    assert_eq!(extract_repo_name(b"my-repo").unwrap(), b"my-repo");
}

#[test]
fn extract_repo_name_special_chars() {
    assert_eq!(
        extract_repo_name(b"https://github.com/user/my-awesome-repo.git").unwrap(),
        b"my-awesome-repo"
    );
    assert_eq!(
        extract_repo_name(b"https://github.com/user/my_repo.git").unwrap(),
        b"my_repo"
    );
    assert_eq!(
        extract_repo_name(b"https://github.com/user/my.repo.git").unwrap(),
        b"my.repo"
    );
    assert_eq!(
        extract_repo_name(b"https://github.com/user/repo123.git").unwrap(),
        b"repo123"
    );
    assert_eq!(
        extract_repo_name(b"git@github.com:user/My_Repo-v2.0.git").unwrap(),
        b"My_Repo-v2.0"
    );
}

#[test]
fn extract_repo_name_empty_string() {
    assert!(extract_repo_name(b"").is_err());
}

#[test]
fn extract_repo_name_just_git() {
    assert!(extract_repo_name(b".git").is_err());
}

#[test]
fn extract_repo_name_invalid_ssh() {
    assert!(extract_repo_name(b"git@").is_err());
}

#[test]
fn extract_repo_name_dot_path() {
    assert!(extract_repo_name(b".").is_err());
}

#[test]
fn extract_repo_name_double_dot_https() {
    assert!(extract_repo_name(b"https://github.com/user/..").is_err());
}

#[test]
fn extract_repo_name_double_dot_ssh() {
    assert!(extract_repo_name(b"git@github.com:user/..").is_err());
}

#[test]
fn extract_repo_name_error_variants() {
    assert_eq!(extract_repo_name(b"git@"), Err(UrlError::InvalidSshUrl));
    assert_eq!(extract_repo_name(b".git"), Err(UrlError::NoRepoName));
}

#[test]
fn valid_git_url_https() {
    assert!(is_valid_git_url(b"https://github.com/user/repo.git"));
    assert!(is_valid_git_url(b"https://github.com/user/repo"));
    assert!(is_valid_git_url(b"http://github.com/user/repo"));
}

#[test]
fn valid_git_url_ssh() {
    assert!(is_valid_git_url(b"git@github.com:user/repo.git"));
    assert!(is_valid_git_url(b"ssh://git@github.com/user/repo.git"));
}

#[test]
fn invalid_git_url() {
    assert!(!is_valid_git_url(b""));
    assert!(!is_valid_git_url(b"/path/to/repo"));
    assert!(!is_valid_git_url(b"./repo"));
    assert!(!is_valid_git_url(b"file:///path/to/repo"));
    assert!(!is_valid_git_url(b"my-repo"));
    assert!(!is_valid_git_url(b"git@github.com"));
}

#[test]
fn validate_git_url_echoes_valid_input() {
    assert_eq!(
        validate_git_url(b"https://github.com/user/repo.git").unwrap(),
        b"https://github.com/user/repo.git"
    );
    assert!(validate_git_url(b"not a url").is_none());
}

#[test]
fn pr_number_validation_valid() {
    assert!(validate_pr_number(b"123").is_some());
    assert!(validate_pr_number(b"1").is_some());
    assert!(validate_pr_number(b"99999").is_some());
}

#[test]
fn pr_number_validation_command_injection() {
    assert!(validate_pr_number(b"123; rm -rf /").is_none());
    assert!(validate_pr_number(b"123 && malicious").is_none());
    assert!(validate_pr_number(b"$(whoami)").is_none());
    assert!(validate_pr_number(b"`whoami`").is_none());
}

#[test]
fn pr_number_validation_non_numeric() {
    assert!(validate_pr_number(b"abc").is_none());
    assert!(validate_pr_number(b"12a3").is_none());
    assert!(validate_pr_number(b"-123").is_none());
    assert!(validate_pr_number(b"12.3").is_none());
}

#[test]
fn pr_number_validation_zero_and_overflow() {
    assert!(validate_pr_number(b"0").is_none());
    assert_eq!(validate_pr_number(b"123"), Some(123));
    assert_eq!(validate_pr_number(b"+123"), Some(123));
    assert!(validate_pr_number(b"99999999999999999999999").is_none());
}

#[test]
fn extract_repo_name_trailing_slash() {
    assert_eq!(
        extract_repo_name(b"https://github.com/user/repo/").unwrap(),
        b"repo"
    );
}

#[test]
fn version_format_valid() {
    assert!(validate_version(b"1.0.0"));
    assert!(validate_version(b"v1.0.0"));
    assert!(validate_version(b"2.10.3"));
    assert!(validate_version(b"v0.0.1"));
}

#[test]
fn version_format_prerelease() {
    assert!(validate_version(b"1.0.0-alpha"));
    assert!(validate_version(b"v1.0.0-beta.1"));
    assert!(validate_version(b"1.0.0-rc.2"));
}

#[test]
fn version_format_command_injection() {
    assert!(!validate_version(b"1.0.0; rm -rf /"));
    assert!(!validate_version(b"1.0.0 && malicious"));
    assert!(!validate_version(b"$(whoami)"));
}

#[test]
fn version_format_invalid() {
    assert!(!validate_version(b"1.0"));
    assert!(!validate_version(b"1"));
    assert!(!validate_version(b"latest"));
}
