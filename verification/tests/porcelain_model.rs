use grove::model::{complete_all, complete_worktree_info, created_at_from_times,
    find_worktree_by_identifier, get_worktree_status, match_worktree_by_name,
    should_include_worktree, Worktree, WorktreeListOptions};
use grove::porcelain::parse_worktree_lines;

fn sample_worktree(path: &str, branch: &str) -> Worktree {
    Worktree {
        path: path.as_bytes().to_vec(),
        branch: branch.as_bytes().to_vec(),
        head: b"abc123".to_vec(),
        created_at: 0,
        is_dirty: false,
        is_locked: false,
        is_prunable: false,
        is_main: false,
    }
}

#[test]
fn parse_locked_worktree() {
    let output =
        b"worktree /path/to/worktree\nHEAD abc123def456\nbranch refs/heads/feature-branch\nlocked\n";
    let worktrees = parse_worktree_lines(output);
    assert_eq!(worktrees.len(), 1);
    assert!(worktrees[0].is_locked);
}

#[test]
fn parse_prunable_worktree() {
    let output =
        b"worktree /path/to/worktree\nHEAD abc123def456\nbranch refs/heads/stale-branch\nprunable\n";
    let worktrees = parse_worktree_lines(output);
    assert_eq!(worktrees.len(), 1);
    assert!(worktrees[0].is_prunable);
}

#[test]
fn parse_detached_head() {
    let output = b"worktree /path/to/worktree\nHEAD abc123def456\ndetached\n";
    let worktrees = parse_worktree_lines(output);
    assert_eq!(worktrees.len(), 1);
    assert_eq!(worktrees[0].branch.as_deref(), Some(b"detached HEAD".as_slice()));
}

#[test]
fn parse_main_branch() {
    let output = b"worktree /path/to/main-worktree\nHEAD abc123def456\nbranch refs/heads/main\n";
    let worktrees = parse_worktree_lines(output);
    assert_eq!(worktrees.len(), 1);
    assert_eq!(worktrees[0].branch.as_deref(), Some(b"main".as_slice()));
}

#[test]
fn parse_master_branch() {
    let output =
        b"worktree /path/to/master-worktree\nHEAD abc123def456\nbranch refs/heads/master\n";
    let worktrees = parse_worktree_lines(output);
    assert_eq!(worktrees.len(), 1);
    assert_eq!(worktrees[0].branch.as_deref(), Some(b"master".as_slice()));
}

#[test]
fn skip_bare_repository() {
    let output = b"worktree /path/to/bare-repo\nbare\n\nworktree /path/to/regular-worktree\nHEAD abc123def456\nbranch refs/heads/feature\n";
    let worktrees = parse_worktree_lines(output);
    assert_eq!(worktrees.len(), 1);
    assert_eq!(worktrees[0].branch.as_deref(), Some(b"feature".as_slice()));
}

#[test]
fn parse_multiple_worktrees() {
    let output = b"worktree /path/to/main\nHEAD abc123\nbranch refs/heads/main\n\nworktree /path/to/feature1\nHEAD def456\nbranch refs/heads/feature/one\nlocked\n\nworktree /path/to/feature2\nHEAD 789abc\nbranch refs/heads/feature/two\nprunable\n";
    let worktrees = parse_worktree_lines(output);
    assert_eq!(worktrees.len(), 3);
    assert_eq!(worktrees[0].branch.as_deref(), Some(b"main".as_slice()));
    assert!(worktrees[1].is_locked);
    assert!(worktrees[2].is_prunable);
}

#[test]
fn parse_never_emits_bare_records() {
    let output = b"worktree /repo/bare\nbare\nworktree /repo/a\nbare\nworktree /repo/b\nHEAD 1\n";
    let worktrees = parse_worktree_lines(output);
    assert_eq!(worktrees.len(), 1);
    assert!(worktrees.iter().all(|w| !w.is_bare));
}

#[test]
fn parse_ignores_unrecognized_lines() {
    let output = b"worktree /repo/a\nHEAD 123\nsomething-new value\nbranch refs/heads/x\n";
    let worktrees = parse_worktree_lines(output);
    assert_eq!(worktrees.len(), 1);
    assert_eq!(worktrees[0].branch.as_deref(), Some(b"x".as_slice()));
    assert_eq!(worktrees[0].head.as_deref(), Some(b"123".as_slice()));
}

#[test]
fn parse_handles_carriage_returns() {
    let output = b"worktree /path/to/worktree\r\nHEAD abc123\r\nbranch refs/heads/x\r\nlocked\r\n";
    let worktrees = parse_worktree_lines(output);
    assert_eq!(worktrees.len(), 1);
    assert_eq!(worktrees[0].path.as_deref(), Some(b"/path/to/worktree".as_slice()));
    assert_eq!(worktrees[0].branch.as_deref(), Some(b"x".as_slice()));
    assert!(worktrees[0].is_locked);
}

#[test]
fn match_worktree_by_name_trims_trailing_slashes() {
    let worktrees = vec![
        sample_worktree("/repo/main", "main"),
        sample_worktree("/repo/feature/my-branch", "feature/my-branch"),
    ];
    let found = match_worktree_by_name(&worktrees, b"feature/my-branch/");
    assert_eq!(
        found.map(|i| worktrees[i].branch.clone()),
        Some(b"feature/my-branch".to_vec())
    );
}

#[test]
fn match_worktree_by_name_suffix_match_with_trailing_slash() {
    let worktrees = vec![sample_worktree("/repo/feature/my-branch", "feature/my-branch")];
    let found = match_worktree_by_name(&worktrees, b"my-branch/");
    assert_eq!(
        found.map(|i| worktrees[i].branch.clone()),
        Some(b"feature/my-branch".to_vec())
    );
}

#[test]
fn match_worktree_by_directory_name() {
    let worktrees = vec![
        sample_worktree("/repo/dir-one", "branch-one"),
        sample_worktree("/repo/dir-two", "branch-two"),
    ];
    assert_eq!(match_worktree_by_name(&worktrees, b"dir-two"), Some(1));
    assert_eq!(match_worktree_by_name(&worktrees, b"branch-one"), Some(0));
    assert_eq!(match_worktree_by_name(&worktrees, b"absent"), None);
    assert_eq!(match_worktree_by_name(&worktrees, b"///"), None);
}

#[test]
fn find_worktree_by_identifier_matches_branch_with_trailing_slash() {
    let worktrees = vec![sample_worktree("/repo/feature/my-branch", "feature/my-branch")];
    let found = find_worktree_by_identifier(&worktrees, b"feature/my-branch/");
    assert_eq!(
        found.map(|i| worktrees[i].branch.clone()),
        Some(b"feature/my-branch".to_vec())
    );
}

#[test]
fn find_worktree_by_identifier_matches_path_with_trailing_slash() {
    let worktrees = vec![sample_worktree("/repo/feature/my-branch", "feature/my-branch")];
    let found = find_worktree_by_identifier(&worktrees, b"/repo/feature/my-branch/");
    assert_eq!(
        found.map(|i| worktrees[i].branch.clone()),
        Some(b"feature/my-branch".to_vec())
    );
}

#[test]
fn complete_worktree_info_derives_main_flag() {
    let partials = parse_worktree_lines(b"worktree /repo/main\nHEAD abc\nbranch refs/heads/main\n");
    let mut partials = partials;
    let w = complete_worktree_info(partials.remove(0), false, 42);
    assert!(w.is_main);
    assert_eq!(w.path, b"/repo/main".to_vec());
    assert_eq!(w.branch, b"main".to_vec());
    assert_eq!(w.head, b"abc".to_vec());
    assert_eq!(w.created_at, 42);

    let mut others = parse_worktree_lines(b"worktree /repo/x\nbranch refs/heads/x\n");
    let wx = complete_worktree_info(others.remove(0), true, 0);
    assert!(!wx.is_main);
    assert!(wx.is_dirty);
    assert_eq!(wx.head, Vec::<u8>::new());
}

#[test]
fn complete_all_preserves_order_and_probes() {
    let partials =
        parse_worktree_lines(b"worktree /repo/a\nbranch refs/heads/a\n\nworktree /repo/b\nbranch refs/heads/b\n");
    let listing = complete_all(partials, &vec![true, false], &vec![10, 20]);
    assert_eq!(listing.len(), 2);
    assert_eq!(listing[0].path, b"/repo/a".to_vec());
    assert!(listing[0].is_dirty);
    assert_eq!(listing[0].created_at, 10);
    assert_eq!(listing[1].path, b"/repo/b".to_vec());
    assert!(!listing[1].is_dirty);
    assert_eq!(listing[1].created_at, 20);
}

#[test]
fn listing_same_text_same_fields_except_dirty() {
    let text = b"worktree /repo/a\nHEAD 1\nbranch refs/heads/a\n\nworktree /repo/b\nHEAD 2\nbranch refs/heads/b\nlocked\n";
    let l1 = complete_all(parse_worktree_lines(text), &vec![false, false], &vec![5, 6]);
    let l2 = complete_all(parse_worktree_lines(text), &vec![true, false], &vec![5, 6]);
    assert_eq!(l1.len(), l2.len());
    for (a, b) in l1.iter().zip(l2.iter()) {
        assert_eq!(a.path, b.path);
        assert_eq!(a.branch, b.branch);
        assert_eq!(a.head, b.head);
        assert_eq!(a.created_at, b.created_at);
        assert_eq!(a.is_locked, b.is_locked);
        assert_eq!(a.is_prunable, b.is_prunable);
        assert_eq!(a.is_main, b.is_main);
    }
    assert!(l2[0].is_dirty && !l1[0].is_dirty);
}

#[test]
fn created_at_fallback_chain() {
    assert_eq!(created_at_from_times(Some(100), Some(200), Some(300)), 100);
    assert_eq!(created_at_from_times(None, Some(200), Some(300)), 200);
    assert_eq!(created_at_from_times(None, None, Some(300)), 300);
    assert_eq!(created_at_from_times(None, None, None), 0);
}

#[test]
fn worktree_status_words() {
    let mut w = sample_worktree("/repo/a", "a");
    assert_eq!(get_worktree_status(&w), b"clean".to_vec());
    w.is_dirty = true;
    assert_eq!(get_worktree_status(&w), b"dirty".to_vec());
    w.is_prunable = true;
    assert_eq!(get_worktree_status(&w), b"dirty, prunable".to_vec());
    w.is_dirty = false;
    assert_eq!(get_worktree_status(&w), b"prunable".to_vec());
}

#[test]
fn listing_filters() {
    let mut w = sample_worktree("/repo/a", "a");
    let all = WorktreeListOptions { dirty: false, locked: false, details: false };
    let only_dirty = WorktreeListOptions { dirty: true, locked: false, details: false };
    let only_locked = WorktreeListOptions { dirty: false, locked: true, details: false };
    assert!(should_include_worktree(&w, &all));
    assert!(!should_include_worktree(&w, &only_dirty));
    w.is_dirty = true;
    assert!(should_include_worktree(&w, &only_dirty));
    assert!(!should_include_worktree(&w, &only_locked));
}
