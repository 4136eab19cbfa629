//! Repository discovery: the decisions that locate the managed bare clone
//! from filesystem evidence.
//!
//! The caller walks the filesystem and probes directories; this module holds
//! the judgments: the bare-repository structural test, the parsing of a
//! worktree's `.git` file, the recovery of the bare-clone path from a
//! `gitdir` pointer, and the choice of error when the walk fails.

use vstd::prelude::*;
use crate::bytes::{contains_sub_spec, has_sub_at, lit_bytes, trim_seq, trim_start_seq,
    trim_end_byte_seq};
use crate::bytes::{find_byte, find_sub, lit, push_all, rfind_byte, starts_with, subvec, trim,
    trim_end_byte, trim_start};
use crate::urls::{rfind_spec, lemma_rfind_at};

verus! {

/// A discovery failure; the flag records whether an ordinary (non-bare)
/// repository was seen during the walk, which changes the guidance given.
pub struct GroveDiscoveryError {
    pub message: Vec<u8>,
    pub is_regular_git_repo: bool,
}

/// The structural test for a bare repository: `HEAD` file, `refs/` and
/// `objects/` directories, and no `.git` entry at all.
pub open spec fn bare_structure_spec(
    has_head_file: bool,
    has_refs_dir: bool,
    has_objects_dir: bool,
    has_git_entry: bool,
) -> bool {
    !has_git_entry && has_head_file && has_refs_dir && has_objects_dir
}

/// Decides the bare-repository structural test from the caller's probes of
/// one directory.
pub fn is_bare_repo_by_structure(
    has_head_file: bool,
    has_refs_dir: bool,
    has_objects_dir: bool,
    has_git_entry: bool,
) -> (r: bool)
    ensures
        r == bare_structure_spec(has_head_file, has_refs_dir, has_objects_dir, has_git_entry),
{
    if has_git_entry {
        return false;
    }
    has_head_file && has_refs_dir && has_objects_dir
}

/// The `gitdir` pointer in a worktree's `.git` file: the trimmed content
/// must read `gitdir:`, optional whitespace, then a nonempty single-line
/// path.
pub open spec fn git_file_spec(content: Seq<u8>) -> Option<Seq<u8>> {
    let t = trim_seq(content);
    if t.len() >= 7 && t.subrange(0, 7) == lit_bytes("gitdir:") {
        let r = trim_start_seq(t.skip(7));
        if r.len() > 0 && (forall|i: int| 0 <= i < r.len() ==> r[i] != 10) {
            Some(r)
        } else {
            None
        }
    } else {
        None
    }
}

/// Parses the content of a worktree's `.git` file into its `gitdir` path.
pub fn parse_git_file(content: &[u8]) -> (r: Option<Vec<u8>>)
    ensures
        match r {
            Some(v) => git_file_spec(content@) == Some(v@),
            None => git_file_spec(content@) is None,
        },
{
    proof {
        reveal_strlit("gitdir:");
    }
    let marker = lit("gitdir:");
    let t = trim(content);
    if !starts_with(t.as_slice(), marker.as_slice()) {
        return None;
    }
    let tail = subvec(t.as_slice(), 7, t.len());
    proof {
        assert(tail@ =~= t@.skip(7));
    }
    let rest = trim_start(tail.as_slice());
    if rest.len() == 0 {
        return None;
    }
    match find_byte(rest.as_slice(), 10, 0) {
        Some(_) => None,
        None => Some(rest),
    }
}

/// The bare-clone path recovered from a worktree `gitdir` pointer: cut at
/// the first `.git/worktrees/` (keeping `.git`), else at the first
/// `/worktrees/`; anything else is not a worktree gitdir.
pub open spec fn bare_clone_from_gitdir_spec(g: Seq<u8>) -> Option<Seq<u8>> {
    if contains_sub_spec(g, lit_bytes(".git/worktrees/")) {
        Some(g.subrange(0, first_at(g, lit_bytes(".git/worktrees/")) + 4))
    } else if contains_sub_spec(g, lit_bytes("/worktrees/")) {
        Some(g.subrange(0, first_at(g, lit_bytes("/worktrees/"))))
    } else {
        None
    }
}

/// The first offset at which `p` occurs in `s` (meaningful only when it
/// occurs).
pub open spec fn first_at(s: Seq<u8>, p: Seq<u8>) -> int {
    choose|i: int| has_sub_at(s, p, i) && forall|j: int| 0 <= j < i ==> !has_sub_at(s, p, j)
}

proof fn lemma_first_at(s: Seq<u8>, p: Seq<u8>, i: int)
    requires
        has_sub_at(s, p, i),
        forall|j: int| 0 <= j < i ==> !has_sub_at(s, p, j),
    ensures
        first_at(s, p) == i,
{
    let w = first_at(s, p);
    assert(has_sub_at(s, p, w) && forall|j: int| 0 <= j < w ==> !has_sub_at(s, p, j)) by {
        assert(has_sub_at(s, p, i) && forall|j: int| 0 <= j < i ==> !has_sub_at(s, p, j));
    }
    if w < i {
        assert(has_sub_at(s, p, w));
        assert(!has_sub_at(s, p, w));
    }
    if i < w {
        assert(has_sub_at(s, p, i));
        assert(!has_sub_at(s, p, i));
    }
}

/// Strips the worktree suffix from a `gitdir` path, recovering the bare
/// clone: cut at the *first* `.git/worktrees/`, so a branch directory that
/// itself contains a `worktrees` segment cannot confuse the result.
pub fn extract_bare_clone_from_gitdir(gitdir_path: &[u8]) -> (r: Option<Vec<u8>>)
    ensures
        match r {
            Some(v) => bare_clone_from_gitdir_spec(gitdir_path@) == Some(v@),
            None => bare_clone_from_gitdir_spec(gitdir_path@) is None,
        },
{
    proof {
        reveal_strlit(".git/worktrees/");
        reveal_strlit("/worktrees/");
    }
    let pat1 = lit(".git/worktrees/");
    let pat2 = lit("/worktrees/");
    let n = gitdir_path.len();
    match find_sub(gitdir_path, pat1.as_slice()) {
        Some(i) => {
            proof {
                lemma_first_at(gitdir_path@, pat1@, i as int);
            }
            Some(subvec(gitdir_path, 0, i + 4))
        },
        None => {
            match find_sub(gitdir_path, pat2.as_slice()) {
                Some(j) => {
                    proof {
                        lemma_first_at(gitdir_path@, pat2@, j as int);
                    }
                    Some(subvec(gitdir_path, 0, j))
                },
                None => None,
            }
        },
    }
}

/// However deeply the branch segment after the worktree marker nests —
/// even through a directory itself named `worktrees` — recovery cuts at
/// the first marker and returns the bare-clone path ending in `.git`.
/// The hypothesis asks only that the marker not already occur inside the
/// bare-clone path itself.
pub proof fn lemma_bare_clone_ignores_nesting(base: Seq<u8>, rest: Seq<u8>)
    requires
        forall|j: int|
            0 <= j < base.len() ==> !has_sub_at(
                base + lit_bytes(".git/worktrees/") + rest,
                lit_bytes(".git/worktrees/"),
                j,
            ),
    ensures
        bare_clone_from_gitdir_spec(base + lit_bytes(".git/worktrees/") + rest) == Some(
            base + lit_bytes(".git"),
        ),
{
    reveal_strlit(".git/worktrees/");
    reveal_strlit(".git");
    let pat = lit_bytes(".git/worktrees/");
    let g = base + pat + rest;
    assert(has_sub_at(g, pat, base.len() as int)) by {
        assert(g.subrange(base.len() as int, base.len() + pat.len() as int) =~= pat);
    }
    lemma_first_at(g, pat, base.len() as int);
    assert(contains_sub_spec(g, pat));
    assert(g.subrange(0, base.len() + 4int) =~= base + lit_bytes(".git"));
}

/// A `gitdir` pointer resolved against the directory holding the `.git`
/// file: absolute pointers stand alone, relative ones are joined under it.
pub open spec fn resolve_gitdir_spec(base: Seq<u8>, gitdir: Seq<u8>) -> Seq<u8> {
    if gitdir.len() > 0 && gitdir[0] == 47 {
        gitdir
    } else {
        base + seq![47u8] + gitdir
    }
}

pub fn resolve_gitdir(base: &[u8], gitdir: &[u8]) -> (r: Vec<u8>)
    ensures
        r@ == resolve_gitdir_spec(base@, gitdir@),
{
    if gitdir.len() > 0 && gitdir[0] == 47 {
        subvec(gitdir, 0, gitdir.len())
    } else {
        let mut r = subvec(base, 0, base.len());
        r.push(47);
        push_all(&mut r, gitdir);
        proof {
            assert(base@.subrange(0, base@.len() as int) =~= base@);
            assert(r@ =~= base@ + seq![47u8] + gitdir@);
        }
        r
    }
}

/// The parent directory of a path: trailing slashes ignored, the last
/// component removed; the parent of the root (or of an empty path) is the
/// root itself, and a bare relative name has the empty parent.
pub open spec fn parent_spec(s: Seq<u8>) -> Seq<u8> {
    let t = trim_end_byte_seq(s, 47);
    if t.len() == 0 {
        lit_bytes("/")
    } else {
        let k = rfind_spec(t, 47);
        if k < 0 {
            Seq::empty()
        } else if k == 0 {
            lit_bytes("/")
        } else {
            t.subrange(0, k)
        }
    }
}

/// The project root: the bare clone's parent directory.
pub fn get_project_root(bare_clone_path: &[u8]) -> (r: Vec<u8>)
    ensures
        r@ == parent_spec(bare_clone_path@),
{
    proof {
        reveal_strlit("/");
    }
    let t = trim_end_byte(bare_clone_path, 47);
    if t.len() == 0 {
        return lit("/");
    }
    match rfind_byte(t.as_slice(), 47) {
        None => {
            proof {
                lemma_rfind_at(t@, 47, -1);
            }
            Vec::new()
        },
        Some(k) => {
            proof {
                lemma_rfind_at(t@, 47, k as int);
            }
            if k == 0 {
                lit("/")
            } else {
                subvec(t.as_slice(), 0, k)
            }
        },
    }
}

/// The error reported when discovery exhausts the walk: seeing an ordinary
/// repository on the way changes the guidance.
pub fn discovery_failure(found_regular_repo: bool) -> (r: GroveDiscoveryError)
    ensures
        r.is_regular_git_repo == found_regular_repo,
        found_regular_repo ==> r.message@ == lit_bytes(
            "This is a git repository but not a grove-managed worktree setup.\nGrove requires a bare clone with worktrees. Run `grove init <git-url>` in a different directory to create a new grove setup.",
        ),
        !found_regular_repo ==> r.message@ == lit_bytes(
            "Not in a grove repository.\nRun `grove init <git-url>` to create one.",
        ),
{
    if found_regular_repo {
        proof {
            reveal_strlit(
                "This is a git repository but not a grove-managed worktree setup.\nGrove requires a bare clone with worktrees. Run `grove init <git-url>` in a different directory to create a new grove setup.",
            );
        }
        GroveDiscoveryError {
            message: lit(
                "This is a git repository but not a grove-managed worktree setup.\nGrove requires a bare clone with worktrees. Run `grove init <git-url>` in a different directory to create a new grove setup.",
            ),
            is_regular_git_repo: true,
        }
    } else {
        proof {
            reveal_strlit("Not in a grove repository.\nRun `grove init <git-url>` to create one.");
        }
        GroveDiscoveryError {
            message: lit("Not in a grove repository.\nRun `grove init <git-url>` to create one."),
            is_regular_git_repo: false,
        }
    }
}

} // verus!
