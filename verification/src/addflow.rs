//! The worktree-creation flow: naming a new worktree, resolving tracking
//! references, and building the argument vector handed to the worktree-add
//! subprocess. Also the name sanitation used when a pull request is checked
//! out into its own worktree.

use vstd::prelude::*;
use crate::bytes::{dec_spec, lit_bytes, trim_start_byte_seq, trim_end_byte_seq};
use crate::bytes::{eq_bytes, find_byte, lit, push_all, starts_with, subvec, trim_end_byte,
    trim_start_byte, u64_to_dec};
use crate::bytes::starts_with_spec;
use crate::model::{SpecWorktree, Worktree};
use crate::path_safety::{trim_branch_spec, trim_trailing_branch_slashes};

verus! {

/// The pair of names a new worktree gets: its directory under the project
/// root, and the branch checked out in it.
pub struct WorktreeSpecName {
    pub directory_name: Vec<u8>,
    pub branch_name: Vec<u8>,
}

pub struct SpecWorktreeSpecName {
    pub directory_name: Seq<u8>,
    pub branch_name: Seq<u8>,
}

impl View for WorktreeSpecName {
    type V = SpecWorktreeSpecName;

    open spec fn view(&self) -> SpecWorktreeSpecName {
        SpecWorktreeSpecName {
            directory_name: self.directory_name@,
            branch_name: self.branch_name@,
        }
    }
}

/// A remote-tracking reference split into remote and branch: the short
/// `remote/branch` form or the full `refs/remotes/remote/branch` form;
/// other `refs/...` references are not remote-tracking.
pub open spec fn remote_ref_spec(reference: Seq<u8>) -> Option<(Seq<u8>, Seq<u8>)> {
    let normalized = if starts_with_spec(reference, lit_bytes("refs/remotes/")) {
        reference.skip(13)
    } else {
        reference
    };
    if !starts_with_spec(reference, lit_bytes("refs/remotes/")) && starts_with_spec(
        reference,
        lit_bytes("refs/"),
    ) {
        None
    } else {
        let k = crate::bytes::idx_from(normalized, 47, 0);
        if 0 < k < normalized.len() - 1 {
            Some((normalized.subrange(0, k), normalized.skip(k + 1)))
        } else {
            None
        }
    }
}

/// Splits a remote-tracking reference into `(remote, branch)`.
pub fn parse_remote_tracking_reference(reference: &[u8]) -> (r: Option<(Vec<u8>, Vec<u8>)>)
    ensures
        match r {
            Some(p) => remote_ref_spec(reference@) == Some((p.0@, p.1@)),
            None => remote_ref_spec(reference@) is None,
        },
{
    proof {
        reveal_strlit("refs/remotes/");
        reveal_strlit("refs/");
    }
    let remotes_prefix = lit("refs/remotes/");
    let refs_prefix = lit("refs/");
    let is_remotes = starts_with(reference, remotes_prefix.as_slice());
    if !is_remotes && starts_with(reference, refs_prefix.as_slice()) {
        return None;
    }
    let normalized: Vec<u8> = if is_remotes {
        subvec(reference, 13, reference.len())
    } else {
        subvec(reference, 0, reference.len())
    };
    proof {
        if is_remotes {
            assert(normalized@ =~= reference@.skip(13));
        } else {
            assert(normalized@ =~= reference@);
        }
    }
    let n = normalized.len();
    match find_byte(normalized.as_slice(), 47, 0) {
        None => {
            proof {
                crate::bytes::lemma_idx_from(normalized@, 47, 0, n as int);
            }
            None
        },
        Some(k) => {
            proof {
                crate::bytes::lemma_idx_from(normalized@, 47, 0, k as int);
            }
            if k == 0 || k + 1 >= n {
                None
            } else {
                let remote = subvec(normalized.as_slice(), 0, k);
                let branch = subvec(normalized.as_slice(), k + 1, n);
                proof {
                    assert(branch@ =~= normalized@.skip(k + 1));
                }
                Some((remote, branch))
            }
        },
    }
}

/// The branch part of a remote-tracking reference.
pub fn tracked_branch_name(track_ref: &[u8]) -> (r: Option<Vec<u8>>)
    ensures
        match r {
            Some(b) => remote_ref_spec(track_ref@) is Some && remote_ref_spec(
                track_ref@,
            ).unwrap().1 == b@,
            None => remote_ref_spec(track_ref@) is None,
        },
{
    match parse_remote_tracking_reference(track_ref) {
        Some(p) => {
            let (rem, b) = p;
            Some(b)
        },
        None => None,
    }
}

/// The branch a new worktree checks out: with a tracking reference, its
/// branch part (an invalid reference is an error); without one, the
/// worktree's own name.
pub open spec fn target_branch_spec(name: Seq<u8>, track: Option<Seq<u8>>) -> Option<Seq<u8>> {
    match track {
        Some(t) => match remote_ref_spec(t) {
            Some(p) => Some(p.1),
            None => None,
        },
        None => Some(name),
    }
}

/// Resolves the branch to check out; `None` reports an invalid tracking
/// reference.
pub fn resolve_target_branch(name: &[u8], track: Option<&Vec<u8>>) -> (r: Option<Vec<u8>>)
    ensures
        match r {
            Some(b) => target_branch_spec(
                name@,
                match track {
                    Some(t) => Some(t@),
                    None => None,
                },
            ) == Some(b@),
            None => target_branch_spec(
                name@,
                match track {
                    Some(t) => Some(t@),
                    None => None,
                },
            ) is None,
        },
{
    match track {
        Some(t) => tracked_branch_name(t.as_slice()),
        None => {
            let b = subvec(name, 0, name.len());
            proof {
                assert(b@ =~= name@);
            }
            Some(b)
        },
    }
}

/// A configured branch prefix applied to a generated name: the prefix is
/// trimmed of whitespace and trailing slashes, an empty remainder applies
/// nothing, otherwise `prefix/name`.
pub open spec fn prefixed_branch_spec(branch_prefix: Option<Seq<u8>>, name: Seq<u8>) -> Seq<u8> {
    match branch_prefix {
        Some(p) => {
            let t = trim_branch_spec(p);
            if t.len() == 0 {
                name
            } else {
                t + seq![47u8] + name
            }
        },
        None => name,
    }
}

pub fn apply_branch_prefix(branch_prefix: Option<&Vec<u8>>, generated_name: &[u8]) -> (r: Vec<u8>)
    ensures
        r@ == prefixed_branch_spec(
            match branch_prefix {
                Some(p) => Some(p@),
                None => None,
            },
            generated_name@,
        ),
{
    match branch_prefix {
        Some(p) => {
            let t = trim_trailing_branch_slashes(p.as_slice());
            if t.len() == 0 {
                let r = subvec(generated_name, 0, generated_name.len());
                proof {
                    assert(r@ =~= generated_name@);
                }
                r
            } else {
                let mut r = t;
                r.push(47);
                push_all(&mut r, generated_name);
                proof {
                    assert(r@ =~= trim_branch_spec(p@) + seq![47u8] + generated_name@);
                }
                r
            }
        },
        None => {
            let r = subvec(generated_name, 0, generated_name.len());
            proof {
                assert(r@ =~= generated_name@);
            }
            r
        },
    }
}

/// The names a generated worktree gets: the generated name is the directory
/// name, and the branch prefix applies only to the branch name.
pub fn generated_worktree_spec(branch_prefix: Option<&Vec<u8>>, generated_name: &[u8]) -> (r:
    WorktreeSpecName)
    ensures
        r@.directory_name == generated_name@,
        r@.branch_name == prefixed_branch_spec(
            match branch_prefix {
                Some(p) => Some(p@),
                None => None,
            },
            generated_name@,
        ),
{
    let dir = subvec(generated_name, 0, generated_name.len());
    proof {
        assert(dir@ =~= generated_name@);
    }
    WorktreeSpecName {
        directory_name: dir,
        branch_name: apply_branch_prefix(branch_prefix, generated_name),
    }
}

/// The names a worktree gets when the caller provided one explicitly: the
/// same name serves as directory and branch.
pub fn resolve_worktree_spec(provided_name: Option<&Vec<u8>>) -> (r: Option<WorktreeSpecName>)
    ensures
        match r {
            Some(w) => provided_name is Some && w@.directory_name == provided_name.unwrap()@
                && w@.branch_name == provided_name.unwrap()@,
            None => provided_name is None,
        },
{
    match provided_name {
        Some(name) => {
            let d = subvec(name.as_slice(), 0, name.len());
            let b = subvec(name.as_slice(), 0, name.len());
            proof {
                assert(d@ =~= name@);
                assert(b@ =~= name@);
            }
            Some(WorktreeSpecName { directory_name: d, branch_name: b })
        },
        None => None,
    }
}

/// A candidate name is available when neither its branch nor its directory
/// exists yet.
pub fn is_name_available(branch_exists: bool, path_exists: bool) -> (r: bool)
    ensures
        r == (!branch_exists && !path_exists),
{
    !branch_exists && !path_exists
}

/// First candidate index at or after `i` marked available, or the length.
pub open spec fn first_available(avail: Seq<bool>, i: int) -> int
    decreases avail.len() - i,
{
    if !(0 <= i < avail.len()) {
        avail.len() as int
    } else if avail[i] {
        i
    } else {
        first_available(avail, i + 1)
    }
}

proof fn lemma_first_available_rec(avail: Seq<bool>, i: int, j: int)
    requires
        0 <= i <= j <= avail.len(),
        forall|x: int| i <= x < j ==> !avail[x],
        j < avail.len() ==> avail[j],
    ensures
        first_available(avail, i) == if j < avail.len() {
            j
        } else {
            avail.len() as int
        },
    decreases j - i,
{
    if i < j {
        lemma_first_available_rec(avail, i + 1, j);
    }
}

/// Chooses the default worktree name: the first generated candidate whose
/// branch and directory are both free, with the branch prefix applied to
/// the branch name only; `None` when every candidate is taken.
pub fn choose_default_worktree_spec(
    candidates: &Vec<Vec<u8>>,
    available: &Vec<bool>,
    branch_prefix: Option<&Vec<u8>>,
) -> (r: Option<WorktreeSpecName>)
    requires
        candidates@.len() == available@.len(),
    ensures
        match r {
            Some(w) => {
                let k = first_available(available@, 0);
                k < available@.len() && w@.directory_name == candidates@[k]@ && w@.branch_name
                    == prefixed_branch_spec(
                    match branch_prefix {
                        Some(p) => Some(p@),
                        None => None,
                    },
                    candidates@[k]@,
                )
            },
            None => first_available(available@, 0) == available@.len(),
        },
{
    let n = candidates.len();
    let mut i: usize = 0;
    while i < n
        invariant
            n == candidates@.len() == available@.len(),
            i <= n,
            forall|x: int| 0 <= x < i ==> !available@[x],
        decreases n - i,
    {
        if available[i] {
            proof {
                lemma_first_available_rec(available@, 0, i as int);
            }
            return Some(generated_worktree_spec(branch_prefix, candidates[i].as_slice()));
        }
        i += 1;
    }
    proof {
        lemma_first_available_rec(available@, 0, available@.len() as int);
    }
    None
}

/// The argument vector of the worktree-add subprocess call: creating a new
/// branch uses `-b <branch>` (with `--track <ref>` when tracking), checking
/// out an existing branch names path then branch.
pub open spec fn add_args_spec(
    worktree_path: Seq<u8>,
    branch_name: Seq<u8>,
    create_branch: bool,
    track: Option<Seq<u8>>,
) -> Seq<Seq<u8>> {
    if create_branch {
        let head = seq![lit_bytes("worktree"), lit_bytes("add"), lit_bytes("-b"), branch_name];
        let with_track = if track is Some {
            head.push(lit_bytes("--track"))
        } else {
            head
        };
        let with_path = with_track.push(worktree_path);
        match track {
            Some(t) => with_path.push(t),
            None => with_path,
        }
    } else {
        seq![lit_bytes("worktree"), lit_bytes("add"), worktree_path, branch_name]
    }
}

/// Builds the argument vector for the worktree-add subprocess call.
pub fn build_add_worktree_args(
    worktree_path: &[u8],
    branch_name: &[u8],
    create_branch: bool,
    track: Option<&Vec<u8>>,
) -> (r: Vec<Vec<u8>>)
    ensures
        r@.map_values(|a: Vec<u8>| a@) == add_args_spec(
            worktree_path@,
            branch_name@,
            create_branch,
            match track {
                Some(t) => Some(t@),
                None => None,
            },
        ),
{
    proof {
        reveal_strlit("worktree");
        reveal_strlit("add");
        reveal_strlit("-b");
        reveal_strlit("--track");
    }
    let mut args: Vec<Vec<u8>> = Vec::new();
    args.push(lit("worktree"));
    args.push(lit("add"));
    let path_copy = subvec(worktree_path, 0, worktree_path.len());
    let branch_copy = subvec(branch_name, 0, branch_name.len());
    proof {
        assert(path_copy@ =~= worktree_path@);
        assert(branch_copy@ =~= branch_name@);
    }
    if create_branch {
        args.push(lit("-b"));
        args.push(branch_copy);
        match track {
            Some(t) => {
                args.push(lit("--track"));
                args.push(path_copy);
                let t_copy = subvec(t.as_slice(), 0, t.len());
                proof {
                    assert(t_copy@ =~= t@);
                }
                args.push(t_copy);
                proof {
                    assert(args@.map_values(|a: Vec<u8>| a@) =~= add_args_spec(
                        worktree_path@,
                        branch_name@,
                        true,
                        Some(t@),
                    ));
                }
            },
            None => {
                args.push(path_copy);
                proof {
                    assert(args@.map_values(|a: Vec<u8>| a@) =~= add_args_spec(
                        worktree_path@,
                        branch_name@,
                        true,
                        None,
                    ));
                }
            },
        }
    } else {
        args.push(path_copy);
        args.push(branch_copy);
        proof {
            assert(args@.map_values(|a: Vec<u8>| a@) =~= add_args_spec(
                worktree_path@,
                branch_name@,
                false,
                match track {
                    Some(t) => Some(t@),
                    None => None,
                },
            ));
        }
    }
    args
}

/// The local ref of a branch: `refs/heads/<branch>`.
pub open spec fn branch_ref_spec(branch: Seq<u8>) -> Seq<u8> {
    lit_bytes("refs/heads/") + branch
}

pub fn branch_ref(branch: &[u8]) -> (r: Vec<u8>)
    ensures
        r@ == branch_ref_spec(branch@),
{
    proof {
        reveal_strlit("refs/heads/");
    }
    let mut r = lit("refs/heads/");
    push_all(&mut r, branch);
    r
}

/// The canonical form of a remote-tracking ref:
/// `refs/remotes/<remote>/<branch>`.
pub open spec fn canonical_remote_ref_spec(remote: Seq<u8>, branch: Seq<u8>) -> Seq<u8> {
    lit_bytes("refs/remotes/") + remote + seq![47u8] + branch
}

pub fn canonical_remote_ref(remote: &[u8], branch: &[u8]) -> (r: Vec<u8>)
    ensures
        r@ == canonical_remote_ref_spec(remote@, branch@),
{
    proof {
        reveal_strlit("refs/remotes/");
    }
    let mut r = lit("refs/remotes/");
    push_all(&mut r, remote);
    r.push(47);
    push_all(&mut r, branch);
    proof {
        assert(r@ =~= canonical_remote_ref_spec(remote@, branch@));
    }
    r
}

/// The refspec that fetches a tracking branch into its canonical ref:
/// `<branch>:refs/remotes/<remote>/<branch>`.
pub open spec fn tracking_fetch_refspec_spec(remote: Seq<u8>, branch: Seq<u8>) -> Seq<u8> {
    branch + seq![58u8] + canonical_remote_ref_spec(remote, branch)
}

pub fn tracking_fetch_refspec(remote: &[u8], branch: &[u8]) -> (r: Vec<u8>)
    ensures
        r@ == tracking_fetch_refspec_spec(remote@, branch@),
{
    let mut r = subvec(branch, 0, branch.len());
    r.push(58);
    let canonical = canonical_remote_ref(remote, branch);
    push_all(&mut r, canonical.as_slice());
    proof {
        assert(branch@.subrange(0, branch@.len() as int) =~= branch@);
        assert(r@ =~= tracking_fetch_refspec_spec(remote@, branch@));
    }
    r
}

/// The refspec that syncs a branch from origin in place:
/// `<branch>:<branch>`.
pub open spec fn sync_refspec_spec(branch: Seq<u8>) -> Seq<u8> {
    branch + seq![58u8] + branch
}

pub fn sync_refspec(branch: &[u8]) -> (r: Vec<u8>)
    ensures
        r@ == sync_refspec_spec(branch@),
{
    let mut r = subvec(branch, 0, branch.len());
    r.push(58);
    push_all(&mut r, branch);
    proof {
        assert(branch@.subrange(0, branch@.len() as int) =~= branch@);
        assert(r@ =~= sync_refspec_spec(branch@));
    }
    r
}

/// The argument vector of the worktree-remove subprocess call.
pub open spec fn remove_args_spec(worktree_path: Seq<u8>, force: bool) -> Seq<Seq<u8>> {
    if force {
        seq![lit_bytes("worktree"), lit_bytes("remove"), lit_bytes("--force"), worktree_path]
    } else {
        seq![lit_bytes("worktree"), lit_bytes("remove"), worktree_path]
    }
}

pub fn build_remove_worktree_args(worktree_path: &[u8], force: bool) -> (r: Vec<Vec<u8>>)
    ensures
        r@.map_values(|a: Vec<u8>| a@) == remove_args_spec(worktree_path@, force),
{
    proof {
        reveal_strlit("worktree");
        reveal_strlit("remove");
        reveal_strlit("--force");
    }
    let mut args: Vec<Vec<u8>> = Vec::new();
    args.push(lit("worktree"));
    args.push(lit("remove"));
    if force {
        args.push(lit("--force"));
    }
    let path_copy = subvec(worktree_path, 0, worktree_path.len());
    proof {
        assert(path_copy@ =~= worktree_path@);
    }
    args.push(path_copy);
    proof {
        assert(args@.map_values(|a: Vec<u8>| a@) =~= remove_args_spec(worktree_path@, force));
    }
    args
}

/// A branch is checked out in some worktree of the listing.
pub open spec fn branch_checked_out_spec(ws: Seq<SpecWorktree>, branch: Seq<u8>) -> bool {
    exists|i: int| 0 <= i < ws.len() && ws[i].branch == branch
}

/// Tests whether any worktree has the branch checked out, which blocks a
/// fetch into it.
pub fn branch_checked_out(worktrees: &Vec<Worktree>, branch: &[u8]) -> (r: bool)
    ensures
        r == branch_checked_out_spec(worktrees@.map_values(|w: Worktree| w@), branch@),
{
    let ghost ws = worktrees@.map_values(|w: Worktree| w@);
    let n = worktrees.len();
    let mut i: usize = 0;
    while i < n
        invariant
            n == worktrees@.len() == ws.len(),
            ws == worktrees@.map_values(|w: Worktree| w@),
            i <= n,
            forall|x: int| 0 <= x < i ==> ws[x].branch != branch@,
        decreases n - i,
    {
        proof {
            assert(ws[i as int] == worktrees@[i as int]@);
        }
        if eq_bytes(worktrees[i].branch.as_slice(), branch) {
            return true;
        }
        i += 1;
    }
    false
}

/// One byte of a pull-request branch name sanitized: ASCII letters, digits,
/// `-` and `_` pass; everything else becomes `-`.
pub open spec fn sanitize_byte(b: u8) -> u8 {
    if (48 <= b <= 57) || (65 <= b <= 90) || (97 <= b <= 122) || b == 45 || b == 95 {
        b
    } else {
        45
    }
}

/// Runs of `--` collapsed to `-`, scanning left to right.
pub open spec fn collapse_ddash(s: Seq<u8>) -> Seq<u8>
    decreases s.len(),
{
    if s.len() >= 2 && s[0] == 45 && s[1] == 45 {
        seq![45u8] + collapse_ddash(s.skip(2))
    } else if s.len() > 0 {
        seq![s[0]] + collapse_ddash(s.skip(1))
    } else {
        s
    }
}

/// A pull-request head branch reduced to a filesystem-safe name: bytes
/// sanitized, double dashes collapsed, leading and trailing dashes dropped.
pub open spec fn sanitized_branch_spec(branch: Seq<u8>) -> Seq<u8> {
    trim_start_byte_seq(
        trim_end_byte_seq(
            collapse_ddash(Seq::new(branch.len(), |i: int| sanitize_byte(branch[i]))),
            45,
        ),
        45,
    )
}

/// Sanitizes a pull-request branch name for use in a directory name.
pub fn sanitize_pr_branch(branch: &[u8]) -> (r: Vec<u8>)
    ensures
        r@ == sanitized_branch_spec(branch@),
{
    let mut mapped: Vec<u8> = Vec::new();
    let mut i: usize = 0;
    while i < branch.len()
        invariant
            i <= branch@.len(),
            mapped@ == Seq::new(i as nat, |j: int| sanitize_byte(branch@[j])),
        decreases branch@.len() - i,
    {
        let b = branch[i];
        let s: u8 = if (48 <= b && b <= 57) || (65 <= b && b <= 90) || (97 <= b && b <= 122) || b
            == 45 || b == 95 {
            b
        } else {
            45
        };
        mapped.push(s);
        proof {
            assert(mapped@ =~= Seq::new((i + 1) as nat, |j: int| sanitize_byte(branch@[j])));
        }
        i += 1;
    }
    proof {
        assert(mapped@ =~= Seq::new(branch@.len(), |j: int| sanitize_byte(branch@[j])));
    }
    let mut collapsed: Vec<u8> = Vec::new();
    let mut p: usize = 0;
    let ghost mseq = mapped@;
    proof {
        assert(mseq.skip(0) =~= mseq);
        assert(collapsed@ + collapse_ddash(mseq) =~= collapse_ddash(mseq));
    }
    while p < mapped.len()
        invariant
            p <= mapped@.len(),
            mseq == mapped@,
            collapsed@ + collapse_ddash(mseq.skip(p as int)) == collapse_ddash(mseq),
        decreases mapped@.len() - p,
    {
        let ghost c0 = collapsed@;
        if p + 1 < mapped.len() && mapped[p] == 45 && mapped[p + 1] == 45 {
            collapsed.push(45);
            proof {
                assert(mseq.skip(p as int).skip(2) =~= mseq.skip(p + 2));
                assert(c0 + (seq![45u8] + collapse_ddash(mseq.skip(p + 2))) =~= (c0.push(45u8))
                    + collapse_ddash(mseq.skip(p + 2)));
            }
            p += 2;
        } else {
            collapsed.push(mapped[p]);
            proof {
                assert(mseq.skip(p as int)[0] == mseq[p as int]);
                assert(mseq.skip(p as int).skip(1) =~= mseq.skip(p + 1));
                assert(c0 + (seq![mseq[p as int]] + collapse_ddash(mseq.skip(p + 1))) =~= (c0.push(
                    mseq[p as int],
                )) + collapse_ddash(mseq.skip(p + 1)));
            }
            p += 1;
        }
    }
    proof {
        assert(mseq.skip(mseq.len() as int) =~= Seq::<u8>::empty());
        assert(collapsed@ + Seq::<u8>::empty() =~= collapsed@);
    }
    let t = trim_end_byte(collapsed.as_slice(), 45);
    trim_start_byte(t.as_slice(), 45)
}

/// The worktree name a pull request gets: `pr-<number>-<sanitized branch>`.
pub open spec fn pr_worktree_name_spec(pr_num: u64, branch: Seq<u8>) -> Seq<u8> {
    lit_bytes("pr-") + dec_spec(pr_num as nat) + seq![45u8] + sanitized_branch_spec(branch)
}

pub fn pr_worktree_name(pr_num: u64, branch: &[u8]) -> (r: Vec<u8>)
    ensures
        r@ == pr_worktree_name_spec(pr_num, branch@),
{
    proof {
        reveal_strlit("pr-");
    }
    let mut r = lit("pr-");
    let num = u64_to_dec(pr_num);
    push_all(&mut r, num.as_slice());
    r.push(45);
    let name = sanitize_pr_branch(branch);
    push_all(&mut r, name.as_slice());
    proof {
        assert(r@ =~= pr_worktree_name_spec(pr_num, branch@));
    }
    r
}

/// The branch a fetched pull request lands on: `pr-<number>`.
pub open spec fn pr_branch_name_spec(pr_num: u64) -> Seq<u8> {
    lit_bytes("pr-") + dec_spec(pr_num as nat)
}

pub fn pr_branch_name(pr_num: u64) -> (r: Vec<u8>)
    ensures
        r@ == pr_branch_name_spec(pr_num),
{
    proof {
        reveal_strlit("pr-");
    }
    let mut r = lit("pr-");
    let num = u64_to_dec(pr_num);
    push_all(&mut r, num.as_slice());
    r
}

} // verus!
