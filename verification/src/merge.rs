//! The merge/prune decision engine.
//!
//! Merge detection runs in two stages against subprocess output the caller
//! supplies: a branch listed by `branch --merged <base>` is merged outright;
//! otherwise the squash check looks at the file-level diff between base and
//! branch — no touched files means nothing to lose, and an empty re-diff
//! restricted to the touched files means the changes are already on base.
//! Age-based pruning compares a worktree's creation time against a cutoff.

use vstd::prelude::*;
use crate::bytes::{lit_bytes, split_nl, starts_with_spec, trim_seq};
use crate::bytes::{eq_bytes, split_lines, starts_with, subvec, trim, lit};
use crate::model::{SpecWorktree, Worktree};
use crate::porcelain::{detached_head_spec, strip_cr};

verus! {

/// Leading `* ` markers removed, as the current-branch marker of a branch
/// listing is.
pub open spec fn strip_star_prefix(s: Seq<u8>) -> Seq<u8>
    decreases s.len(),
{
    if s.len() >= 2 && s[0] == 42 && s[1] == 32 {
        strip_star_prefix(s.skip(2))
    } else {
        s
    }
}

/// One line of `branch --merged` output reduced to a branch name.
pub open spec fn clean_branch_line(l: Seq<u8>) -> Seq<u8> {
    trim_seq(strip_star_prefix(trim_seq(l)))
}

/// The branch appears in the merged-branches listing.
pub open spec fn listed_merged_spec(output: Seq<u8>, branch: Seq<u8>) -> bool {
    branch.len() > 0 && exists|i: int|
        0 <= i < split_nl(output).len() && clean_branch_line(#[trigger] split_nl(output)[i])
            == branch
}

fn strip_stars(s: &[u8]) -> (r: Vec<u8>)
    ensures
        r@ == strip_star_prefix(s@),
{
    let mut v = subvec(s, 0, s.len());
    proof {
        assert(v@ =~= s@);
    }
    while v.len() >= 2 && v[0] == 42 && v[1] == 32
        invariant
            strip_star_prefix(v@) == strip_star_prefix(s@),
        decreases v@.len(),
    {
        let nv = subvec(v.as_slice(), 2, v.len());
        proof {
            assert(nv@ =~= v@.skip(2));
        }
        v = nv;
    }
    v
}

/// Tests whether `branch` is named by the `branch --merged` output.
pub fn branch_listed_merged(output: &[u8], branch: &[u8]) -> (r: bool)
    ensures
        r == listed_merged_spec(output@, branch@),
{
    if branch.len() == 0 {
        return false;
    }
    let lines = split_lines(output);
    let ghost sl = lines@.map_values(|l: Vec<u8>| l@);
    let n = lines.len();
    let mut i: usize = 0;
    while i < n
        invariant
            n == lines@.len(),
            sl == lines@.map_values(|l: Vec<u8>| l@),
            sl == split_nl(output@),
            branch@.len() > 0,
            i <= n,
            forall|x: int| 0 <= x < i ==> clean_branch_line(#[trigger] sl[x]) != branch@,
        decreases n - i,
    {
        proof {
            assert(sl[i as int] == lines@[i as int]@);
        }
        let t1 = trim(lines[i].as_slice());
        let stripped = strip_stars(t1.as_slice());
        let cleaned = trim(stripped.as_slice());
        if eq_bytes(cleaned.as_slice(), branch) {
            return true;
        }
        i += 1;
    }
    false
}

/// The files named by a `diff --name-only` output: its nonempty lines.
pub open spec fn diff_files_spec(output: Seq<u8>) -> Seq<Seq<u8>> {
    split_nl(output).map_values(|l: Seq<u8>| strip_cr(l)).filter(|l: Seq<u8>| l.len() > 0)
}

/// Extracts the file list from a `diff --name-only` output.
pub fn diff_files(output: &[u8]) -> (r: Vec<Vec<u8>>)
    ensures
        r@.map_values(|l: Vec<u8>| l@) == diff_files_spec(output@),
{
    let lines = split_lines(output);
    let ghost sl = lines@.map_values(|l: Vec<u8>| l@);
    let n = lines.len();
    let mut r: Vec<Vec<u8>> = Vec::new();
    let mut i: usize = 0;
    proof {
        assert(sl.subrange(0, 0).map_values(|l: Seq<u8>| strip_cr(l)).filter(
            |l: Seq<u8>| l.len() > 0,
        ) =~= Seq::<Seq<u8>>::empty());
        assert(r@.map_values(|l: Vec<u8>| l@) =~= Seq::<Seq<u8>>::empty());
    }
    while i < n
        invariant
            n == lines@.len(),
            sl == lines@.map_values(|l: Vec<u8>| l@),
            sl == split_nl(output@),
            i <= n,
            r@.map_values(|l: Vec<u8>| l@) == sl.subrange(0, i as int).map_values(
                |l: Seq<u8>| strip_cr(l),
            ).filter(|l: Seq<u8>| l.len() > 0),
        decreases n - i,
    {
        proof {
            assert(sl[i as int] == lines@[i as int]@);
        }
        let ghost r0 = r@.map_values(|l: Vec<u8>| l@);
        let raw = &lines[i];
        let rn = raw.len();
        let line: Vec<u8> = if rn > 0 && raw[rn - 1] == 13 {
            subvec(raw.as_slice(), 0, rn - 1)
        } else {
            subvec(raw.as_slice(), 0, rn)
        };
        proof {
            if rn > 0 && raw@[rn - 1] == 13 {
                assert(line@ =~= strip_cr(sl[i as int]));
            } else {
                assert(line@ =~= raw@);
                assert(line@ =~= strip_cr(sl[i as int]));
            }
        }
        if line.len() > 0 {
            r.push(line);
            proof {
                assert(r@.map_values(|l: Vec<u8>| l@) =~= r0.push(strip_cr(sl[i as int])));
            }
        }
        proof {
            let pred = |l: Seq<u8>| l.len() > 0;
            let mapped_pre = sl.subrange(0, i as int).map_values(|l: Seq<u8>| strip_cr(l));
            let mapped_post = sl.subrange(0, i + 1).map_values(|l: Seq<u8>| strip_cr(l));
            assert(mapped_post =~= mapped_pre.push(strip_cr(sl[i as int])));
            reveal(Seq::filter);
            assert(mapped_post.drop_last() =~= mapped_pre);
            assert(mapped_post.filter(pred) == if pred(strip_cr(sl[i as int])) {
                mapped_pre.filter(pred).push(strip_cr(sl[i as int]))
            } else {
                mapped_pre.filter(pred)
            });
        }
        i += 1;
    }
    proof {
        assert(sl.subrange(0, n as int) =~= sl);
    }
    r
}

/// The merge decision for one branch, over the caller's probes: listed in
/// the merged output, or touching no files relative to base, or — when the
/// restricted re-diff was needed and supplied — that re-diff being blank,
/// meaning the branch's changes are already fully present on base.
pub open spec fn is_branch_merged_spec(
    listed: bool,
    diff_output: Seq<u8>,
    restricted: Option<Seq<u8>>,
) -> bool {
    ||| listed
    ||| diff_files_spec(diff_output).len() == 0
    ||| match restricted {
        Some(d) => trim_seq(d).len() == 0,
        None => false,
    }
}

/// Decides whether a branch is safely merged, given the outputs of the
/// caller's merge probes.
pub fn is_branch_merged(listed: bool, diff_output: &[u8], restricted: Option<&Vec<u8>>) -> (r:
    bool)
    ensures
        r == is_branch_merged_spec(
            listed,
            diff_output@,
            match restricted {
                Some(d) => Some(d@),
                None => None,
            },
        ),
{
    if listed {
        return true;
    }
    let files = diff_files(diff_output);
    if files.len() == 0 {
        proof {
            assert(files@.map_values(|l: Vec<u8>| l@).len() == 0);
        }
        return true;
    }
    match restricted {
        Some(d) => {
            let t = trim(d.as_slice());
            t.len() == 0
        },
        None => false,
    }
}

/// A branch with zero diffed files against base is always classified as
/// merged, whatever the other probes say.
pub proof fn lemma_zero_diff_is_merged(
    listed: bool,
    diff_output: Seq<u8>,
    restricted: Option<Seq<u8>>,
)
    requires
        diff_files_spec(diff_output).len() == 0,
    ensures
        is_branch_merged_spec(listed, diff_output, restricted),
{
}

/// The default branch read from the remote-HEAD probe and the existence
/// probes: the symbolic-ref output wins (trimmed, its remote prefix
/// stripped); otherwise `main`, then `master`, when one exists; else none
/// can be determined.
pub open spec fn default_branch_spec(
    symref_output: Option<Seq<u8>>,
    main_exists: bool,
    master_exists: bool,
) -> Option<Seq<u8>> {
    match symref_output {
        Some(out) => {
            let t = trim_seq(out);
            if starts_with_spec(t, lit_bytes("refs/remotes/origin/")) {
                Some(t.skip(20))
            } else {
                Some(t)
            }
        },
        None => if main_exists {
            Some(lit_bytes("main"))
        } else if master_exists {
            Some(lit_bytes("master"))
        } else {
            None
        },
    }
}

/// Decides the default branch from the caller's probes: the remote HEAD
/// when the symbolic-ref call succeeded, else whichever conventional name
/// exists.
pub fn get_default_branch(
    symref_output: Option<&Vec<u8>>,
    main_exists: bool,
    master_exists: bool,
) -> (r: Option<Vec<u8>>)
    ensures
        match r {
            Some(b) => default_branch_spec(
                match symref_output {
                    Some(o) => Some(o@),
                    None => None,
                },
                main_exists,
                master_exists,
            ) == Some(b@),
            None => default_branch_spec(
                match symref_output {
                    Some(o) => Some(o@),
                    None => None,
                },
                main_exists,
                master_exists,
            ) is None,
        },
{
    proof {
        reveal_strlit("refs/remotes/origin/");
        reveal_strlit("main");
        reveal_strlit("master");
    }
    match symref_output {
        Some(out) => {
            let t = trim(out.as_slice());
            let prefix = lit("refs/remotes/origin/");
            if starts_with(t.as_slice(), prefix.as_slice()) {
                let b = subvec(t.as_slice(), 20, t.len());
                proof {
                    assert(b@ =~= t@.skip(20));
                }
                Some(b)
            } else {
                Some(t)
            }
        },
        None => {
            if main_exists {
                Some(lit("main"))
            } else if master_exists {
                Some(lit("master"))
            } else {
                None
            }
        },
    }
}

/// A worktree the prune engine never touches: the main worktree, locked
/// ones, detached HEADs, and the base branch's own worktree.
pub open spec fn prune_excluded_spec(w: SpecWorktree, base: Seq<u8>) -> bool {
    ||| w.is_main
    ||| w.is_locked
    ||| w.branch == detached_head_spec()
    ||| (base.len() > 0 && w.branch == base)
}

pub fn prune_excluded(w: &Worktree, base: &[u8]) -> (r: bool)
    ensures
        r == prune_excluded_spec(w@, base@),
{
    if w.is_main || w.is_locked {
        return true;
    }
    let detached = crate::porcelain::detached_head();
    if eq_bytes(w.branch.as_slice(), detached.as_slice()) {
        return true;
    }
    base.len() > 0 && eq_bytes(w.branch.as_slice(), base)
}

/// The age criterion: a known creation time lying at or before the cutoff
/// `now - threshold`; the unknown sentinel is never pruned by age.
pub open spec fn age_candidate_spec(created_at: i64, now_ms: i64, threshold_ms: u64) -> bool {
    created_at != 0 && created_at * 1000 <= now_ms - threshold_ms
}

pub fn is_age_candidate(created_at: i64, now_ms: i64, threshold_ms: u64) -> (r: bool)
    ensures
        r == age_candidate_spec(created_at, now_ms, threshold_ms),
{
    if created_at == 0 {
        return false;
    }
    let created_ms: i128 = created_at as i128 * 1000;
    let cutoff: i128 = now_ms as i128 - threshold_ms as i128;
    created_ms <= cutoff
}

/// The worktrees an age-based prune selects, in listing order: not
/// excluded, and old enough.
pub open spec fn age_selection_spec(
    ws: Seq<SpecWorktree>,
    base: Seq<u8>,
    now_ms: i64,
    threshold_ms: u64,
) -> Seq<SpecWorktree> {
    ws.filter(
        |w: SpecWorktree|
            !prune_excluded_spec(w, base) && age_candidate_spec(w.created_at, now_ms, threshold_ms),
    )
}

/// Selects the age-based prune candidates, preserving listing order.
pub fn select_age_candidates(
    worktrees: &Vec<Worktree>,
    base: &[u8],
    now_ms: i64,
    threshold_ms: u64,
) -> (r: Vec<Worktree>)
    ensures
        r@.map_values(|w: Worktree| w@) == age_selection_spec(
            worktrees@.map_values(|w: Worktree| w@),
            base@,
            now_ms,
            threshold_ms,
        ),
{
    let ghost ws = worktrees@.map_values(|w: Worktree| w@);
    let ghost pred = |w: SpecWorktree|
        !prune_excluded_spec(w, base@) && age_candidate_spec(w.created_at, now_ms, threshold_ms);
    let n = worktrees.len();
    let mut r: Vec<Worktree> = Vec::new();
    let mut i: usize = 0;
    proof {
        assert(ws.subrange(0, 0).filter(pred) =~= Seq::<SpecWorktree>::empty());
        assert(r@.map_values(|w: Worktree| w@) =~= Seq::<SpecWorktree>::empty());
    }
    while i < n
        invariant
            n == worktrees@.len(),
            ws == worktrees@.map_values(|w: Worktree| w@),
            ws.len() == n,
            pred == (|w: SpecWorktree|
                !prune_excluded_spec(w, base@) && age_candidate_spec(
                    w.created_at,
                    now_ms,
                    threshold_ms,
                )),
            i <= n,
            r@.map_values(|w: Worktree| w@) == ws.subrange(0, i as int).filter(pred),
        decreases n - i,
    {
        proof {
            assert(ws[i as int] == worktrees@[i as int]@);
        }
        let ghost r0 = r@.map_values(|w: Worktree| w@);
        let wt = &worktrees[i];
        if !prune_excluded(wt, base) && is_age_candidate(wt.created_at, now_ms, threshold_ms) {
            r.push(wt.clone());
            proof {
                assert(r@.map_values(|w: Worktree| w@) =~= r0.push(ws[i as int]));
            }
        }
        proof {
            reveal(Seq::filter);
            let pre = ws.subrange(0, i as int);
            let post = ws.subrange(0, i + 1);
            assert(post.drop_last() =~= pre);
            assert(post.last() == ws[i as int]);
        }
        i += 1;
    }
    proof {
        assert(ws.subrange(0, n as int) =~= ws);
    }
    r
}

} // verus!
