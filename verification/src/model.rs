//! The worktree model: the enriched record one porcelain block becomes, the
//! completer that derives its state, and the matchers that find a worktree
//! by branch name, directory name or path.

use vstd::prelude::*;
use crate::bytes::{ends_with_spec, lit_bytes, trim_seq};
use crate::bytes::{ends_with, eq_bytes, lit, push_all, subvec, trim};
use crate::path_safety::{trim_branch_spec, trim_trailing_branch_slashes};
use crate::porcelain::SpecPartial;
use crate::porcelain::PartialWorktree;
use crate::urls::{file_name_spec, file_name};

verus! {

/// One filesystem worktree currently registered with the repository.
pub struct Worktree {
    pub path: Vec<u8>,
    pub branch: Vec<u8>,
    pub head: Vec<u8>,
    /// Seconds since the epoch; zero is the "unknown" sentinel, never null.
    pub created_at: i64,
    pub is_dirty: bool,
    pub is_locked: bool,
    pub is_prunable: bool,
    pub is_main: bool,
}

/// The mathematical shadow of `Worktree`.
pub struct SpecWorktree {
    pub path: Seq<u8>,
    pub branch: Seq<u8>,
    pub head: Seq<u8>,
    pub created_at: i64,
    pub is_dirty: bool,
    pub is_locked: bool,
    pub is_prunable: bool,
    pub is_main: bool,
}

impl View for Worktree {
    type V = SpecWorktree;

    open spec fn view(&self) -> SpecWorktree {
        SpecWorktree {
            path: self.path@,
            branch: self.branch@,
            head: self.head@,
            created_at: self.created_at,
            is_dirty: self.is_dirty,
            is_locked: self.is_locked,
            is_prunable: self.is_prunable,
            is_main: self.is_main,
        }
    }
}

impl Clone for Worktree {
    fn clone(&self) -> (r: Self)
        ensures
            r@ == self@,
    {
        let path = subvec(self.path.as_slice(), 0, self.path.len());
        let branch = subvec(self.branch.as_slice(), 0, self.branch.len());
        let head = subvec(self.head.as_slice(), 0, self.head.len());
        proof {
            assert(path@ =~= self.path@);
            assert(branch@ =~= self.branch@);
            assert(head@ =~= self.head@);
        }
        Worktree {
            path,
            branch,
            head,
            created_at: self.created_at,
            is_dirty: self.is_dirty,
            is_locked: self.is_locked,
            is_prunable: self.is_prunable,
            is_main: self.is_main,
        }
    }
}

/// Filters a listing obeys: only dirty, only locked, detailed display.
pub struct WorktreeListOptions {
    pub dirty: bool,
    pub locked: bool,
    pub details: bool,
}

/// Settings of a prune run; the age threshold is in milliseconds.
pub struct PruneOptions {
    pub dry_run: bool,
    pub force: bool,
    pub base_branch: Vec<u8>,
    pub older_than: Option<u64>,
}

/// The managed repository: the bare clone's path and the project root (its
/// parent directory).
pub struct RepoContext {
    pub repo_path: Vec<u8>,
    pub project_root: Vec<u8>,
}

pub fn repo_path(context: &RepoContext) -> (r: &Vec<u8>)
    ensures
        r@ == context.repo_path@,
{
    &context.repo_path
}

pub fn project_root(context: &RepoContext) -> (r: &Vec<u8>)
    ensures
        r@ == context.project_root@,
{
    &context.project_root
}

/// A conventional main-branch name.
pub open spec fn main_branch_spec(b: Seq<u8>) -> bool {
    b == lit_bytes("main") || b == lit_bytes("master")
}

pub open spec fn or_empty(v: Option<Seq<u8>>) -> Seq<u8> {
    match v {
        Some(s) => s,
        None => Seq::empty(),
    }
}

/// The record a partial block becomes once the caller has probed the
/// filesystem: dirty flag and creation time are supplied, the main-branch
/// flag is derived from the branch name.
pub open spec fn complete_spec(p: SpecPartial, is_dirty: bool, created_at: i64) -> SpecWorktree {
    SpecWorktree {
        path: or_empty(p.path),
        branch: or_empty(p.branch),
        head: or_empty(p.head),
        created_at,
        is_dirty,
        is_locked: p.is_locked,
        is_prunable: p.is_prunable,
        is_main: main_branch_spec(or_empty(p.branch)),
    }
}

fn is_main_branch(b: &[u8]) -> (r: bool)
    ensures
        r == main_branch_spec(b@),
{
    proof {
        reveal_strlit("main");
        reveal_strlit("master");
    }
    let m1 = lit("main");
    let m2 = lit("master");
    eq_bytes(b, m1.as_slice()) || eq_bytes(b, m2.as_slice())
}

/// Enriches one parsed record. The dirty flag and the creation timestamp
/// come from the caller's probes; a failed probe is reported as `false` /
/// the zero sentinel there, never here.
pub fn complete_worktree_info(partial: PartialWorktree, is_dirty: bool, created_at: i64) -> (r:
    Worktree)
    ensures
        r@ == complete_spec(partial@, is_dirty, created_at),
{
    let path = match partial.path {
        Some(v) => v,
        None => Vec::new(),
    };
    let branch = match partial.branch {
        Some(v) => v,
        None => Vec::new(),
    };
    let head = match partial.head {
        Some(v) => v,
        None => Vec::new(),
    };
    let is_main = is_main_branch(branch.as_slice());
    Worktree {
        path,
        branch,
        head,
        created_at,
        is_dirty,
        is_locked: partial.is_locked,
        is_prunable: partial.is_prunable,
        is_main,
    }
}

/// The creation-time fallback chain: native creation time when the platform
/// exposes it, else inode-change time, else modification time, else the
/// zero sentinel meaning "unknown".
pub open spec fn created_at_chain(created: Option<i64>, ctime: Option<i64>, mtime: Option<i64>) -> i64 {
    match created {
        Some(c) => c,
        None => match ctime {
            Some(c) => c,
            None => match mtime {
                Some(m) => m,
                None => 0,
            },
        },
    }
}

pub fn created_at_from_times(created: Option<i64>, ctime: Option<i64>, mtime: Option<i64>) -> (r:
    i64)
    ensures
        r == created_at_chain(created, ctime, mtime),
{
    match created {
        Some(c) => c,
        None => match ctime {
            Some(c) => c,
            None => match mtime {
                Some(m) => m,
                None => 0,
            },
        },
    }
}

/// Whether a listing shows this worktree under the given filters.
pub open spec fn include_spec(w: SpecWorktree, dirty: bool, locked: bool) -> bool {
    (!dirty || w.is_dirty) && (!locked || w.is_locked)
}

pub fn should_include_worktree(worktree: &Worktree, options: &WorktreeListOptions) -> (r: bool)
    ensures
        r == include_spec(worktree@, options.dirty, options.locked),
{
    if options.dirty && !worktree.is_dirty {
        return false;
    }
    if options.locked && !worktree.is_locked {
        return false;
    }
    true
}

/// The status word of a worktree: `clean`, `dirty`, `prunable`, or both.
pub open spec fn status_spec(w: SpecWorktree) -> Seq<u8> {
    if w.is_dirty && w.is_prunable {
        lit_bytes("dirty, prunable")
    } else if w.is_dirty {
        lit_bytes("dirty")
    } else if w.is_prunable {
        lit_bytes("prunable")
    } else {
        lit_bytes("clean")
    }
}

pub fn get_worktree_status(wt: &Worktree) -> (r: Vec<u8>)
    ensures
        r@ == status_spec(wt@),
{
    proof {
        reveal_strlit("dirty, prunable");
        reveal_strlit("dirty");
        reveal_strlit("prunable");
        reveal_strlit("clean");
    }
    if wt.is_dirty && wt.is_prunable {
        lit("dirty, prunable")
    } else if wt.is_dirty {
        lit("dirty")
    } else if wt.is_prunable {
        lit("prunable")
    } else {
        lit("clean")
    }
}

/// First index at or after `i` whose branch equals `b`, or the length.
pub open spec fn find_branch_eq(ws: Seq<SpecWorktree>, b: Seq<u8>, i: int) -> int
    decreases ws.len() - i,
{
    if !(0 <= i < ws.len()) {
        ws.len() as int
    } else if ws[i].branch == b {
        i
    } else {
        find_branch_eq(ws, b, i + 1)
    }
}

/// First index at or after `i` whose directory name equals `b`, or the
/// length.
pub open spec fn find_dir_eq(ws: Seq<SpecWorktree>, b: Seq<u8>, i: int) -> int
    decreases ws.len() - i,
{
    if !(0 <= i < ws.len()) {
        ws.len() as int
    } else if file_name_spec(ws[i].path) == Some(b) {
        i
    } else {
        find_dir_eq(ws, b, i + 1)
    }
}

/// First index at or after `i` whose branch ends in `/b`, or the length.
pub open spec fn find_branch_suffix(ws: Seq<SpecWorktree>, b: Seq<u8>, i: int) -> int
    decreases ws.len() - i,
{
    if !(0 <= i < ws.len()) {
        ws.len() as int
    } else if ends_with_spec(ws[i].branch, seq![47u8] + b) {
        i
    } else {
        find_branch_suffix(ws, b, i + 1)
    }
}

/// The worktree a name designates: first an exact branch match, then a
/// directory-name match, then a branch-suffix match; trailing slashes and
/// whitespace in the name are ignored, and an empty name matches nothing.
pub open spec fn match_worktree_spec(ws: Seq<SpecWorktree>, name: Seq<u8>) -> Option<int> {
    let b = trim_branch_spec(name);
    if b.len() == 0 {
        None
    } else if find_branch_eq(ws, b, 0) < ws.len() {
        Some(find_branch_eq(ws, b, 0))
    } else if find_dir_eq(ws, b, 0) < ws.len() {
        Some(find_dir_eq(ws, b, 0))
    } else if find_branch_suffix(ws, b, 0) < ws.len() {
        Some(find_branch_suffix(ws, b, 0))
    } else {
        None
    }
}

proof fn lemma_find_branch_eq_rec(ws: Seq<SpecWorktree>, b: Seq<u8>, i: int, j: int)
    requires
        0 <= i <= j <= ws.len(),
        forall|x: int| i <= x < j ==> ws[x].branch != b,
        j < ws.len() ==> ws[j].branch == b,
    ensures
        find_branch_eq(ws, b, i) == if j < ws.len() {
            j
        } else {
            ws.len() as int
        },
    decreases j - i,
{
    if i < j {
        lemma_find_branch_eq_rec(ws, b, i + 1, j);
    }
}

proof fn lemma_find_dir_eq_rec(ws: Seq<SpecWorktree>, b: Seq<u8>, i: int, j: int)
    requires
        0 <= i <= j <= ws.len(),
        forall|x: int| i <= x < j ==> file_name_spec(ws[x].path) != Some(b),
        j < ws.len() ==> file_name_spec(ws[j].path) == Some(b),
    ensures
        find_dir_eq(ws, b, i) == if j < ws.len() {
            j
        } else {
            ws.len() as int
        },
    decreases j - i,
{
    if i < j {
        lemma_find_dir_eq_rec(ws, b, i + 1, j);
    }
}

proof fn lemma_find_branch_suffix_rec(ws: Seq<SpecWorktree>, b: Seq<u8>, i: int, j: int)
    requires
        0 <= i <= j <= ws.len(),
        forall|x: int| i <= x < j ==> !ends_with_spec(ws[x].branch, seq![47u8] + b),
        j < ws.len() ==> ends_with_spec(ws[j].branch, seq![47u8] + b),
    ensures
        find_branch_suffix(ws, b, i) == if j < ws.len() {
            j
        } else {
            ws.len() as int
        },
    decreases j - i,
{
    if i < j {
        lemma_find_branch_suffix_rec(ws, b, i + 1, j);
    }
}

/// Finds the worktree a name designates: exact branch match first, then
/// directory name, then branch suffix. Returns its index in the listing.
pub fn match_worktree_by_name(worktrees: &Vec<Worktree>, name: &[u8]) -> (r: Option<usize>)
    ensures
        match r {
            Some(i) => i < worktrees@.len() && match_worktree_spec(
                worktrees@.map_values(|w: Worktree| w@),
                name@,
            ) == Some(i as int),
            None => match_worktree_spec(worktrees@.map_values(|w: Worktree| w@), name@) is None,
        },
{
    let ghost ws = worktrees@.map_values(|w: Worktree| w@);
    proof {
        assert(ws.len() == worktrees@.len());
    }
    let b = trim_trailing_branch_slashes(name);
    if b.len() == 0 {
        return None;
    }
    let n = worktrees.len();
    let mut i: usize = 0;
    while i < n
        invariant
            n == worktrees@.len(),
            ws.len() == n,
            ws == worktrees@.map_values(|w: Worktree| w@),
            b@ == trim_branch_spec(name@),
            b@.len() != 0,
            i <= n,
            forall|x: int| 0 <= x < i ==> ws[x].branch != b@,
        decreases n - i,
    {
        proof {
            assert(ws[i as int] == worktrees@[i as int]@);
        }
        if eq_bytes(worktrees[i].branch.as_slice(), b.as_slice()) {
            proof {
                lemma_find_branch_eq_rec(ws, b@, 0, i as int);
            }
            return Some(i);
        }
        i += 1;
    }
    proof {
        lemma_find_branch_eq_rec(ws, b@, 0, ws.len() as int);
    }
    let mut i: usize = 0;
    while i < n
        invariant
            n == worktrees@.len(),
            ws.len() == n,
            ws == worktrees@.map_values(|w: Worktree| w@),
            b@ == trim_branch_spec(name@),
            b@.len() != 0,
            find_branch_eq(ws, b@, 0) == ws.len(),
            i <= n,
            forall|x: int| 0 <= x < i ==> file_name_spec(ws[x].path) != Some(b@),
        decreases n - i,
    {
        proof {
            assert(ws[i as int] == worktrees@[i as int]@);
        }
        let matched = match file_name(worktrees[i].path.as_slice()) {
            Some(fname) => eq_bytes(fname.as_slice(), b.as_slice()),
            None => false,
        };
        if matched {
            proof {
                lemma_find_dir_eq_rec(ws, b@, 0, i as int);
            }
            return Some(i);
        }
        i += 1;
    }
    proof {
        lemma_find_dir_eq_rec(ws, b@, 0, ws.len() as int);
    }
    let mut slash_b: Vec<u8> = Vec::new();
    slash_b.push(47);
    push_all(&mut slash_b, b.as_slice());
    proof {
        assert(slash_b@ =~= seq![47u8] + b@);
    }
    let mut i: usize = 0;
    while i < n
        invariant
            n == worktrees@.len(),
            ws.len() == n,
            ws == worktrees@.map_values(|w: Worktree| w@),
            b@ == trim_branch_spec(name@),
            b@.len() != 0,
            slash_b@ == seq![47u8] + b@,
            find_branch_eq(ws, b@, 0) == ws.len(),
            find_dir_eq(ws, b@, 0) == ws.len(),
            i <= n,
            forall|x: int| 0 <= x < i ==> !ends_with_spec(ws[x].branch, seq![47u8] + b@),
        decreases n - i,
    {
        proof {
            assert(ws[i as int] == worktrees@[i as int]@);
        }
        if ends_with(worktrees[i].branch.as_slice(), slash_b.as_slice()) {
            proof {
                lemma_find_branch_suffix_rec(ws, b@, 0, i as int);
            }
            return Some(i);
        }
        i += 1;
    }
    proof {
        lemma_find_branch_suffix_rec(ws, b@, 0, ws.len() as int);
    }
    None
}

/// A worktree matches an identifier when the identifier is its path, its
/// path up to trailing slashes, its branch, or a `/`-separated suffix of
/// its path.
pub open spec fn ident_matches(
    w: SpecWorktree,
    trimmed: Seq<u8>,
    nb: Seq<u8>,
    np: Seq<u8>,
) -> bool {
    ||| w.path == trimmed
    ||| crate::bytes::trim_end_byte_seq(w.path, 47) == np
    ||| (nb.len() > 0 && (w.branch == nb || ends_with_spec(w.path, seq![47u8] + nb)))
}

/// First index at or after `i` matching the identifier, or the length.
pub open spec fn find_ident(
    ws: Seq<SpecWorktree>,
    trimmed: Seq<u8>,
    nb: Seq<u8>,
    np: Seq<u8>,
    i: int,
) -> int
    decreases ws.len() - i,
{
    if !(0 <= i < ws.len()) {
        ws.len() as int
    } else if ident_matches(ws[i], trimmed, nb, np) {
        i
    } else {
        find_ident(ws, trimmed, nb, np, i + 1)
    }
}

/// The worktree designated when removing by name or path.
pub open spec fn find_ident_spec(ws: Seq<SpecWorktree>, identifier: Seq<u8>) -> Option<int> {
    let trimmed = trim_seq(identifier);
    let nb = trim_branch_spec(identifier);
    let np = crate::bytes::trim_end_byte_seq(trimmed, 47);
    if find_ident(ws, trimmed, nb, np, 0) < ws.len() {
        Some(find_ident(ws, trimmed, nb, np, 0))
    } else {
        None
    }
}

proof fn lemma_find_ident_rec(
    ws: Seq<SpecWorktree>,
    trimmed: Seq<u8>,
    nb: Seq<u8>,
    np: Seq<u8>,
    i: int,
    j: int,
)
    requires
        0 <= i <= j <= ws.len(),
        forall|x: int| i <= x < j ==> !ident_matches(ws[x], trimmed, nb, np),
        j < ws.len() ==> ident_matches(ws[j], trimmed, nb, np),
    ensures
        find_ident(ws, trimmed, nb, np, i) == if j < ws.len() {
            j
        } else {
            ws.len() as int
        },
    decreases j - i,
{
    if i < j {
        lemma_find_ident_rec(ws, trimmed, nb, np, i + 1, j);
    }
}

/// Finds the worktree to remove: by full path, by path up to trailing
/// slashes, by branch name, or by a path suffix. Returns its index.
pub fn find_worktree_by_identifier(worktrees: &Vec<Worktree>, identifier: &[u8]) -> (r: Option<
    usize,
>)
    ensures
        match r {
            Some(i) => i < worktrees@.len() && find_ident_spec(
                worktrees@.map_values(|w: Worktree| w@),
                identifier@,
            ) == Some(i as int),
            None => find_ident_spec(worktrees@.map_values(|w: Worktree| w@), identifier@) is None,
        },
{
    let ghost ws = worktrees@.map_values(|w: Worktree| w@);
    let trimmed = trim(identifier);
    let nb = trim_trailing_branch_slashes(identifier);
    let np = crate::bytes::trim_end_byte(trimmed.as_slice(), 47);
    let mut slash_nb: Vec<u8> = Vec::new();
    slash_nb.push(47);
    push_all(&mut slash_nb, nb.as_slice());
    proof {
        assert(slash_nb@ =~= seq![47u8] + nb@);
    }
    let n = worktrees.len();
    let mut i: usize = 0;
    while i < n
        invariant
            n == worktrees@.len(),
            ws.len() == n,
            ws == worktrees@.map_values(|w: Worktree| w@),
            trimmed@ == trim_seq(identifier@),
            nb@ == trim_branch_spec(identifier@),
            np@ == crate::bytes::trim_end_byte_seq(trimmed@, 47),
            slash_nb@ == seq![47u8] + nb@,
            i <= n,
            forall|x: int| 0 <= x < i ==> !ident_matches(ws[x], trimmed@, nb@, np@),
        decreases n - i,
    {
        proof {
            assert(ws[i as int] == worktrees@[i as int]@);
        }
        let wt = &worktrees[i];
        let path_trim = crate::bytes::trim_end_byte(wt.path.as_slice(), 47);
        let m = eq_bytes(wt.path.as_slice(), trimmed.as_slice()) || eq_bytes(
            path_trim.as_slice(),
            np.as_slice(),
        ) || (nb.len() > 0 && (eq_bytes(wt.branch.as_slice(), nb.as_slice()) || ends_with(
            wt.path.as_slice(),
            slash_nb.as_slice(),
        )));
        if m {
            proof {
                lemma_find_ident_rec(ws, trimmed@, nb@, np@, 0, i as int);
            }
            return Some(i);
        }
        i += 1;
    }
    proof {
        lemma_find_ident_rec(ws, trimmed@, nb@, np@, 0, ws.len() as int);
    }
    None
}

/// A full listing from parsed blocks and the caller's per-worktree probes.
pub open spec fn listing_spec(
    parts: Seq<SpecPartial>,
    dirty: Seq<bool>,
    created: Seq<i64>,
) -> Seq<SpecWorktree> {
    Seq::new(parts.len(), |i: int| complete_spec(parts[i], dirty[i], created[i]))
}

/// Completes every parsed block with its probe results, in order.
pub fn complete_all(partials: Vec<PartialWorktree>, dirty: &Vec<bool>, created: &Vec<i64>) -> (r:
    Vec<Worktree>)
    requires
        partials@.len() == dirty@.len() == created@.len(),
    ensures
        r@.map_values(|w: Worktree| w@) == listing_spec(
            partials@.map_values(|p: PartialWorktree| p@),
            dirty@,
            created@,
        ),
{
    let ghost parts0 = partials@.map_values(|p: PartialWorktree| p@);
    let mut r: Vec<Worktree> = Vec::new();
    let mut partials = partials;
    let n = partials.len();
    let mut i: usize = 0;
    proof {
        assert(partials@.map_values(|p: PartialWorktree| p@) =~= parts0.skip(0));
    }
    while i < n
        invariant
            i <= n == parts0.len(),
            partials@.len() == n - i,
            dirty@.len() == n,
            created@.len() == n,
            partials@.map_values(|p: PartialWorktree| p@) == parts0.skip(i as int),
            r@.len() == i,
            forall|x: int|
                0 <= x < i ==> r@.map_values(|w: Worktree| w@)[x] == complete_spec(
                    parts0[x],
                    dirty@[x],
                    created@[x],
                ),
        decreases n - i,
    {
        let ghost partials0 = partials@;
        let p = partials.remove(0);
        proof {
            assert(partials0.map_values(|q: PartialWorktree| q@)[0] == parts0.skip(i as int)[0]);
            assert(p@ == parts0[i as int]);
            assert forall|x: int|
                0 <= x < partials@.len() implies (#[trigger] parts0.skip(i + 1)[x])
                == partials@.map_values(|q: PartialWorktree| q@)[x] by {
                assert(partials@[x] == partials0[x + 1]);
                assert(partials0.map_values(|q: PartialWorktree| q@)[x + 1] == parts0.skip(
                    i as int,
                )[x + 1]);
            }
            assert(partials@.map_values(|q: PartialWorktree| q@) =~= parts0.skip(i + 1));
        }
        let w = complete_worktree_info(p, dirty[i], created[i]);
        r.push(w);
        i += 1;
    }
    proof {
        assert(r@.map_values(|w: Worktree| w@) =~= listing_spec(parts0, dirty@, created@));
    }
    r
}

/// Listing is stable: the same porcelain text and the same creation probes
/// give record sequences of the same length that agree on every field but
/// `is_dirty`, which only follows the dirty probes.
pub proof fn lemma_listing_stable(
    parts: Seq<SpecPartial>,
    d1: Seq<bool>,
    d2: Seq<bool>,
    created: Seq<i64>,
)
    requires
        d1.len() == parts.len(),
        d2.len() == parts.len(),
        created.len() == parts.len(),
    ensures
        listing_spec(parts, d1, created).len() == listing_spec(parts, d2, created).len(),
        forall|i: int|
            0 <= i < parts.len() ==> {
                let a = #[trigger] listing_spec(parts, d1, created)[i];
                let b = listing_spec(parts, d2, created)[i];
                a.path == b.path && a.branch == b.branch && a.head == b.head && a.created_at
                    == b.created_at && a.is_locked == b.is_locked && a.is_prunable == b.is_prunable
                    && a.is_main == b.is_main && a.is_dirty == d1[i] && b.is_dirty == d2[i]
            },
{
}

} // verus!
