//! The porcelain parser: turns the line-oriented output of the
//! worktree-listing subprocess into partial records.
//!
//! Each `worktree <path>` header opens a block; the following lines fill the
//! record until the next header or the end of input closes it. A block
//! flagged `bare` stands for the management repository itself and is dropped
//! entirely. Unrecognized lines are ignored for forward compatibility.

use vstd::prelude::*;
use crate::bytes::{lit_bytes, split_nl, starts_with_spec, trim_seq};
use crate::bytes::{eq_bytes, lit, split_lines, starts_with, subvec, trim};

verus! {

/// Accumulator for one porcelain block; fields stay `None` until their line
/// is seen.
pub struct PartialWorktree {
    pub path: Option<Vec<u8>>,
    pub head: Option<Vec<u8>>,
    pub branch: Option<Vec<u8>>,
    pub is_locked: bool,
    pub is_prunable: bool,
    pub is_bare: bool,
}

/// The mathematical shadow of `PartialWorktree`.
pub struct SpecPartial {
    pub path: Option<Seq<u8>>,
    pub head: Option<Seq<u8>>,
    pub branch: Option<Seq<u8>>,
    pub is_locked: bool,
    pub is_prunable: bool,
    pub is_bare: bool,
}

impl View for PartialWorktree {
    type V = SpecPartial;

    open spec fn view(&self) -> SpecPartial {
        SpecPartial {
            path: match self.path {
                Some(v) => Some(v@),
                None => None,
            },
            head: match self.head {
                Some(v) => Some(v@),
                None => None,
            },
            branch: match self.branch {
                Some(v) => Some(v@),
                None => None,
            },
            is_locked: self.is_locked,
            is_prunable: self.is_prunable,
            is_bare: self.is_bare,
        }
    }
}

pub open spec fn empty_partial() -> SpecPartial {
    SpecPartial {
        path: None,
        head: None,
        branch: None,
        is_locked: false,
        is_prunable: false,
        is_bare: false,
    }
}

/// The branch sentinel recorded for a detached HEAD.
pub open spec fn detached_head_spec() -> Seq<u8> {
    lit_bytes("detached HEAD")
}

/// The sentinel branch value standing for a detached HEAD.
pub fn detached_head() -> (r: Vec<u8>)
    ensures
        r@ == detached_head_spec(),
{
    proof {
        reveal_strlit("detached HEAD");
    }
    lit("detached HEAD")
}

/// A branch reference with one leading `refs/heads/` stripped.
pub open spec fn strip_heads_prefix(s: Seq<u8>) -> Seq<u8> {
    if starts_with_spec(s, lit_bytes("refs/heads/")) {
        s.skip(11)
    } else {
        s
    }
}

/// A line with one trailing carriage return removed, as the line splitter
/// of the original text stream sees it.
pub open spec fn strip_cr(line: Seq<u8>) -> Seq<u8> {
    if line.len() > 0 && line.last() == 13 {
        line.drop_last()
    } else {
        line
    }
}

/// A closed block enters the record list unless it is unstarted or bare.
pub open spec fn flush(recs: Seq<SpecPartial>, cur: SpecPartial) -> Seq<SpecPartial> {
    if cur.path is Some && !cur.is_bare {
        recs.push(cur)
    } else {
        recs
    }
}

/// One line applied to the parse state.
pub open spec fn line_step(recs: Seq<SpecPartial>, cur: SpecPartial, line: Seq<u8>) -> (
    Seq<SpecPartial>,
    SpecPartial,
) {
    if starts_with_spec(line, lit_bytes("worktree ")) {
        (
            flush(recs, cur),
            SpecPartial {
                path: Some(line.skip(9)),
                head: None,
                branch: None,
                is_locked: false,
                is_prunable: false,
                is_bare: false,
            },
        )
    } else if starts_with_spec(line, lit_bytes("HEAD ")) {
        (recs, SpecPartial { head: Some(line.skip(5)), ..cur })
    } else if starts_with_spec(line, lit_bytes("branch ")) {
        (recs, SpecPartial { branch: Some(strip_heads_prefix(line.skip(7))), ..cur })
    } else if line == lit_bytes("detached") {
        (recs, SpecPartial { branch: Some(detached_head_spec()), ..cur })
    } else if line == lit_bytes("locked") {
        (recs, SpecPartial { is_locked: true, ..cur })
    } else if line == lit_bytes("prunable") {
        (recs, SpecPartial { is_prunable: true, ..cur })
    } else if line == lit_bytes("bare") {
        (recs, SpecPartial { is_bare: true, ..cur })
    } else {
        (recs, cur)
    }
}

/// The records produced by folding the lines from `i` on over the state
/// `(recs, cur)`, closing the last block at the end.
pub open spec fn fold_lines(
    lines: Seq<Seq<u8>>,
    i: int,
    recs: Seq<SpecPartial>,
    cur: SpecPartial,
) -> Seq<SpecPartial>
    decreases lines.len() - i,
{
    if !(0 <= i < lines.len()) {
        flush(recs, cur)
    } else {
        let (r2, c2) = line_step(recs, cur, strip_cr(lines[i]));
        fold_lines(lines, i + 1, r2, c2)
    }
}

/// The records denoted by a porcelain listing.
pub open spec fn parse_spec(output: Seq<u8>) -> Seq<SpecPartial> {
    fold_lines(split_nl(trim_seq(output)), 0, Seq::empty(), empty_partial())
}

impl PartialWorktree {
    /// A record with nothing observed yet.
    pub fn new() -> (r: Self)
        ensures
            r@ == empty_partial(),
    {
        PartialWorktree {
            path: None,
            head: None,
            branch: None,
            is_locked: false,
            is_prunable: false,
            is_bare: false,
        }
    }
}

/// Parses the porcelain output of the worktree listing into one partial
/// record per non-bare block.
pub fn parse_worktree_lines(output: &[u8]) -> (r: Vec<PartialWorktree>)
    ensures
        r@.map_values(|p: PartialWorktree| p@) == parse_spec(output@),
{
    proof {
        reveal_strlit("worktree ");
        reveal_strlit("HEAD ");
        reveal_strlit("branch ");
        reveal_strlit("refs/heads/");
        reveal_strlit("detached");
        reveal_strlit("locked");
        reveal_strlit("prunable");
        reveal_strlit("bare");
    }
    let p_worktree = lit("worktree ");
    let p_head = lit("HEAD ");
    let p_branch = lit("branch ");
    let p_heads = lit("refs/heads/");
    let p_detached = lit("detached");
    let p_locked = lit("locked");
    let p_prunable = lit("prunable");
    let p_bare = lit("bare");
    let t = trim(output);
    let lines = split_lines(t.as_slice());
    let ghost spec_lines = lines@.map_values(|l: Vec<u8>| l@);
    let mut recs: Vec<PartialWorktree> = Vec::new();
    let mut cur = PartialWorktree::new();
    let mut k: usize = 0;
    proof {
        assert(recs@.map_values(|p: PartialWorktree| p@) =~= Seq::<SpecPartial>::empty());
    }
    while k < lines.len()
        invariant
            k <= lines@.len(),
            spec_lines == lines@.map_values(|l: Vec<u8>| l@),
            parse_spec(output@) == fold_lines(
                spec_lines,
                k as int,
                recs@.map_values(|p: PartialWorktree| p@),
                cur@,
            ),
            p_worktree@ == lit_bytes("worktree "),
            p_head@ == lit_bytes("HEAD "),
            p_branch@ == lit_bytes("branch "),
            p_heads@ == lit_bytes("refs/heads/"),
            p_detached@ == lit_bytes("detached"),
            p_locked@ == lit_bytes("locked"),
            p_prunable@ == lit_bytes("prunable"),
            p_bare@ == lit_bytes("bare"),
        decreases lines@.len() - k,
    {
        proof {
            reveal_strlit("worktree ");
            reveal_strlit("HEAD ");
            reveal_strlit("branch ");
            reveal_strlit("refs/heads/");
            reveal_strlit("detached");
            reveal_strlit("locked");
            reveal_strlit("prunable");
            reveal_strlit("bare");
        }
        let ghost recs0 = recs@.map_values(|p: PartialWorktree| p@);
        let ghost cur0 = cur@;
        let raw = &lines[k];
        let rn = raw.len();
        let line: Vec<u8> = if rn > 0 && raw[rn - 1] == 13 {
            subvec(raw.as_slice(), 0, rn - 1)
        } else {
            subvec(raw.as_slice(), 0, rn)
        };
        proof {
            assert(raw@ == spec_lines[k as int]);
            if rn > 0 && raw@[rn - 1] == 13 {
                assert(line@ =~= strip_cr(spec_lines[k as int]));
            } else {
                assert(line@ =~= raw@);
                assert(line@ =~= strip_cr(spec_lines[k as int]));
            }
        }
        if starts_with(line.as_slice(), p_worktree.as_slice()) {
            if cur.path.is_some() && !cur.is_bare {
                recs.push(cur);
                proof {
                    assert(recs@.map_values(|p: PartialWorktree| p@) =~= recs0.push(cur0));
                }
            }
            let rest = subvec(line.as_slice(), 9, line.len());
            proof {
                assert(rest@ =~= line@.skip(9));
            }
            cur = PartialWorktree {
                path: Some(rest),
                head: None,
                branch: None,
                is_locked: false,
                is_prunable: false,
                is_bare: false,
            };
        } else if starts_with(line.as_slice(), p_head.as_slice()) {
            let rest = subvec(line.as_slice(), 5, line.len());
            proof {
                assert(rest@ =~= line@.skip(5));
            }
            cur.head = Some(rest);
        } else if starts_with(line.as_slice(), p_branch.as_slice()) {
            let rest = subvec(line.as_slice(), 7, line.len());
            proof {
                assert(rest@ =~= line@.skip(7));
            }
            let branch: Vec<u8> = if starts_with(rest.as_slice(), p_heads.as_slice()) {
                let b = subvec(rest.as_slice(), 11, rest.len());
                proof {
                    assert(b@ =~= rest@.skip(11));
                }
                b
            } else {
                rest
            };
            cur.branch = Some(branch);
        } else if eq_bytes(line.as_slice(), p_detached.as_slice()) {
            cur.branch = Some(detached_head());
        } else if eq_bytes(line.as_slice(), p_locked.as_slice()) {
            cur.is_locked = true;
        } else if eq_bytes(line.as_slice(), p_prunable.as_slice()) {
            cur.is_prunable = true;
        } else if eq_bytes(line.as_slice(), p_bare.as_slice()) {
            cur.is_bare = true;
        }
        proof {
            let (r2, c2) = line_step(recs0, cur0, strip_cr(spec_lines[k as int]));
            assert(recs@.map_values(|p: PartialWorktree| p@) == r2);
            assert(cur@ == c2);
        }
        k += 1;
    }
    if cur.path.is_some() && !cur.is_bare {
        let ghost recs0 = recs@.map_values(|p: PartialWorktree| p@);
        let ghost cur0 = cur@;
        recs.push(cur);
        proof {
            assert(recs@.map_values(|p: PartialWorktree| p@) =~= recs0.push(cur0));
        }
    }
    recs
}

proof fn lemma_fold_bare_free(lines: Seq<Seq<u8>>, i: int, recs: Seq<SpecPartial>, cur: SpecPartial)
    requires
        forall|j: int| 0 <= j < recs.len() ==> !recs[j].is_bare,
    ensures
        forall|j: int|
            0 <= j < fold_lines(lines, i, recs, cur).len() ==> !fold_lines(
                lines,
                i,
                recs,
                cur,
            )[j].is_bare,
    decreases lines.len() - i,
{
    if !(0 <= i < lines.len()) {
    } else {
        let (r2, c2) = line_step(recs, cur, strip_cr(lines[i]));
        lemma_fold_bare_free(lines, i + 1, r2, c2);
    }
}

/// The parser never emits a record for a block containing a `bare` line:
/// a block's record carries `is_bare` exactly when such a line occurred in
/// it, and every record the parse produces has the flag unset.
pub proof fn lemma_parse_never_emits_bare(output: Seq<u8>)
    ensures
        forall|j: int| 0 <= j < parse_spec(output).len() ==> !parse_spec(output)[j].is_bare,
{
    lemma_fold_bare_free(split_nl(trim_seq(output)), 0, Seq::empty(), empty_partial());
}

proof fn lemma_fold_paths_set(lines: Seq<Seq<u8>>, i: int, recs: Seq<SpecPartial>, cur: SpecPartial)
    requires
        forall|j: int| 0 <= j < recs.len() ==> #[trigger] recs[j].path is Some,
    ensures
        forall|j: int|
            0 <= j < fold_lines(lines, i, recs, cur).len() ==> #[trigger] fold_lines(
                lines,
                i,
                recs,
                cur,
            )[j].path is Some,
    decreases lines.len() - i,
{
    if !(0 <= i < lines.len()) {
    } else {
        let (r2, c2) = line_step(recs, cur, strip_cr(lines[i]));
        lemma_fold_paths_set(lines, i + 1, r2, c2);
    }
}

/// Every record the parse produces came from a block opened by a
/// `worktree` header: its path field is always set.
pub proof fn lemma_parse_records_have_paths(output: Seq<u8>)
    ensures
        forall|j: int|
            0 <= j < parse_spec(output).len() ==> #[trigger] parse_spec(output)[j].path is Some,
{
    lemma_fold_paths_set(split_nl(trim_seq(output)), 0, Seq::empty(), empty_partial());
}

} // verus!
