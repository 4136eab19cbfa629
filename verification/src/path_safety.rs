//! The path-safety validator: turns a caller-supplied branch or worktree
//! name into a path that is guaranteed to stay inside the project root.
//!
//! Textual rejection happens first, on the name alone: the parent-directory
//! token, absolute names, and reserved filesystem characters are refused
//! before any filesystem path is formed. The final containment check runs on
//! canonicalized paths, which the caller supplies, and accepts only a
//! descendant of (or the same path as) the canonical project root.

use vstd::prelude::*;
use crate::bytes::{contains_sub_spec, lit_bytes, starts_with_spec, trim_end_byte_seq, trim_seq};
use crate::bytes::{contains_sub, eq_bytes, lit, push_all, starts_with, subvec, trim,
    trim_end_byte};

verus! {

#[derive(Debug, Clone, Copy, PartialEq, Eq, Structural)]
pub enum ValidationError {
    /// The name is empty after trimming.
    EmptyName,
    /// The name holds the parent-directory token or is absolute.
    Traversal,
    /// The name holds one of the reserved characters `< > : " | ? *`.
    ProhibitedChar,
    /// The resolved path escapes the project root.
    OutsideProject,
}

/// One of the reserved filesystem characters `< > : " | ? *`.
pub open spec fn is_reserved(b: u8) -> bool {
    b == 60 || b == 62 || b == 58 || b == 34 || b == 124 || b == 63 || b == 42
}

pub open spec fn has_reserved_spec(s: Seq<u8>) -> bool {
    exists|i: int| 0 <= i < s.len() && is_reserved(s[i])
}

/// The name carries a traversal risk: the parent-directory token anywhere,
/// or an absolute path.
pub open spec fn is_traversal_spec(s: Seq<u8>) -> bool {
    contains_sub_spec(s, lit_bytes("..")) || (s.len() > 0 && s[0] == 47)
}

/// The textual safety check applied to a worktree name, in order: traversal
/// first, then reserved characters.
pub open spec fn name_check_spec(s: Seq<u8>) -> Result<(), ValidationError> {
    if is_traversal_spec(s) {
        Err(ValidationError::Traversal)
    } else if has_reserved_spec(s) {
        Err(ValidationError::ProhibitedChar)
    } else {
        Ok(())
    }
}

/// The name joined under the project root.
pub open spec fn joined_path_spec(root: Seq<u8>, name: Seq<u8>) -> Seq<u8> {
    root + seq![47u8] + name
}

/// Outcome of requesting a worktree path for `name` under `root`.
pub open spec fn get_worktree_path_spec(name: Seq<u8>, root: Seq<u8>) -> Result<
    Seq<u8>,
    ValidationError,
> {
    match name_check_spec(name) {
        Err(e) => Err(e),
        Ok(_) => Ok(joined_path_spec(root, name)),
    }
}

/// `p` is `r` itself or lies below it, on whole path components.
pub open spec fn descendant_spec(p: Seq<u8>, r: Seq<u8>) -> bool {
    p == r || (starts_with_spec(p, r) && p.len() > r.len() && ((r.len() > 0 && r.last() == 47)
        || p[r.len() as int] == 47))
}

fn has_reserved(s: &[u8]) -> (r: bool)
    ensures
        r == has_reserved_spec(s@),
{
    let mut i: usize = 0;
    while i < s.len()
        invariant
            i <= s@.len(),
            forall|j: int| 0 <= j < i ==> !is_reserved(s@[j]),
        decreases s@.len() - i,
    {
        let b = s[i];
        if b == 60 || b == 62 || b == 58 || b == 34 || b == 124 || b == 63 || b == 42 {
            return true;
        }
        i += 1;
    }
    false
}

fn name_check(s: &[u8]) -> (r: Result<(), ValidationError>)
    ensures
        r == name_check_spec(s@),
{
    proof {
        reveal_strlit("..");
    }
    let dots = lit("..");
    if contains_sub(s, dots.as_slice()) || (s.len() > 0 && s[0] == 47) {
        return Err(ValidationError::Traversal);
    }
    if has_reserved(s) {
        return Err(ValidationError::ProhibitedChar);
    }
    Ok(())
}

/// Builds the filesystem path for a new worktree named `name` under the
/// project root, refusing unsafe names before any path is formed.
pub fn get_worktree_path(branch_name: &[u8], project_root: &[u8]) -> (r: Result<
    Vec<u8>,
    ValidationError,
>)
    ensures
        match r {
            Ok(p) => get_worktree_path_spec(branch_name@, project_root@) == Ok::<
                Seq<u8>,
                ValidationError,
            >(p@),
            Err(e) => get_worktree_path_spec(branch_name@, project_root@) == Err::<
                Seq<u8>,
                ValidationError,
            >(e),
        },
{
    match name_check(branch_name) {
        Err(e) => Err(e),
        Ok(_) => {
            let mut p = subvec(project_root, 0, project_root.len());
            p.push(47);
            push_all(&mut p, branch_name);
            proof {
                assert(project_root@.subrange(0, project_root@.len() as int) =~= project_root@);
                assert(p@ =~= joined_path_spec(project_root@, branch_name@));
            }
            Ok(p)
        },
    }
}

/// The containment gate on canonicalized paths: accepts `resolved` exactly
/// when it is the canonical root or a descendant of it.
pub fn confirm_worktree_path(resolved: &[u8], resolved_root: &[u8]) -> (r: Result<
    (),
    ValidationError,
>)
    ensures
        r is Ok <==> descendant_spec(resolved@, resolved_root@),
        r is Err ==> r == Err::<(), ValidationError>(ValidationError::OutsideProject),
{
    if eq_bytes(resolved, resolved_root) {
        return Ok(());
    }
    let rn = resolved_root.len();
    if starts_with(resolved, resolved_root) && resolved.len() > rn {
        if rn > 0 && resolved_root[rn - 1] == 47 {
            return Ok(());
        }
        if resolved[rn] == 47 {
            return Ok(());
        }
    }
    Err(ValidationError::OutsideProject)
}

/// Trims whitespace, then trailing slashes, from a branch name.
pub open spec fn trim_branch_spec(s: Seq<u8>) -> Seq<u8> {
    trim_end_byte_seq(trim_seq(s), 47)
}

pub fn trim_trailing_branch_slashes(value: &[u8]) -> (r: Vec<u8>)
    ensures
        r@ == trim_branch_spec(value@),
{
    let t = trim(value);
    trim_end_byte(t.as_slice(), 47)
}

/// Outcome of validating a branch name given on the command line.
pub open spec fn validate_branch_name_spec(s: Seq<u8>) -> Result<Seq<u8>, ValidationError> {
    let t = trim_branch_spec(s);
    if t.len() == 0 {
        Err(ValidationError::EmptyName)
    } else {
        match name_check_spec(t) {
            Err(e) => Err(e),
            Ok(_) => Ok(t),
        }
    }
}

/// Validates a branch name: trims trailing slashes and whitespace, requires
/// a nonempty remainder, and applies the textual safety check.
pub fn validate_branch_name(value: &[u8]) -> (r: Result<Vec<u8>, ValidationError>)
    ensures
        match r {
            Ok(t) => validate_branch_name_spec(value@) == Ok::<Seq<u8>, ValidationError>(t@),
            Err(e) => validate_branch_name_spec(value@) == Err::<Seq<u8>, ValidationError>(e),
        },
{
    let t = trim_trailing_branch_slashes(value);
    if t.len() == 0 {
        return Err(ValidationError::EmptyName);
    }
    match name_check(t.as_slice()) {
        Err(e) => Err(e),
        Ok(_) => Ok(t),
    }
}

/// Path safety: any name holding the parent-directory token, and any
/// absolute name, is rejected before a filesystem path is formed from it.
pub proof fn lemma_unsafe_name_rejected(name: Seq<u8>, root: Seq<u8>)
    requires
        contains_sub_spec(name, lit_bytes("..")) || (name.len() > 0 && name[0] == 47),
    ensures
        get_worktree_path_spec(name, root) is Err,
{
}

/// Containment: a path the validator confirms is, byte for byte, the
/// canonical root followed by nothing or by a path below it.
pub proof fn lemma_descendant_extends_root(p: Seq<u8>, r: Seq<u8>)
    requires
        descendant_spec(p, r),
    ensures
        p.len() >= r.len(),
        p.subrange(0, r.len() as int) == r,
        p.len() > r.len() ==> ((r.len() > 0 && r[r.len() - 1] == 47) || p[r.len() as int] == 47),
{
    if p == r {
        assert(p.subrange(0, r.len() as int) =~= r);
    }
}

} // verus!
