//! Git URL validation and repository-name extraction, plus the small input
//! validators used by the command dispatcher (PR numbers, versions).

use vstd::prelude::*;
use crate::bytes::{ends_with_spec, is_digit, lit_bytes, starts_with_spec};
use crate::bytes::{digit_run, ends_with, eq_bytes, find_byte, lit, parse_digits, rfind_byte,
    starts_with, subvec, trim_end_byte};
use crate::bytes::{dv, run_end, trim_end_byte_seq};

verus! {

#[derive(Debug, Clone, Copy, PartialEq, Eq, Structural)]
pub enum UrlError {
    /// An SSH-style URL (`git@...`) without the `:` separator.
    InvalidSshUrl,
    /// No usable repository name at the end of the URL.
    NoRepoName,
}

/// A URL shape `<prefix><host part>/<tail>`: nonempty host part, a `/`,
/// a nonempty tail, and no newline after the prefix.
pub open spec fn host_path_form(s: Seq<u8>, plen: int) -> bool {
    s.len() >= plen + 3 && (forall|i: int| plen <= i < s.len() ==> s[i] != 10) && exists|j: int|
        plen + 1 <= j <= s.len() - 2 && s[j] == 47
}

/// The `git@host:path` shape: at least one non-`:` byte after `git@`, a `:`,
/// and a nonempty newline-free tail.
pub open spec fn ssh_at_form(s: Seq<u8>) -> bool {
    starts_with_spec(s, lit_bytes("git@")) && exists|k: int|
        5 <= k <= s.len() - 2 && s[k] == 58 && (forall|j: int| 4 <= j < k ==> s[j] != 58) && (
        forall|j: int| k < j < s.len() ==> s[j] != 10)
}

/// The URL shapes accepted for cloning: `http(s)://host/path`,
/// `git@host:path`, or `ssh://host/path`.
pub open spec fn valid_git_url_spec(s: Seq<u8>) -> bool {
    ||| starts_with_spec(s, lit_bytes("http://")) && host_path_form(s, 7)
    ||| starts_with_spec(s, lit_bytes("https://")) && host_path_form(s, 8)
    ||| ssh_at_form(s)
    ||| starts_with_spec(s, lit_bytes("ssh://")) && host_path_form(s, 6)
}

fn host_path_check(s: &[u8], plen: usize) -> (r: bool)
    requires
        plen <= s@.len(),
    ensures
        r == host_path_form(s@, plen as int),
{
    let n = s.len();
    if n - plen < 3 {
        return false;
    }
    match find_byte(s, 10, plen) {
        Some(_) => {
            return false;
        },
        None => {},
    }
    match find_byte(s, 47, plen + 1) {
        Some(j) => {
            if j + 1 < n {
                true
            } else {
                false
            }
        },
        None => false,
    }
}

/// Accepts exactly the URL shapes a clone can use.
pub fn is_valid_git_url(url: &[u8]) -> (r: bool)
    ensures
        r == valid_git_url_spec(url@),
{
    proof {
        reveal_strlit("http://");
        reveal_strlit("https://");
        reveal_strlit("git@");
        reveal_strlit("ssh://");
    }
    let http = lit("http://");
    let https = lit("https://");
    let git_at = lit("git@");
    let ssh = lit("ssh://");
    if starts_with(url, http.as_slice()) && host_path_check(url, 7) {
        return true;
    }
    if starts_with(url, https.as_slice()) && host_path_check(url, 8) {
        return true;
    }
    if starts_with(url, ssh.as_slice()) && host_path_check(url, 6) {
        return true;
    }
    if starts_with(url, git_at.as_slice()) {
        let n = url.len();
        match find_byte(url, 58, 4) {
            Some(k) => {
                if k >= 5 && k <= n - 2 {
                    match find_byte(url, 10, k + 1) {
                        Some(_) => {
                            proof {
                                assert(!ssh_at_form(url@)) by {
                                    assert forall|k2: int|
                                        !(5 <= k2 <= url@.len() - 2 && url@[k2] == 58 && (
                                        forall|j: int| 4 <= j < k2 ==> url@[j] != 58) && (
                                        forall|j: int|
                                            k2 < j < url@.len() ==> url@[j] != 10)) by {
                                        if 5 <= k2 <= url@.len() - 2 && url@[k2] == 58 && (
                                        forall|j: int| 4 <= j < k2 ==> url@[j] != 58) {
                                            assert(k2 == k);
                                        }
                                    }
                                }
                            }
                            return false;
                        },
                        None => {
                            return true;
                        },
                    }
                } else {
                    proof {
                        assert(!ssh_at_form(url@)) by {
                            assert forall|k2: int|
                                !(5 <= k2 <= url@.len() - 2 && url@[k2] == 58 && (forall|j: int|
                                    4 <= j < k2 ==> url@[j] != 58) && (forall|j: int|
                                    k2 < j < url@.len() ==> url@[j] != 10)) by {
                                if 5 <= k2 <= url@.len() - 2 && url@[k2] == 58 && (forall|
                                    j: int,
                                |
                                    4 <= j < k2 ==> url@[j] != 58) {
                                    assert(k2 == k);
                                }
                            }
                        }
                    }
                    return false;
                }
            },
            None => {
                return false;
            },
        }
    }
    false
}

/// Last index of `c` in `s`, or `-1`.
pub open spec fn rfind_spec(s: Seq<u8>, c: u8) -> int
    decreases s.len(),
{
    if s.len() == 0 {
        -1
    } else if s.last() == c {
        s.len() - 1
    } else {
        rfind_spec(s.drop_last(), c)
    }
}

pub proof fn lemma_rfind_at(s: Seq<u8>, c: u8, k: int)
    requires
        -1 <= k < s.len(),
        k >= 0 ==> s[k] == c,
        forall|j: int| k < j < s.len() ==> s[j] != c,
    ensures
        rfind_spec(s, c) == k,
    decreases s.len(),
{
    if s.len() > 0 {
        if k == s.len() - 1 {
        } else {
            lemma_rfind_at(s.drop_last(), c, k);
        }
    }
}

/// The last path component of `s`: trailing slashes dropped, then the text
/// after the last remaining slash. `None` when that text is empty, `.`,
/// or `..`.
pub open spec fn file_name_spec(s: Seq<u8>) -> Option<Seq<u8>> {
    let t = trim_end_byte_seq(s, 47);
    let name = t.skip(rfind_spec(t, 47) + 1);
    if name.len() == 0 || name == lit_bytes(".") || name == lit_bytes("..") {
        None
    } else {
        Some(name)
    }
}

/// Extracts the last path component, or `None` for empty, `.` and `..`.
pub fn file_name(s: &[u8]) -> (r: Option<Vec<u8>>)
    ensures
        match r {
            Some(v) => file_name_spec(s@) == Some(v@),
            None => file_name_spec(s@) is None,
        },
{
    proof {
        reveal_strlit(".");
        reveal_strlit("..");
    }
    let t = trim_end_byte(s, 47);
    let tn = t.len();
    let start: usize = match rfind_byte(t.as_slice(), 47) {
        Some(i) => {
            proof {
                lemma_rfind_at(t@, 47, i as int);
            }
            i + 1
        },
        None => {
            proof {
                lemma_rfind_at(t@, 47, -1);
            }
            0
        },
    };
    let name = subvec(t.as_slice(), start, t.len());
    proof {
        assert(name@ =~= t@.skip(rfind_spec(t@, 47) + 1));
    }
    let dot = lit(".");
    let dotdot = lit("..");
    if name.len() == 0 || eq_bytes(name.as_slice(), dot.as_slice()) || eq_bytes(
        name.as_slice(),
        dotdot.as_slice(),
    ) {
        None
    } else {
        Some(name)
    }
}

/// `s` with one `.git` suffix removed, if present.
pub open spec fn strip_git_suffix(s: Seq<u8>) -> Seq<u8> {
    if ends_with_spec(s, lit_bytes(".git")) {
        s.subrange(0, s.len() - 4)
    } else {
        s
    }
}

/// The repository name a clone URL denotes: for `git@` URLs, the last path
/// component of the text after the last `:`; otherwise the last path
/// component of the whole URL; the `.git` suffix is dropped first.
pub open spec fn extract_repo_name_spec(s: Seq<u8>) -> Result<Seq<u8>, UrlError> {
    let clean = strip_git_suffix(s);
    if starts_with_spec(clean, lit_bytes("git@")) {
        if rfind_spec(clean, 58) < 0 {
            Err(UrlError::InvalidSshUrl)
        } else {
            match file_name_spec(clean.skip(rfind_spec(clean, 58) + 1)) {
                Some(n) => Ok(n),
                None => Err(UrlError::NoRepoName),
            }
        }
    } else {
        match file_name_spec(clean) {
            Some(n) => Ok(n),
            None => Err(UrlError::NoRepoName),
        }
    }
}

pub fn extract_repo_name(git_url: &[u8]) -> (r: Result<Vec<u8>, UrlError>)
    ensures
        match r {
            Ok(v) => extract_repo_name_spec(git_url@) == Ok::<Seq<u8>, UrlError>(v@),
            Err(e) => extract_repo_name_spec(git_url@) == Err::<Seq<u8>, UrlError>(e),
        },
{
    proof {
        reveal_strlit(".git");
        reveal_strlit("git@");
    }
    let dot_git = lit(".git");
    let git_at = lit("git@");
    let clean = if ends_with(git_url, dot_git.as_slice()) {
        subvec(git_url, 0, git_url.len() - 4)
    } else {
        subvec(git_url, 0, git_url.len())
    };
    proof {
        assert(git_url@.subrange(0, git_url@.len() as int) =~= git_url@);
    }
    if starts_with(clean.as_slice(), git_at.as_slice()) {
        match rfind_byte(clean.as_slice(), 58) {
            None => {
                proof {
                    lemma_rfind_at(clean@, 58, -1);
                }
                Err(UrlError::InvalidSshUrl)
            },
            Some(k) => {
                proof {
                    lemma_rfind_at(clean@, 58, k as int);
                }
                let path = subvec(clean.as_slice(), k + 1, clean.len());
                proof {
                    assert(path@ =~= clean@.skip(rfind_spec(clean@, 58) + 1));
                }
                match file_name(path.as_slice()) {
                    Some(n) => Ok(n),
                    None => Err(UrlError::NoRepoName),
                }
            },
        }
    } else {
        match file_name(clean.as_slice()) {
            Some(n) => Ok(n),
            None => Err(UrlError::NoRepoName),
        }
    }
}

/// The digits of a decimal integer literal: an optional `+` sign dropped.
pub open spec fn pr_digits(s: Seq<u8>) -> Seq<u8> {
    if s.len() > 0 && s[0] == 43 {
        s.skip(1)
    } else {
        s
    }
}

/// A positive integer in decimal, optionally signed with `+`, that fits in a
/// `u64`.
pub open spec fn pr_number_spec(s: Seq<u8>) -> Option<u64> {
    let d = pr_digits(s);
    if d.len() > 0 && (forall|i: int| 0 <= i < d.len() ==> is_digit(d[i])) && 0 < dv(
        d,
        0,
        d.len() as int,
    ) <= u64::MAX {
        Some(dv(d, 0, d.len() as int) as u64)
    } else {
        None
    }
}

/// Parses and checks a pull-request number: digits only (an optional `+`
/// sign is tolerated, as integer parsing does), positive, within `u64`.
pub fn validate_pr_number(value: &[u8]) -> (r: Option<u64>)
    ensures
        r == pr_number_spec(value@),
{
    let from: usize = if value.len() > 0 && value[0] == 43 {
        1
    } else {
        0
    };
    let n = value.len();
    let end = digit_run(value, from);
    if end < n || from == n {
        proof {
            let sd = pr_digits(value@);
            assert(sd =~= value@.skip(from as int));
            if from < n {
                assert(!is_digit(value@[end as int]));
                assert(sd[end - from] == value@.skip(from as int)[end - from]);
                assert(sd[end - from] == value@[end as int]);
                assert(!(forall|i: int| 0 <= i < sd.len() ==> is_digit(sd[i]))) by {
                    assert(0 <= end - from < sd.len() && !is_digit(sd[end - from]));
                }
            } else {
                assert(sd.len() == 0);
            }
            assert(pr_number_spec(value@) is None);
        }
        return None;
    }
    proof {
        let d = value@.skip(from as int);
        assert forall|i: int| 0 <= i < d.len() implies is_digit(d[i]) by {
            assert(d[i] == value@[from + i]);
        }
    }
    match parse_digits(value, from, n) {
        None => {
            proof {
                let d = value@.skip(from as int);
                lemma_dv_shift(value@, from as int, n as int);
            }
            None
        },
        Some(v) => {
            proof {
                lemma_dv_shift(value@, from as int, n as int);
            }
            if v == 0 {
                None
            } else {
                Some(v)
            }
        },
    }
}

/// Digit values are independent of leading context: the value of
/// `s[i..len]` equals the value of the same digits re-indexed from zero.
proof fn lemma_dv_shift(s: Seq<u8>, i: int, j: int)
    requires
        0 <= i <= j <= s.len(),
    ensures
        dv(s, i, j) == dv(s.skip(i), 0, j - i),
    decreases j - i,
{
    if i < j {
        lemma_dv_shift(s, i, j - 1);
        assert(s.skip(i)[j - i - 1] == s[j - 1]);
    }
}

/// A character the version tail accepts: letters, digits, `_`, `.`.
pub open spec fn wordish(b: u8) -> bool {
    is_digit(b) || (65 <= b <= 90) || (97 <= b <= 122) || b == 95 || b == 46
}

/// `maj.min.patch` with optional `-tail` of wordish characters.
pub open spec fn semver_core(d: Seq<u8>) -> bool {
    let a = run_end(d, 0);
    &&& a > 0
    &&& a < d.len()
    &&& d[a] == 46
    &&& {
        let b = run_end(d, a + 1);
        &&& b > a + 1
        &&& b < d.len()
        &&& d[b] == 46
        &&& {
            let c = run_end(d, b + 1);
            &&& c > b + 1
            &&& (c == d.len() || (d[c] == 45 && c + 1 < d.len() && forall|j: int|
                c + 1 <= j < d.len() ==> wordish(d[j])))
        }
    }
}

/// A release version: optional `v`, then `maj.min.patch` with an optional
/// prerelease tail.
pub open spec fn valid_version_spec(s: Seq<u8>) -> bool {
    if s.len() > 0 && s[0] == 118 {
        semver_core(s.skip(1))
    } else {
        semver_core(s)
    }
}

fn wordish_byte(b: u8) -> (r: bool)
    ensures
        r == wordish(b),
{
    (48 <= b && b <= 57) || (65 <= b && b <= 90) || (97 <= b && b <= 122) || b == 95 || b == 46
}

fn semver_core_check(d: &[u8]) -> (r: bool)
    ensures
        r == semver_core(d@),
{
    let n = d.len();
    let a = digit_run(d, 0);
    if !(a > 0 && a < n && d[a] == 46) {
        return false;
    }
    let b = digit_run(d, a + 1);
    if !(b > a + 1 && b < n && d[b] == 46) {
        return false;
    }
    let c = digit_run(d, b + 1);
    if !(c > b + 1) {
        return false;
    }
    if c == n {
        return true;
    }
    if !(d[c] == 45 && c + 1 < n) {
        return false;
    }
    let mut j = c + 1;
    while j < n
        invariant
            c + 1 <= j <= n,
            n == d@.len(),
            c == run_end(d@, b + 1),
            b == run_end(d@, a + 1),
            a == run_end(d@, 0),
            a > 0 && a < n && d@[a as int] == 46,
            b > a + 1 && b < n && d@[b as int] == 46,
            c > b + 1 && c < n && d@[c as int] == 45 && c + 1 < n,
            forall|x: int| c + 1 <= x < j ==> wordish(d@[x]),
        decreases n - j,
    {
        if !wordish_byte(d[j]) {
            proof {
                assert(!semver_core(d@)) by {
                    if semver_core(d@) {
                        assert(wordish(d@[j as int]));
                    }
                }
            }
            return false;
        }
        j += 1;
    }
    true
}

/// Checks a release-version string against the `v?maj.min.patch[-tail]`
/// shape.
pub fn validate_version(value: &[u8]) -> (r: bool)
    ensures
        r == valid_version_spec(value@),
{
    if value.len() > 0 && value[0] == 118 {
        let d = subvec(value, 1, value.len());
        proof {
            assert(d@ =~= value@.skip(1));
        }
        semver_core_check(d.as_slice())
    } else {
        semver_core_check(value)
    }
}

/// Accepts a URL, returning it unchanged, exactly when `is_valid_git_url`
/// accepts it.
pub fn validate_git_url(value: &[u8]) -> (r: Option<Vec<u8>>)
    ensures
        match r {
            Some(v) => v@ == value@ && valid_git_url_spec(value@),
            None => !valid_git_url_spec(value@),
        },
{
    if is_valid_git_url(value) {
        Some(subvec(value, 0, value.len()))
    } else {
        None
    }
}

} // verus!
