//! Byte-string primitives shared by the parsing and validation modules.
//!
//! All text handled by the library lives in `Vec<u8>` / `&[u8]` values, whose
//! mathematical model is `Seq<u8>`. Fixed ASCII tokens are written as string
//! literals and turned into byte sequences through `lit` / `lit_bytes`.

use vstd::prelude::*;

verus! {

/// The byte sequence denoted by an ASCII string literal.
pub open spec fn lit_bytes(s: &str) -> Seq<u8> {
    Seq::new(s@.len(), |i: int| s@[i] as u8)
}

/// Copies the bytes of an ASCII literal into a vector.
pub fn lit(s: &str) -> (r: Vec<u8>)
    requires
        s.is_ascii(),
    ensures
        r@ == lit_bytes(s),
{
    proof {
        vstd::string::is_ascii_spec_bytes(s);
    }
    let r = s.as_bytes_vec();
    proof {
        assert(r@ =~= lit_bytes(s));
    }
    r
}

/// `p` is a prefix of `s`.
pub open spec fn starts_with_spec(s: Seq<u8>, p: Seq<u8>) -> bool {
    p.len() <= s.len() && s.subrange(0, p.len() as int) == p
}

pub fn starts_with(s: &[u8], p: &[u8]) -> (r: bool)
    ensures
        r == starts_with_spec(s@, p@),
{
    if p.len() > s.len() {
        return false;
    }
    let mut i: usize = 0;
    while i < p.len()
        invariant
            i <= p@.len() <= s@.len(),
            forall|j: int| 0 <= j < i ==> s@[j] == p@[j],
        decreases p@.len() - i,
    {
        if s[i] != p[i] {
            proof {
                assert(s@.subrange(0, p@.len() as int)[i as int] == s@[i as int]);
            }
            return false;
        }
        i += 1;
    }
    proof {
        assert(s@.subrange(0, p@.len() as int) =~= p@);
    }
    true
}

/// `p` is a suffix of `s`.
pub open spec fn ends_with_spec(s: Seq<u8>, p: Seq<u8>) -> bool {
    p.len() <= s.len() && s.subrange(s.len() - p.len(), s.len() as int) == p
}

pub fn ends_with(s: &[u8], p: &[u8]) -> (r: bool)
    ensures
        r == ends_with_spec(s@, p@),
{
    if p.len() > s.len() {
        return false;
    }
    let tail = vstd::slice::slice_subrange(s, s.len() - p.len(), s.len());
    eq_bytes(tail, p)
}

pub fn eq_bytes(a: &[u8], b: &[u8]) -> (r: bool)
    ensures
        r == (a@ == b@),
{
    if a.len() != b.len() {
        proof {
            assert(a@ != b@);
        }
        return false;
    }
    let r = starts_with(a, b);
    proof {
        if r {
            assert(a@.subrange(0, b@.len() as int) =~= a@);
        } else {
            assert(a@ != b@) by {
                if a@ == b@ {
                    assert(a@.subrange(0, b@.len() as int) =~= b@);
                }
            }
        }
    }
    r
}

/// Copies `s[i..j]` into a fresh vector.
pub fn subvec(s: &[u8], i: usize, j: usize) -> (r: Vec<u8>)
    requires
        0 <= i <= j <= s@.len(),
    ensures
        r@ == s@.subrange(i as int, j as int),
{
    vstd::slice::slice_to_vec(vstd::slice::slice_subrange(s, i, j))
}

/// Appends all of `src` onto `dst`.
pub fn push_all(dst: &mut Vec<u8>, src: &[u8])
    ensures
        final (dst)@ == old(dst)@ + src@,
{
    let mut i: usize = 0;
    while i < src.len()
        invariant
            i <= src@.len(),
            dst@ == old(dst)@ + src@.subrange(0, i as int),
        decreases src@.len() - i,
    {
        dst.push(src[i]);
        proof {
            assert(old(dst)@ + src@.subrange(0, i as int) + seq![src@[i as int]] =~= old(dst)@
                + src@.subrange(0, i + 1));
        }
        i += 1;
    }
    proof {
        assert(src@.subrange(0, src@.len() as int) =~= src@);
    }
}

/// The subsequence `p` occurs in `s` at offset `i`.
pub open spec fn has_sub_at(s: Seq<u8>, p: Seq<u8>, i: int) -> bool {
    0 <= i && i + p.len() <= s.len() && s.subrange(i, i + p.len()) == p
}

/// `p` occurs somewhere in `s`.
pub open spec fn contains_sub_spec(s: Seq<u8>, p: Seq<u8>) -> bool {
    exists|i: int| has_sub_at(s, p, i)
}

fn sub_at(s: &[u8], p: &[u8], i: usize) -> (r: bool)
    requires
        i + p@.len() <= s@.len(),
    ensures
        r == has_sub_at(s@, p@, i as int),
{
    let n = s.len();
    let piece = vstd::slice::slice_subrange(s, i, i + p.len());
    eq_bytes(piece, p)
}

/// Finds the first occurrence of `p` in `s`.
pub fn find_sub(s: &[u8], p: &[u8]) -> (r: Option<usize>)
    ensures
        match r {
            Some(i) => has_sub_at(s@, p@, i as int) && forall|j: int|
                0 <= j < i ==> !has_sub_at(s@, p@, j),
            None => forall|j: int| !has_sub_at(s@, p@, j),
        },
{
    if p.len() > s.len() {
        return None;
    }
    let last: usize = s.len() - p.len();
    let mut i: usize = 0;
    loop
        invariant
            last == s@.len() - p@.len(),
            p@.len() <= s@.len(),
            i <= last,
            forall|j: int| 0 <= j < i ==> !has_sub_at(s@, p@, j),
        decreases last - i,
    {
        if sub_at(s, p, i) {
            return Some(i);
        }
        if i == last {
            return None;
        }
        i += 1;
    }
}

pub fn contains_sub(s: &[u8], p: &[u8]) -> (r: bool)
    ensures
        r == contains_sub_spec(s@, p@),
{
    find_sub(s, p).is_some()
}

/// Finds the first occurrence of byte `c` in `s` at or after `from`.
pub fn find_byte(s: &[u8], c: u8, from: usize) -> (r: Option<usize>)
    requires
        from <= s@.len(),
    ensures
        match r {
            Some(i) => from <= i < s@.len() && s@[i as int] == c && forall|j: int|
                from <= j < i ==> s@[j] != c,
            None => forall|j: int| from <= j < s@.len() ==> s@[j] != c,
        },
{
    let mut i: usize = from;
    while i < s.len()
        invariant
            from <= i <= s@.len(),
            forall|j: int| from <= j < i ==> s@[j] != c,
        decreases s@.len() - i,
    {
        if s[i] == c {
            return Some(i);
        }
        i += 1;
    }
    None
}

/// Finds the last occurrence of byte `c` in `s`.
pub fn rfind_byte(s: &[u8], c: u8) -> (r: Option<usize>)
    ensures
        match r {
            Some(i) => i < s@.len() && s@[i as int] == c && forall|j: int|
                i < j < s@.len() ==> s@[j] != c,
            None => forall|j: int| 0 <= j < s@.len() ==> s@[j] != c,
        },
{
    let mut i: usize = s.len();
    while i > 0
        invariant
            i <= s@.len(),
            forall|j: int| i <= j < s@.len() ==> s@[j] != c,
        decreases i,
    {
        i -= 1;
        if s[i] == c {
            return Some(i);
        }
    }
    None
}

/// First index at or after `i` holding byte `c`, or `s.len()`.
pub open spec fn idx_from(s: Seq<u8>, c: u8, i: int) -> int
    decreases s.len() - i,
{
    if !(0 <= i < s.len()) {
        s.len() as int
    } else if s[i] == c {
        i
    } else {
        idx_from(s, c, i + 1)
    }
}

pub proof fn lemma_idx_from(s: Seq<u8>, c: u8, from: int, j: int)
    requires
        0 <= from <= j <= s.len(),
        forall|x: int| from <= x < j ==> s[x] != c,
        j < s.len() ==> s[j] == c,
    ensures
        idx_from(s, c, from) == if j < s.len() {
            j
        } else {
            s.len() as int
        },
    decreases j - from,
{
    if from < j {
        lemma_idx_from(s, c, from + 1, j);
    }
}

pub proof fn lemma_idx_from_props(s: Seq<u8>, c: u8, from: int)
    requires
        0 <= from <= s.len(),
    ensures
        from <= idx_from(s, c, from) <= s.len(),
        idx_from(s, c, from) < s.len() ==> s[idx_from(s, c, from)] == c,
        forall|x: int| from <= x < idx_from(s, c, from) ==> s[x] != c,
    decreases s.len() - from,
{
    if from < s.len() && s[from] != c {
        lemma_idx_from_props(s, c, from + 1);
    }
}

/// `s` split on newline bytes; the separators are dropped.
pub open spec fn split_nl(s: Seq<u8>) -> Seq<Seq<u8>>
    decreases s.len(),
    via split_nl_decreases
{
    let i = idx_from(s, 10, 0);
    if i >= s.len() {
        seq![s]
    } else {
        seq![s.subrange(0, i)] + split_nl(s.skip(i + 1))
    }
}

#[via_fn]
proof fn split_nl_decreases(s: Seq<u8>) {
    lemma_idx_from_props(s, 10, 0);
}

/// Splits on newline bytes.
pub fn split_lines(s: &[u8]) -> (r: Vec<Vec<u8>>)
    ensures
        r@.map_values(|l: Vec<u8>| l@) == split_nl(s@),
{
    let n = s.len();
    let mut r: Vec<Vec<u8>> = Vec::new();
    let mut pos: usize = 0;
    proof {
        assert(s@.skip(0) =~= s@);
        assert(r@.map_values(|l: Vec<u8>| l@) =~= Seq::<Seq<u8>>::empty());
        assert(Seq::<Seq<u8>>::empty() + split_nl(s@) =~= split_nl(s@));
    }
    loop
        invariant
            pos <= n == s@.len(),
            split_nl(s@) =~= r@.map_values(|l: Vec<u8>| l@) + split_nl(s@.skip(pos as int)),
        decreases s@.len() - pos,
    {
        let ghost ss = s@.skip(pos as int);
        let ghost rmap0 = r@.map_values(|l: Vec<u8>| l@);
        match find_byte(s, 10, pos) {
            Some(i) => {
                proof {
                    assert forall|x: int| 0 <= x < i - pos implies ss[x] != 10 by {
                        assert(ss[x] == s@[pos + x]);
                    }
                    assert(ss[i - pos] == s@[i as int]);
                    lemma_idx_from(ss, 10, 0, i - pos);
                }
                let line = subvec(s, pos, i);
                proof {
                    assert(ss.subrange(0, i - pos) =~= s@.subrange(pos as int, i as int));
                    assert(ss.skip(i - pos + 1) =~= s@.skip(i + 1));
                }
                r.push(line);
                proof {
                    assert(r@.map_values(|l: Vec<u8>| l@) =~= rmap0.push(
                        s@.subrange(pos as int, i as int),
                    ));
                    assert(rmap0 + split_nl(ss) =~= rmap0.push(
                        s@.subrange(pos as int, i as int),
                    ) + split_nl(s@.skip(i + 1)));
                }
                pos = i + 1;
            },
            None => {
                proof {
                    assert forall|x: int| 0 <= x < ss.len() implies ss[x] != 10 by {
                        assert(ss[x] == s@[pos + x]);
                    }
                    lemma_idx_from(ss, 10, 0, ss.len() as int);
                }
                let line = subvec(s, pos, s.len());
                proof {
                    assert(line@ =~= ss);
                    assert(split_nl(ss) =~= seq![ss]);
                }
                r.push(line);
                proof {
                    assert(r@.map_values(|l: Vec<u8>| l@) =~= rmap0.push(ss));
                    assert(rmap0.push(ss) =~= rmap0 + seq![ss]);
                }
                return r;
            },
        }
    }
}

/// ASCII whitespace, the subset the library's trimming recognizes.
pub open spec fn is_ws(b: u8) -> bool {
    b == 32 || b == 9 || b == 10 || b == 13
}

pub fn ws_byte(b: u8) -> (r: bool)
    ensures
        r == is_ws(b),
{
    b == 32 || b == 9 || b == 10 || b == 13
}

/// `s` with leading whitespace removed.
pub open spec fn trim_start_seq(s: Seq<u8>) -> Seq<u8>
    decreases s.len(),
{
    if s.len() > 0 && is_ws(s[0]) {
        trim_start_seq(s.drop_first())
    } else {
        s
    }
}

/// `s` with trailing bytes satisfying `drop it` removed; parameterized by a
/// single byte so the same definition serves whitespace-free cases.
pub open spec fn trim_end_seq(s: Seq<u8>) -> Seq<u8>
    decreases s.len(),
{
    if s.len() > 0 && is_ws(s.last()) {
        trim_end_seq(s.drop_last())
    } else {
        s
    }
}

/// `s` with leading and trailing whitespace removed.
pub open spec fn trim_seq(s: Seq<u8>) -> Seq<u8> {
    trim_end_seq(trim_start_seq(s))
}

proof fn lemma_trim_end_at(s: Seq<u8>, k: int)
    requires
        0 <= k <= s.len(),
        forall|j: int| k <= j < s.len() ==> is_ws(s[j]),
        k > 0 ==> !is_ws(s[k - 1]),
    ensures
        trim_end_seq(s) == s.subrange(0, k),
    decreases s.len() - k,
{
    if k == s.len() {
        if s.len() > 0 && is_ws(s.last()) {
            lemma_trim_end_at(s.drop_last(), k - 1);
        } else {
            assert(s =~= s.subrange(0, s.len() as int));
        }
    } else {
        assert(is_ws(s.last()));
        lemma_trim_end_at(s.drop_last(), k);
        assert(s.drop_last().subrange(0, k) =~= s.subrange(0, k));
    }
}

/// Removes leading and trailing ASCII whitespace.
pub fn trim(s: &[u8]) -> (r: Vec<u8>)
    ensures
        r@ == trim_seq(s@),
{
    let mut a: usize = 0;
    while a < s.len() && ws_byte(s[a])
        invariant
            a <= s@.len(),
            forall|j: int| 0 <= j < a ==> is_ws(s@[j]),
        decreases s@.len() - a,
    {
        a += 1;
    }
    proof {
        lemma_trim_start_at(s@, a as int);
    }
    let mut b: usize = s.len();
    while b > a && ws_byte(s[b - 1])
        invariant
            a <= b <= s@.len(),
            forall|j: int| b <= j < s@.len() ==> is_ws(s@[j]),
        decreases b,
    {
        b -= 1;
    }
    let r = subvec(s, a, b);
    proof {
        let st = s@.subrange(a as int, s@.len() as int);
        lemma_trim_end_at(st, b - a);
        assert(st.subrange(0, b - a) =~= s@.subrange(a as int, b as int));
        if b == a && a < s@.len() {
            assert(!is_ws(s@[a as int]));
            assert(is_ws(st[0]));
        }
    }
    r
}

pub proof fn lemma_trim_start_at(s: Seq<u8>, k: int)
    requires
        0 <= k <= s.len(),
        forall|j: int| 0 <= j < k ==> is_ws(s[j]),
        k < s.len() ==> !is_ws(s[k]),
    ensures
        trim_start_seq(s) == s.subrange(k, s.len() as int),
    decreases k,
{
    if k == 0 {
        assert(s =~= s.subrange(0, s.len() as int));
    } else {
        lemma_trim_start_at(s.drop_first(), k - 1);
        assert(s.drop_first().subrange(k - 1, s.len() - 1) =~= s.subrange(k, s.len() as int));
    }
}

/// Removes leading ASCII whitespace only.
pub fn trim_start(s: &[u8]) -> (r: Vec<u8>)
    ensures
        r@ == trim_start_seq(s@),
{
    let mut a: usize = 0;
    while a < s.len() && ws_byte(s[a])
        invariant
            a <= s@.len(),
            forall|j: int| 0 <= j < a ==> is_ws(s@[j]),
        decreases s@.len() - a,
    {
        a += 1;
    }
    proof {
        lemma_trim_start_at(s@, a as int);
    }
    subvec(s, a, s.len())
}

/// `s` with leading occurrences of byte `c` removed.
pub open spec fn trim_start_byte_seq(s: Seq<u8>, c: u8) -> Seq<u8>
    decreases s.len(),
{
    if s.len() > 0 && s[0] == c {
        trim_start_byte_seq(s.drop_first(), c)
    } else {
        s
    }
}

pub proof fn lemma_trim_start_byte_at(s: Seq<u8>, c: u8, k: int)
    requires
        0 <= k <= s.len(),
        forall|j: int| 0 <= j < k ==> s[j] == c,
        k < s.len() ==> s[k] != c,
    ensures
        trim_start_byte_seq(s, c) == s.subrange(k, s.len() as int),
    decreases k,
{
    if k == 0 {
        assert(s =~= s.subrange(0, s.len() as int));
    } else {
        lemma_trim_start_byte_at(s.drop_first(), c, k - 1);
        assert(s.drop_first().subrange(k - 1, s.len() - 1) =~= s.subrange(k, s.len() as int));
    }
}

/// Removes leading occurrences of byte `c`.
pub fn trim_start_byte(s: &[u8], c: u8) -> (r: Vec<u8>)
    ensures
        r@ == trim_start_byte_seq(s@, c),
{
    let mut a: usize = 0;
    while a < s.len() && s[a] == c
        invariant
            a <= s@.len(),
            forall|j: int| 0 <= j < a ==> s@[j] == c,
        decreases s@.len() - a,
    {
        a += 1;
    }
    proof {
        lemma_trim_start_byte_at(s@, c, a as int);
    }
    subvec(s, a, s.len())
}

/// The decimal digits of `n`.
pub open spec fn dec_spec(n: nat) -> Seq<u8>
    decreases n,
{
    if n < 10 {
        seq![(48 + n) as u8]
    } else {
        dec_spec(n / 10).push((48 + n % 10) as u8)
    }
}

/// Writes `n` in decimal.
pub fn u64_to_dec(n: u64) -> (r: Vec<u8>)
    ensures
        r@ == dec_spec(n as nat),
    decreases n,
{
    if n < 10 {
        let mut r: Vec<u8> = Vec::new();
        r.push(48 + n as u8);
        proof {
            assert(r@ =~= dec_spec(n as nat));
        }
        r
    } else {
        let mut r = u64_to_dec(n / 10);
        r.push(48 + (n % 10) as u8);
        r
    }
}

/// `s` with trailing occurrences of byte `c` removed.
pub open spec fn trim_end_byte_seq(s: Seq<u8>, c: u8) -> Seq<u8>
    decreases s.len(),
{
    if s.len() > 0 && s.last() == c {
        trim_end_byte_seq(s.drop_last(), c)
    } else {
        s
    }
}

proof fn lemma_trim_end_byte_at(s: Seq<u8>, c: u8, k: int)
    requires
        0 <= k <= s.len(),
        forall|j: int| k <= j < s.len() ==> s[j] == c,
        k > 0 ==> s[k - 1] != c,
    ensures
        trim_end_byte_seq(s, c) == s.subrange(0, k),
    decreases s.len() - k,
{
    if k == s.len() {
        if s.len() > 0 && s.last() == c {
            lemma_trim_end_byte_at(s.drop_last(), c, k - 1);
        } else {
            assert(s =~= s.subrange(0, s.len() as int));
        }
    } else {
        lemma_trim_end_byte_at(s.drop_last(), c, k);
        assert(s.drop_last().subrange(0, k) =~= s.subrange(0, k));
    }
}

/// Removes trailing occurrences of byte `c`.
pub fn trim_end_byte(s: &[u8], c: u8) -> (r: Vec<u8>)
    ensures
        r@ == trim_end_byte_seq(s@, c),
{
    let mut b: usize = s.len();
    while b > 0 && s[b - 1] == c
        invariant
            b <= s@.len(),
            forall|j: int| b <= j < s@.len() ==> s@[j] == c,
        decreases b,
    {
        b -= 1;
    }
    let r = subvec(s, 0, b);
    proof {
        lemma_trim_end_byte_at(s@, c, b as int);
    }
    r
}

/// ASCII decimal digit.
pub open spec fn is_digit(b: u8) -> bool {
    48 <= b <= 57
}

pub fn digit_byte(b: u8) -> (r: bool)
    ensures
        r == is_digit(b),
{
    48 <= b && b <= 57
}

/// Uppercases one ASCII byte.
pub open spec fn upper_byte(b: u8) -> u8 {
    if 97 <= b <= 122 {
        (b - 32) as u8
    } else {
        b
    }
}

/// `s` uppercased byte by byte.
pub open spec fn upper_seq(s: Seq<u8>) -> Seq<u8> {
    s.map_values(|b: u8| upper_byte(b))
}

/// Value of the decimal digit string `s[i..j]`.
pub open spec fn dv(s: Seq<u8>, i: int, j: int) -> int
    decreases j - i,
{
    if i < j {
        dv(s, i, j - 1) * 10 + (s[j - 1] - 48)
    } else {
        0
    }
}

/// End of the maximal run of digits starting at `i`.
pub open spec fn run_end(s: Seq<u8>, i: int) -> int
    decreases s.len() - i,
{
    if 0 <= i < s.len() && is_digit(s[i]) {
        run_end(s, i + 1)
    } else {
        i
    }
}

/// The maximal digit run starting at `i`: its bounds and contents.
pub proof fn lemma_run_end(s: Seq<u8>, i: int)
    requires
        0 <= i <= s.len(),
    ensures
        i <= run_end(s, i) <= s.len(),
        forall|x: int| i <= x < run_end(s, i) ==> is_digit(s[x]),
        run_end(s, i) < s.len() ==> !is_digit(s[run_end(s, i)]),
    decreases s.len() - i,
{
    if 0 <= i < s.len() && is_digit(s[i]) {
        lemma_run_end(s, i + 1);
    }
}

pub proof fn lemma_run_end_at(s: Seq<u8>, i: int, j: int)
    requires
        0 <= i <= j <= s.len(),
        forall|x: int| i <= x < j ==> is_digit(s[x]),
        j < s.len() ==> !is_digit(s[j]),
    ensures
        run_end(s, i) == j,
    decreases j - i,
{
    if i < j {
        lemma_run_end_at(s, i + 1, j);
    }
}

/// End of the digit run starting at `i`, computed executably.
pub fn digit_run(s: &[u8], i: usize) -> (r: usize)
    requires
        i <= s@.len(),
    ensures
        r == run_end(s@, i as int),
        i <= r <= s@.len(),
        forall|x: int| i <= x < r ==> is_digit(s@[x]),
        r < s@.len() ==> !is_digit(s@[r as int]),
{
    let mut j = i;
    while j < s.len() && digit_byte(s[j])
        invariant
            i <= j <= s@.len(),
            forall|x: int| i <= x < j ==> is_digit(s@[x]),
        decreases s@.len() - j,
    {
        j += 1;
    }
    proof {
        lemma_run_end_at(s@, i as int, j as int);
    }
    j
}

pub proof fn lemma_dv_nonneg(s: Seq<u8>, i: int, j: int)
    requires
        i <= j,
        forall|x: int| i <= x < j ==> is_digit(s[x]),
    ensures
        0 <= dv(s, i, j),
    decreases j - i,
{
    if i < j {
        lemma_dv_nonneg(s, i, j - 1);
    }
}

pub proof fn lemma_dv_mono(s: Seq<u8>, i: int, k: int, j: int)
    requires
        i <= k <= j,
        forall|x: int| i <= x < j ==> is_digit(s[x]),
    ensures
        dv(s, i, k) <= dv(s, i, j),
    decreases j - k,
{
    if k < j {
        lemma_dv_mono(s, i, k, j - 1);
        lemma_dv_nonneg(s, i, j - 1);
    }
}

/// Parses the digit string `s[i..j]`; `None` means the value exceeds `u64`.
pub fn parse_digits(s: &[u8], i: usize, j: usize) -> (r: Option<u64>)
    requires
        i <= j <= s@.len(),
        forall|x: int| i <= x < j ==> is_digit(s@[x]),
    ensures
        match r {
            Some(v) => v == dv(s@, i as int, j as int),
            None => dv(s@, i as int, j as int) > u64::MAX,
        },
{
    let mut k = i;
    let mut acc: u64 = 0;
    while k < j
        invariant
            i <= k <= j <= s@.len(),
            forall|x: int| i <= x < j ==> is_digit(s@[x]),
            acc == dv(s@, i as int, k as int),
        decreases j - k,
    {
        let d = s[k] - 48;
        let next: u128 = acc as u128 * 10 + d as u128;
        if next > u64::MAX as u128 {
            proof {
                lemma_dv_mono(s@, i as int, k as int + 1, j as int);
            }
            return None;
        }
        acc = next as u64;
        k += 1;
    }
    Some(acc)
}

/// Uppercases ASCII letters; other bytes pass through.
pub fn to_upper(s: &[u8]) -> (r: Vec<u8>)
    ensures
        r@ == upper_seq(s@),
{
    let mut r: Vec<u8> = Vec::new();
    let mut i: usize = 0;
    while i < s.len()
        invariant
            i <= s@.len(),
            r@ == upper_seq(s@.subrange(0, i as int)),
        decreases s@.len() - i,
    {
        let b = s[i];
        if 97 <= b && b <= 122 {
            r.push(b - 32);
        } else {
            r.push(b);
        }
        proof {
            assert(upper_seq(s@.subrange(0, i as int)).push(upper_byte(s@[i as int])) =~= upper_seq(
                s@.subrange(0, i + 1),
            ));
        }
        i += 1;
    }
    proof {
        assert(s@.subrange(0, s@.len() as int) =~= s@);
    }
    r
}

} // verus!
