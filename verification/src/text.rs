//! Byte-level text scanning over a binary buffer: line terminators,
//! whitespace, pattern matching and decimal parsing, with exact
//! specifications for each executable helper.

use vstd::prelude::*;

verus! {

/// A header line terminator byte: line feed or carriage return.
pub open spec fn is_term(b: u8) -> bool {
    b == 10 || b == 13
}

/// ASCII whitespace as it can appear inside a header line.
pub open spec fn is_ws(b: u8) -> bool {
    b == 32 || (9 <= b && b <= 13)
}

/// An ASCII decimal digit.
pub open spec fn is_digit(b: u8) -> bool {
    48 <= b && b <= 57
}

/// Index of the first line terminator at or after `c`, or `s.len()` if none.
pub open spec fn find_term(s: Seq<u8>, c: int) -> int
    decreases s.len() - c,
{
    if c < 0 || c >= s.len() {
        s.len() as int
    } else if is_term(s[c]) {
        c
    } else {
        find_term(s, c + 1)
    }
}

/// Index of the first non-terminator byte at or after `c`, or `s.len()`.
pub open spec fn skip_terms(s: Seq<u8>, c: int) -> int
    decreases s.len() - c,
{
    if c < 0 || c >= s.len() {
        s.len() as int
    } else if is_term(s[c]) {
        skip_terms(s, c + 1)
    } else {
        c
    }
}

pub proof fn lemma_find_term_bounds(s: Seq<u8>, c: int)
    requires
        0 <= c <= s.len(),
    ensures
        c <= find_term(s, c) <= s.len(),
        forall|k: int| c <= k < find_term(s, c) ==> !is_term(s[k]),
        find_term(s, c) < s.len() ==> is_term(s[find_term(s, c)]),
    decreases s.len() - c,
{
    if c < s.len() && !is_term(s[c]) {
        lemma_find_term_bounds(s, c + 1);
    }
}

pub proof fn lemma_skip_terms_bounds(s: Seq<u8>, c: int)
    requires
        0 <= c <= s.len(),
    ensures
        c <= skip_terms(s, c) <= s.len(),
        forall|k: int| c <= k < skip_terms(s, c) ==> is_term(s[k]),
        skip_terms(s, c) < s.len() ==> !is_term(s[skip_terms(s, c)]),
        c < s.len() && is_term(s[c]) ==> skip_terms(s, c) >= c + 1,
    decreases s.len() - c,
{
    if c < s.len() && is_term(s[c]) {
        lemma_skip_terms_bounds(s, c + 1);
    }
}

/// First terminator position, computed over the buffer.
pub fn find_term_at(s: &Vec<u8>, c: usize) -> (r: usize)
    requires
        c <= s@.len(),
    ensures
        r as int == find_term(s@, c as int),
        c <= r <= s@.len(),
{
    proof {
        lemma_find_term_bounds(s@, c as int);
    }
    let mut i: usize = c;
    while i < s.len() && !(s[i] == 10 || s[i] == 13)
        invariant
            c <= i <= s@.len(),
            find_term(s@, c as int) == find_term(s@, i as int),
        decreases s@.len() - i,
    {
        i = i + 1;
    }
    i
}

/// First non-terminator position, computed over the buffer.
pub fn skip_terms_at(s: &Vec<u8>, c: usize) -> (r: usize)
    requires
        c <= s@.len(),
    ensures
        r as int == skip_terms(s@, c as int),
        c <= r <= s@.len(),
{
    proof {
        lemma_skip_terms_bounds(s@, c as int);
    }
    let mut i: usize = c;
    while i < s.len() && (s[i] == 10 || s[i] == 13)
        invariant
            c <= i <= s@.len(),
            skip_terms(s@, c as int) == skip_terms(s@, i as int),
        decreases s@.len() - i,
    {
        i = i + 1;
    }
    i
}

/// Copy of the byte range `[lo, hi)` of `s`.
pub fn copy_range(s: &Vec<u8>, lo: usize, hi: usize) -> (r: Vec<u8>)
    requires
        lo <= hi <= s@.len(),
    ensures
        r@ == s@.subrange(lo as int, hi as int),
{
    let mut r: Vec<u8> = Vec::new();
    let mut i: usize = lo;
    while i < hi
        invariant
            lo <= i <= hi <= s@.len(),
            r@ == s@.subrange(lo as int, i as int),
        decreases hi - i,
    {
        r.push(s[i]);
        proof {
            assert(s@.subrange(lo as int, i + 1) =~= s@.subrange(lo as int, i as int).push(
                s@[i as int],
            ));
        }
        i = i + 1;
    }
    r
}

/// Append a copy of `src` to `dst`.
pub fn extend_bytes(dst: &mut Vec<u8>, src: &Vec<u8>)
    ensures
        final(dst)@ == old(dst)@ + src@,
{
    let mut i: usize = 0;
    while i < src.len()
        invariant
            i <= src@.len(),
            dst@ == old(dst)@ + src@.subrange(0, i as int),
        decreases src@.len() - i,
    {
        dst.push(src[i]);
        proof {
            assert(old(dst)@ + src@.subrange(0, i + 1) =~= (old(dst)@ + src@.subrange(
                0,
                i as int,
            )).push(src@[i as int]));
        }
        i = i + 1;
    }
    proof {
        assert(src@.subrange(0, src@.len() as int) =~= src@);
    }
}

/// Value of a sequence of ASCII digits read as a decimal number.
pub open spec fn dec_val(t: Seq<u8>) -> int
    decreases t.len(),
{
    if t.len() == 0 {
        0
    } else {
        dec_val(t.drop_last()) * 10 + t.last() - 48
    }
}

pub open spec fn all_digits(t: Seq<u8>) -> bool {
    forall|i: int| 0 <= i < t.len() ==> is_digit(t[i])
}

/// A token that `usize` parsing accepts: nonempty, digits only, in range.
pub open spec fn valid_count(t: Seq<u8>) -> bool {
    t.len() >= 1 && all_digits(t) && dec_val(t) <= usize::MAX
}

/// `line` with any trailing whitespace removed.
pub open spec fn trim_trailing_ws(t: Seq<u8>) -> Seq<u8>
    decreases t.len(),
{
    if t.len() == 0 {
        t
    } else if is_ws(t.last()) {
        trim_trailing_ws(t.drop_last())
    } else {
        t
    }
}

/// Start index of the final whitespace-delimited token of `t`.
pub open spec fn token_start(t: Seq<u8>) -> int
    decreases t.len(),
{
    if t.len() == 0 {
        0
    } else if is_ws(t.last()) {
        t.len() as int
    } else {
        token_start(t.drop_last())
    }
}

/// The last whitespace-delimited token of `line` (empty if none).
pub open spec fn last_token(line: Seq<u8>) -> Seq<u8> {
    let t = trim_trailing_ws(line);
    t.subrange(token_start(t), t.len() as int)
}

pub proof fn lemma_dec_val_nonneg(t: Seq<u8>)
    requires
        all_digits(t),
    ensures
        dec_val(t) >= 0,
    decreases t.len(),
{
    if t.len() > 0 {
        assert(all_digits(t.drop_last()));
        lemma_dec_val_nonneg(t.drop_last());
    }
}

/// The last whitespace-delimited token of `line`, parsed as a decimal
/// `usize`: `Some` exactly when the token is nonempty, all digits, and its
/// value fits.
#[verifier::rlimit(60)]
pub fn parse_count(line: &Vec<u8>) -> (r: Option<usize>)
    ensures
        valid_count(last_token(line@)) ==> r == Some(dec_val(last_token(line@)) as usize),
        !valid_count(last_token(line@)) ==> r is None,
{
    let n = line.len();
    // Strip trailing whitespace: afterwards line@.take(e) == trim_trailing_ws(line@).
    let mut e: usize = n;
    proof {
        assert(line@.take(n as int) =~= line@);
    }
    while e > 0 && (line[e - 1] == 32 || (9 <= line[e - 1] && line[e - 1] <= 13))
        invariant
            e <= n,
            n == line@.len(),
            trim_trailing_ws(line@) == trim_trailing_ws(line@.take(e as int)),
        decreases e,
    {
        proof {
            assert(line@.take(e as int).drop_last() =~= line@.take(e - 1));
        }
        e = e - 1;
    }
    proof {
        assert(trim_trailing_ws(line@.take(e as int)) == line@.take(e as int));
    }
    let ghost trimmed = line@.take(e as int);
    // Scan back over the token: afterwards s0 == token_start(trimmed).
    let mut s0: usize = e;
    while s0 > 0 && !(line[s0 - 1] == 32 || (9 <= line[s0 - 1] && line[s0 - 1] <= 13))
        invariant
            s0 <= e <= n,
            n == line@.len(),
            token_start(trimmed) == token_start(line@.take(s0 as int)),
            trimmed == line@.take(e as int),
            forall|t: int| s0 <= t < e ==> !is_ws(line@[t]),
        decreases s0,
    {
        proof {
            assert(line@.take(s0 as int).drop_last() =~= line@.take(s0 - 1));
        }
        s0 = s0 - 1;
    }
    proof {
        if s0 > 0 {
            assert(line@.take(s0 as int).last() == line@[s0 - 1]);
        }
        assert(token_start(trimmed) == s0 as int);
        assert(last_token(line@) =~= line@.subrange(s0 as int, e as int));
    }
    let ghost tok = line@.subrange(s0 as int, e as int);
    if s0 == e {
        return None;
    }
    // Parse the digits of tok left to right, rejecting overflow exactly.
    let mut v: usize = 0;
    let mut k: usize = s0;
    proof {
        assert(tok.subrange(0, 0) =~= Seq::<u8>::empty());
    }
    while k < e
        invariant
            s0 <= k <= e <= n,
            n == line@.len(),
            tok == line@.subrange(s0 as int, e as int),
            tok == last_token(line@),
            all_digits(tok.subrange(0, k - s0)),
            v == dec_val(tok.subrange(0, k - s0)),
        decreases e - k,
    {
        let b = line[k];
        proof {
            assert(tok[k - s0] == line@[k as int]);
            assert(tok.subrange(0, k - s0 + 1).drop_last() =~= tok.subrange(0, k - s0));
        }
        if !(48 <= b && b <= 57) {
            proof {
                assert(0 <= k - s0 < tok.len() && !is_digit(tok[k - s0]));
                assert(!all_digits(tok));
            }
            return None;
        }
        let d = (b - 48) as usize;
        proof {
            vstd::arithmetic::div_mod::lemma_fundamental_div_mod(usize::MAX as int, 10);
            lemma_dec_val_nonneg(tok.subrange(0, k - s0));
            assert(dec_val(tok.subrange(0, k - s0 + 1)) == v * 10 + d);
        }
        if v > usize::MAX / 10 || (v == usize::MAX / 10 && d > usize::MAX % 10) {
            proof {
                // Either a later byte is no digit, or the full value exceeds
                // the prefix value, which already exceeds usize::MAX.
                if valid_count(tok) {
                    lemma_dec_val_monotone(tok, k - s0 + 1);
                    assert(v * 10 + d > usize::MAX);
                }
            }
            return None;
        }
        v = v * 10 + d;
        k = k + 1;
    }
    proof {
        assert(tok.subrange(0, e - s0) =~= tok);
    }
    Some(v)
}

/// Each digit prefix of a digit string is worth no more than the whole.
proof fn lemma_dec_val_monotone(t: Seq<u8>, m: int)
    requires
        0 <= m <= t.len(),
        all_digits(t),
    ensures
        dec_val(t.subrange(0, m)) <= dec_val(t),
    decreases t.len() - m,
{
    if m == t.len() {
        assert(t.subrange(0, t.len() as int) =~= t);
    }
    if m < t.len() {
        lemma_dec_val_monotone(t, m + 1);
        let p = t.subrange(0, m);
        let q = t.subrange(0, m + 1);
        assert(q.drop_last() =~= p);
        assert(all_digits(p));
        lemma_dec_val_nonneg(p);
        assert(is_digit(t[m]));
        assert(q.last() == t[m]);
        assert(dec_val(q) == dec_val(p) * 10 + q.last() - 48);
        assert(dec_val(p) * 10 >= dec_val(p)) by (nonlinear_arith)
            requires
                dec_val(p) >= 0,
        ;
        assert(dec_val(p) <= dec_val(q));
    }
}

/// `p` occurs in `s` at position `i`.
pub open spec fn match_at(s: Seq<u8>, p: Seq<u8>, i: int) -> bool {
    0 <= i && i + p.len() <= s.len() && s.subrange(i, i + p.len()) == p
}

/// `s` starts with `p`.
pub open spec fn starts_with_pat(s: Seq<u8>, p: Seq<u8>) -> bool {
    match_at(s, p, 0)
}

/// `s` ends with `p`.
pub open spec fn ends_with_pat(s: Seq<u8>, p: Seq<u8>) -> bool {
    p.len() <= s.len() && match_at(s, p, s.len() - p.len())
}

/// `p` occurs somewhere in `s`.
pub open spec fn has_pat(s: Seq<u8>, p: Seq<u8>) -> bool {
    exists|i: int| match_at(s, p, i)
}

/// Byte-wise comparison of `s[start..start + p.len()]` against `p`.
pub fn bytes_match_at(s: &Vec<u8>, start: usize, p: &Vec<u8>) -> (r: bool)
    requires
        start + p@.len() <= s@.len(),
    ensures
        r == match_at(s@, p@, start as int),
{
    let n = s.len();
    let mut k: usize = 0;
    while k < p.len()
        invariant
            k <= p@.len(),
            start + p@.len() <= n,
            n == s@.len(),
            forall|t: int| 0 <= t < k ==> s@[start + t] == p@[t],
        decreases p@.len() - k,
    {
        if s[start + k] != p[k] {
            proof {
                assert(s@.subrange(start as int, start + p@.len())[k as int] == s@[start + k]);
            }
            return false;
        }
        k = k + 1;
    }
    proof {
        assert(s@.subrange(start as int, start + p@.len()) =~= p@);
    }
    true
}

/// Whole-sequence equality of two byte vectors.
pub fn bytes_eq(a: &Vec<u8>, b: &Vec<u8>) -> (r: bool)
    ensures
        r == (a@ == b@),
{
    if a.len() != b.len() {
        return false;
    }
    let r = bytes_match_at(a, 0, b);
    proof {
        assert(a@.subrange(0, b@.len() as int) =~= a@);
    }
    r
}

/// Does `s` start with `p`?
pub fn bytes_starts_with(s: &Vec<u8>, p: &Vec<u8>) -> (r: bool)
    ensures
        r == starts_with_pat(s@, p@),
{
    if p.len() > s.len() {
        return false;
    }
    bytes_match_at(s, 0, p)
}

/// Does `s` end with `p`?
pub fn bytes_ends_with(s: &Vec<u8>, p: &Vec<u8>) -> (r: bool)
    ensures
        r == ends_with_pat(s@, p@),
{
    if p.len() > s.len() {
        return false;
    }
    bytes_match_at(s, s.len() - p.len(), p)
}

/// Does `p` occur anywhere in `s`?
pub fn bytes_contains(s: &Vec<u8>, p: &Vec<u8>) -> (r: bool)
    ensures
        r == has_pat(s@, p@),
{
    if p.len() > s.len() {
        proof {
            assert(forall|i: int| !match_at(s@, p@, i));
        }
        return false;
    }
    if p.len() == 0 {
        proof {
            assert(s@.subrange(0, 0) =~= p@);
            assert(match_at(s@, p@, 0));
        }
        return true;
    }
    let n = s.len();
    let last = s.len() - p.len();
    let mut i: usize = 0;
    while i <= last
        invariant
            i <= last + 1,
            last + p@.len() == n,
            n == s@.len(),
            p@.len() >= 1,
            forall|t: int| 0 <= t < i ==> !match_at(s@, p@, t),
        decreases last + 1 - i,
    {
        if bytes_match_at(s, i, p) {
            proof {
                assert(match_at(s@, p@, i as int));
            }
            return true;
        }
        i = i + 1;
    }
    proof {
        assert(forall|t: int| t > last ==> !match_at(s@, p@, t));
    }
    false
}

} // verus!
