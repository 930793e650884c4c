//! The merge writer: rewrite the header template with the new record count
//! and concatenate the kept raw records of each input, in original order,
//! input 1 before input 2.

use vstd::prelude::*;
use crate::text::{copy_range, extend_bytes, starts_with_pat, bytes_starts_with};
use crate::schema::pat_element_vertex;
use crate::select::all_indices;

verus! {

/// Decimal digits of `n`, most significant first.
pub open spec fn dec_digits(n: int) -> Seq<u8>
    recommends
        n >= 0,
    decreases n,
{
    if n < 10 {
        seq![(48 + n) as u8]
    } else {
        dec_digits(n / 10).push((48 + n % 10) as u8)
    }
}

/// Render `n` in decimal.
pub fn decimal_bytes(n: usize) -> (r: Vec<u8>)
    ensures
        r@ == dec_digits(n as int),
    decreases n,
{
    if n >= 10 {
        let mut r = decimal_bytes(n / 10);
        r.push((48 + (n % 10)) as u8);
        r
    } else {
        let mut r: Vec<u8> = Vec::new();
        r.push((48 + n) as u8);
        proof {
            assert(r@ =~= dec_digits(n as int));
        }
        r
    }
}

/// Index of the first line feed at or after `c`, or `s.len()` if none.
pub open spec fn find_nl(s: Seq<u8>, c: int) -> int
    decreases s.len() - c,
{
    if c < 0 || c >= s.len() {
        s.len() as int
    } else if s[c] == 10 {
        c
    } else {
        find_nl(s, c + 1)
    }
}

pub proof fn lemma_find_nl_bounds(s: Seq<u8>, c: int)
    requires
        0 <= c <= s.len(),
    ensures
        c <= find_nl(s, c) <= s.len(),
        forall|k: int| c <= k < find_nl(s, c) ==> s[k] != 10,
        find_nl(s, c) < s.len() ==> s[find_nl(s, c)] == 10,
    decreases s.len() - c,
{
    if c < s.len() && s[c] != 10 {
        lemma_find_nl_bounds(s, c + 1);
    }
}

/// First line feed position, computed over the buffer.
pub fn find_nl_at(s: &Vec<u8>, c: usize) -> (r: usize)
    requires
        c <= s@.len(),
    ensures
        r as int == find_nl(s@, c as int),
        c <= r <= s@.len(),
{
    proof {
        lemma_find_nl_bounds(s@, c as int);
    }
    let mut i: usize = c;
    while i < s.len() && s[i] != 10
        invariant
            c <= i <= s@.len(),
            find_nl(s@, c as int) == find_nl(s@, i as int),
        decreases s@.len() - i,
    {
        i = i + 1;
    }
    i
}

/// The header text from cursor `c` on, with every `element vertex` line
/// replaced by one carrying `total`, every other line copied verbatim, and
/// each line closed with a line feed.
pub open spec fn rewrite_from(s: Seq<u8>, c: int, total: int) -> Seq<u8>
    decreases s.len() - c,
    when 0 <= c <= s.len()
    via rewrite_from_decreases
{
    if c >= s.len() {
        Seq::empty()
    } else {
        let e = find_nl(s, c);
        let line = s.subrange(c, e);
        let c2 = if e < s.len() {
            e + 1
        } else {
            e
        };
        let out_line = if starts_with_pat(line, pat_element_vertex()) {
            pat_element_vertex() + seq![32u8] + dec_digits(total)
        } else {
            line
        };
        out_line + seq![10u8] + rewrite_from(s, c2, total)
    }
}

#[via_fn]
proof fn rewrite_from_decreases(s: Seq<u8>, c: int, total: int) {
    if 0 <= c < s.len() {
        lemma_find_nl_bounds(s, c);
    }
}

/// The raw bytes of record `idx`: `stride` bytes at `start + idx * stride`.
pub open spec fn record_at(data: Seq<u8>, start: int, stride: int, idx: int) -> Seq<u8> {
    data.subrange(start + idx * stride, start + idx * stride + stride)
}

/// The raw bytes of the records of `kept`, concatenated in order.
pub open spec fn records_concat(data: Seq<u8>, start: int, stride: int, kept: Seq<usize>) -> Seq<
    u8,
>
    decreases kept.len(),
{
    if kept.len() == 0 {
        Seq::empty()
    } else {
        records_concat(data, start, stride, kept.drop_last()) + record_at(
            data,
            start,
            stride,
            kept.last() as int,
        )
    }
}

/// Rewrite the header template for an output of `total` records.
pub fn rewrite_header(header: &Vec<u8>, total: usize) -> (out: Vec<u8>)
    ensures
        out@ == rewrite_from(header@, 0, total as int),
{
    let p_ev = crate::schema::pat_vec_element_vertex();
    let n = header.len();
    let mut out: Vec<u8> = Vec::new();
    let mut c: usize = 0;
    proof {
        assert(Seq::<u8>::empty() + rewrite_from(header@, 0, total as int) =~= rewrite_from(
            header@,
            0,
            total as int,
        ));
    }
    while c < n
        invariant
            c <= n,
            n == header@.len(),
            p_ev@ == pat_element_vertex(),
            rewrite_from(header@, 0, total as int) == out@ + rewrite_from(
                header@,
                c as int,
                total as int,
            ),
        decreases n - c,
    {
        let ghost out0 = out@;
        let e = find_nl_at(header, c);
        let line = copy_range(header, c, e);
        let c2: usize = if e < n {
            e + 1
        } else {
            e
        };
        if bytes_starts_with(&line, &p_ev) {
            extend_bytes(&mut out, &p_ev);
            out.push(32u8);
            let digits = decimal_bytes(total);
            extend_bytes(&mut out, &digits);
            out.push(10u8);
            proof {
                assert(out@ =~= out0 + (pat_element_vertex() + seq![32u8] + dec_digits(
                    total as int,
                )) + seq![10u8]);
            }
        } else {
            extend_bytes(&mut out, &line);
            out.push(10u8);
            proof {
                assert(out@ =~= out0 + line@ + seq![10u8]);
            }
        }
        proof {
            let s = header@;
            let lineg = s.subrange(c as int, e as int);
            let out_line = if starts_with_pat(lineg, pat_element_vertex()) {
                pat_element_vertex() + seq![32u8] + dec_digits(total as int)
            } else {
                lineg
            };
            assert(rewrite_from(s, c as int, total as int) == out_line + seq![10u8]
                + rewrite_from(s, c2 as int, total as int));
            assert(out0 + rewrite_from(s, c as int, total as int) =~= out@ + rewrite_from(
                s,
                c2 as int,
                total as int,
            ));
        }
        c = c2;
    }
    proof {
        assert(out@ + rewrite_from(header@, n as int, total as int) =~= out@);
    }
    out
}

/// Concatenate the raw bytes of the kept records, in the kept order.
pub fn records_bytes(data: &Vec<u8>, start: usize, stride: usize, kept: &Vec<usize>) -> (out: Vec<
    u8,
>)
    requires
        forall|j: int| #![auto]
            0 <= j < kept@.len() ==> start + kept@[j] * stride + stride <= data@.len(),
    ensures
        out@ == records_concat(data@, start as int, stride as int, kept@),
{
    let mut out: Vec<u8> = Vec::new();
    let mut j: usize = 0;
    let n = kept.len();
    let dn = data.len();
    proof {
        assert(kept@.take(0) =~= Seq::<usize>::empty());
    }
    while j < n
        invariant
            j <= n,
            n == kept@.len(),
            dn == data@.len(),
            forall|t: int| #![auto]
                0 <= t < kept@.len() ==> start + kept@[t] * stride + stride <= data@.len(),
            out@ == records_concat(data@, start as int, stride as int, kept@.take(j as int)),
        decreases n - j,
    {
        let idx = kept[j];
        proof {
            assert(start + kept@[j as int] * stride + stride <= dn);
        }
        let base = start + idx * stride;
        let rec = copy_range(data, base, base + stride);
        extend_bytes(&mut out, &rec);
        proof {
            assert(kept@.take(j + 1).drop_last() =~= kept@.take(j as int));
            assert(kept@.take(j + 1).last() == kept@[j as int]);
            assert(rec@ == record_at(data@, start as int, stride as int, kept@[j as int] as int));
        }
        j = j + 1;
    }
    proof {
        assert(kept@.take(n as int) =~= kept@);
    }
    out
}

/// Keeping every index reproduces the record region byte for byte: the
/// concatenation of all `n` records in order is exactly the `n * stride`
/// bytes that follow the header.
pub proof fn lemma_records_identity(data: Seq<u8>, start: int, stride: int, n: int)
    requires
        0 <= start,
        0 <= stride,
        0 <= n <= usize::MAX,
        start + n * stride <= data.len(),
    ensures
        records_concat(data, start, stride, all_indices(n)) == data.subrange(
            start,
            start + n * stride,
        ),
    decreases n,
{
    let idseq = all_indices(n);
    if n == 0 {
        assert(idseq.len() == 0);
        assert(n * stride == 0) by (nonlinear_arith)
            requires
                n == 0,
        ;
        assert(records_concat(data, start, stride, idseq) == Seq::<u8>::empty());
        assert(data.subrange(start, start) =~= Seq::<u8>::empty());
        assert(records_concat(data, start, stride, idseq) == data.subrange(
            start,
            start + n * stride,
        ));
    } else {
        assert((n - 1) * stride + stride == n * stride) by (nonlinear_arith);
        assert((n - 1) * stride >= 0) by (nonlinear_arith)
            requires
                n >= 1 && stride >= 0,
        ;
        lemma_records_identity(data, start, stride, n - 1);
        assert(idseq.drop_last() =~= all_indices(n - 1));
        assert(idseq.last() == (n - 1) as usize);
        assert(record_at(data, start, stride, n - 1) == data.subrange(
            start + (n - 1) * stride,
            start + n * stride,
        ));
        assert(data.subrange(start, start + (n - 1) * stride) + data.subrange(
            start + (n - 1) * stride,
            start + n * stride,
        ) =~= data.subrange(start, start + n * stride));
        assert(records_concat(data, start, stride, idseq) == records_concat(
            data,
            start,
            stride,
            idseq.drop_last(),
        ) + record_at(data, start, stride, idseq.last() as int));
        assert(records_concat(data, start, stride, idseq.drop_last()) == data.subrange(
            start,
            start + (n - 1) * stride,
        ));
        assert(idseq.last() as int == n - 1);
        assert(record_at(data, start, stride, idseq.last() as int) == data.subrange(
            start + (n - 1) * stride,
            start + n * stride,
        ));
        assert(records_concat(data, start, stride, idseq) == data.subrange(
            start,
            start + n * stride,
        ));
    }
}

/// The merge writer: the header template with its `element vertex` count
/// replaced by the total number of kept records, followed by the kept raw
/// records of input 1 in original order, then those of input 2.
pub fn build_output(
    header: &Vec<u8>,
    data1: &Vec<u8>,
    start1: usize,
    kept1: &Vec<usize>,
    data2: &Vec<u8>,
    start2: usize,
    kept2: &Vec<usize>,
    stride: usize,
) -> (out: Vec<u8>)
    requires
        forall|j: int| #![auto]
            0 <= j < kept1@.len() ==> start1 + kept1@[j] * stride + stride <= data1@.len(),
        forall|j: int| #![auto]
            0 <= j < kept2@.len() ==> start2 + kept2@[j] * stride + stride <= data2@.len(),
        kept1@.len() + kept2@.len() <= usize::MAX,
    ensures
        out@ == rewrite_from(header@, 0, kept1@.len() + kept2@.len() as int) + records_concat(
            data1@,
            start1 as int,
            stride as int,
            kept1@,
        ) + records_concat(data2@, start2 as int, stride as int, kept2@),
{
    let total = kept1.len() + kept2.len();
    let mut out = rewrite_header(header, total);
    let r1 = records_bytes(data1, start1, stride, kept1);
    extend_bytes(&mut out, &r1);
    let r2 = records_bytes(data2, start2, stride, kept2);
    extend_bytes(&mut out, &r2);
    proof {
        assert(out@ =~= rewrite_from(header@, 0, kept1@.len() + kept2@.len() as int) + records_concat(
            data1@,
            start1 as int,
            stride as int,
            kept1@,
        ) + records_concat(data2@, start2 as int, stride as int, kept2@));
    }
    out
}

} // verus!
