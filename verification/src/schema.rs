//! The schema header parser: a self-describing text preamble declares the
//! record count, the per-record byte stride, and optionally the offset of a
//! three-component scale field; binary records follow the `end_header` line.

use vstd::prelude::*;
use crate::text::{
    find_term, skip_terms, find_term_at, skip_terms_at, copy_range, extend_bytes,
    starts_with_pat, ends_with_pat, has_pat, bytes_eq, bytes_starts_with, bytes_ends_with,
    bytes_contains, last_token, valid_count, dec_val, parse_count, lemma_find_term_bounds,
    lemma_skip_terms_bounds, lemma_dec_val_nonneg,
};

verus! {

/// The error taxonomy of the merge core. Opening or mapping files is the
/// caller's business; every failure of the core itself is one of these.
#[derive(Clone, Copy, Debug, PartialEq, Eq, Structural)]
pub enum MergeError {
    /// No `end_header` line, or an `element vertex` line without a
    /// parseable trailing count.
    HeaderParseFailure,
    /// The two present inputs declare different record strides.
    SchemaMismatch,
    /// Scale mode was requested but a present input has no scale field.
    MissingScaleField,
    /// Both inputs are absent.
    InvalidConfiguration,
}

/// Mathematical content of a parsed schema header.
pub ghost struct HeaderSpec {
    /// Byte offset where the binary records begin.
    pub header_len: int,
    /// Declared number of records.
    pub vertex_count: int,
    /// Sum of the declared field widths, in bytes.
    pub stride: int,
    /// The header text, one `\n` after each line.
    pub raw_header: Seq<u8>,
    /// Accumulated stride right before the `scale_0`-suffixed property.
    pub scale_offset: Option<int>,
}

pub open spec fn pat_end_header() -> Seq<u8> {
    seq![101u8, 110u8, 100u8, 95u8, 104u8, 101u8, 97u8, 100u8, 101u8, 114u8]
}

pub open spec fn pat_element_vertex() -> Seq<u8> {
    seq![101u8, 108u8, 101u8, 109u8, 101u8, 110u8, 116u8, 32u8, 118u8, 101u8, 114u8, 116u8, 101u8, 120u8]
}

pub open spec fn pat_property() -> Seq<u8> {
    seq![112u8, 114u8, 111u8, 112u8, 101u8, 114u8, 116u8, 121u8]
}

pub open spec fn pat_scale0() -> Seq<u8> {
    seq![115u8, 99u8, 97u8, 108u8, 101u8, 95u8, 48u8]
}

pub open spec fn pat_float() -> Seq<u8> {
    seq![102u8, 108u8, 111u8, 97u8, 116u8]
}

pub open spec fn pat_double() -> Seq<u8> {
    seq![100u8, 111u8, 117u8, 98u8, 108u8, 101u8]
}

pub open spec fn pat_uchar() -> Seq<u8> {
    seq![117u8, 99u8, 104u8, 97u8, 114u8]
}

pub open spec fn pat_uint8() -> Seq<u8> {
    seq![117u8, 105u8, 110u8, 116u8, 56u8]
}

/// Byte width contributed by a `property` line: 4 for a float, 8 for a
/// double, 1 for a byte-sized field, 0 for any other declared type.
pub open spec fn prop_width(line: Seq<u8>) -> int {
    if has_pat(line, pat_float()) {
        4
    } else if has_pat(line, pat_double()) {
        8
    } else if has_pat(line, pat_uchar()) || has_pat(line, pat_uint8()) {
        1
    } else {
        0
    }
}

/// One parsing step per header line, from cursor `c` with the fields
/// accumulated so far; `None` is a parse failure. Lines are maximal runs of
/// non-terminator bytes; the run of `\n`/`\r` bytes after a line is skipped
/// whole, and the cursor after the `end_header` line's terminators is where
/// the binary records begin.
pub open spec fn parse_step(s: Seq<u8>, c: int, acc: HeaderSpec) -> Option<HeaderSpec>
    decreases s.len() - c,
    when 0 <= c <= s.len()
    via parse_step_decreases
{
    if c >= s.len() {
        None
    } else {
        let e = find_term(s, c);
        let line = s.subrange(c, e);
        let c2 = skip_terms(s, e);
        let acc1 = HeaderSpec { raw_header: acc.raw_header + line + seq![10u8], ..acc };
        if line == pat_end_header() {
            Some(HeaderSpec { header_len: c2, ..acc1 })
        } else if starts_with_pat(line, pat_element_vertex()) {
            if valid_count(last_token(line)) {
                parse_step(s, c2, HeaderSpec { vertex_count: dec_val(last_token(line)), ..acc1 })
            } else {
                None
            }
        } else if starts_with_pat(line, pat_property()) {
            let acc2 = if ends_with_pat(line, pat_scale0()) {
                HeaderSpec { scale_offset: Some(acc1.stride), ..acc1 }
            } else {
                acc1
            };
            parse_step(s, c2, HeaderSpec { stride: acc2.stride + prop_width(line), ..acc2 })
        } else {
            parse_step(s, c2, acc1)
        }
    }
}

#[via_fn]
proof fn parse_step_decreases(s: Seq<u8>, c: int, acc: HeaderSpec) {
    if 0 <= c < s.len() {
        lemma_find_term_bounds(s, c);
        lemma_skip_terms_bounds(s, find_term(s, c));
    }
}

pub open spec fn init_header_spec() -> HeaderSpec {
    HeaderSpec {
        header_len: 0,
        vertex_count: 0,
        stride: 0,
        raw_header: Seq::empty(),
        scale_offset: None,
    }
}

/// The schema described by the text preamble of `s`, if it parses.
pub open spec fn spec_parse_header(s: Seq<u8>) -> Option<HeaderSpec> {
    parse_step(s, 0, init_header_spec())
}

/// Parsed schema descriptor of one input file.
pub struct PlyInfo {
    /// Byte offset where the binary records begin.
    pub header_len: usize,
    /// Declared number of records.
    pub vertex_count: usize,
    /// Per-record byte stride.
    pub stride: usize,
    /// The header text, newline-normalized.
    pub raw_header: Vec<u8>,
    /// Byte offset of the scale field within a record, if declared.
    pub scale_offset: Option<usize>,
}

pub open spec fn opt_int(o: Option<usize>) -> Option<int> {
    match o {
        Some(v) => Some(v as int),
        None => None,
    }
}

impl View for PlyInfo {
    type V = HeaderSpec;

    open spec fn view(&self) -> HeaderSpec {
        HeaderSpec {
            header_len: self.header_len as int,
            vertex_count: self.vertex_count as int,
            stride: self.stride as int,
            raw_header: self.raw_header@,
            scale_offset: opt_int(self.scale_offset),
        }
    }
}

fn pat_vec_end_header() -> (r: Vec<u8>)
    ensures
        r@ == pat_end_header(),
{
    let mut v: Vec<u8> = Vec::new();
    v.push(101u8);
    v.push(110u8);
    v.push(100u8);
    v.push(95u8);
    v.push(104u8);
    v.push(101u8);
    v.push(97u8);
    v.push(100u8);
    v.push(101u8);
    v.push(114u8);
    proof {
        assert(v@ =~= pat_end_header());
    }
    v
}

pub(crate) fn pat_vec_element_vertex() -> (r: Vec<u8>)
    ensures
        r@ == pat_element_vertex(),
{
    let mut v: Vec<u8> = Vec::new();
    v.push(101u8);
    v.push(108u8);
    v.push(101u8);
    v.push(109u8);
    v.push(101u8);
    v.push(110u8);
    v.push(116u8);
    v.push(32u8);
    v.push(118u8);
    v.push(101u8);
    v.push(114u8);
    v.push(116u8);
    v.push(101u8);
    v.push(120u8);
    proof {
        assert(v@ =~= pat_element_vertex());
    }
    v
}

fn pat_vec_property() -> (r: Vec<u8>)
    ensures
        r@ == pat_property(),
{
    let mut v: Vec<u8> = Vec::new();
    v.push(112u8);
    v.push(114u8);
    v.push(111u8);
    v.push(112u8);
    v.push(101u8);
    v.push(114u8);
    v.push(116u8);
    v.push(121u8);
    proof {
        assert(v@ =~= pat_property());
    }
    v
}

fn pat_vec_scale0() -> (r: Vec<u8>)
    ensures
        r@ == pat_scale0(),
{
    let mut v: Vec<u8> = Vec::new();
    v.push(115u8);
    v.push(99u8);
    v.push(97u8);
    v.push(108u8);
    v.push(101u8);
    v.push(95u8);
    v.push(48u8);
    proof {
        assert(v@ =~= pat_scale0());
    }
    v
}

fn pat_vec_float() -> (r: Vec<u8>)
    ensures
        r@ == pat_float(),
{
    let mut v: Vec<u8> = Vec::new();
    v.push(102u8);
    v.push(108u8);
    v.push(111u8);
    v.push(97u8);
    v.push(116u8);
    proof {
        assert(v@ =~= pat_float());
    }
    v
}

fn pat_vec_double() -> (r: Vec<u8>)
    ensures
        r@ == pat_double(),
{
    let mut v: Vec<u8> = Vec::new();
    v.push(100u8);
    v.push(111u8);
    v.push(117u8);
    v.push(98u8);
    v.push(108u8);
    v.push(101u8);
    proof {
        assert(v@ =~= pat_double());
    }
    v
}

fn pat_vec_uchar() -> (r: Vec<u8>)
    ensures
        r@ == pat_uchar(),
{
    let mut v: Vec<u8> = Vec::new();
    v.push(117u8);
    v.push(99u8);
    v.push(104u8);
    v.push(97u8);
    v.push(114u8);
    proof {
        assert(v@ =~= pat_uchar());
    }
    v
}

fn pat_vec_uint8() -> (r: Vec<u8>)
    ensures
        r@ == pat_uint8(),
{
    let mut v: Vec<u8> = Vec::new();
    v.push(117u8);
    v.push(105u8);
    v.push(110u8);
    v.push(116u8);
    v.push(56u8);
    proof {
        assert(v@ =~= pat_uint8());
    }
    v
}

/// Parse the text preamble of `data` into a schema descriptor.
///
/// The result is exactly what `spec_parse_header` says: `Ok` with the
/// described fields when the header parses, `HeaderParseFailure` when the
/// buffer ends before an `end_header` line or an `element vertex` line
/// carries no parseable count.
pub fn parse_ply_header(data: &Vec<u8>) -> (r: Result<PlyInfo, MergeError>)
    ensures
        match spec_parse_header(data@) {
            Some(h) => r matches Ok(info) && info@ == h,
            None => r == Err::<PlyInfo, MergeError>(MergeError::HeaderParseFailure),
        },
{
    let p_end = pat_vec_end_header();
    let p_ev = pat_vec_element_vertex();
    let p_prop = pat_vec_property();
    let p_s0 = pat_vec_scale0();
    let p_f = pat_vec_float();
    let p_d = pat_vec_double();
    let p_uc = pat_vec_uchar();
    let p_u8 = pat_vec_uint8();
    let n = data.len();
    let mut c: usize = 0;
    let mut vertex_count: usize = 0;
    let mut stride: usize = 0;
    let mut scale_offset: Option<usize> = None;
    let mut raw: Vec<u8> = Vec::new();
    loop
        invariant
            c <= n,
            n == data@.len(),
            stride <= c,
            p_end@ == pat_end_header(),
            p_ev@ == pat_element_vertex(),
            p_prop@ == pat_property(),
            p_s0@ == pat_scale0(),
            p_f@ == pat_float(),
            p_d@ == pat_double(),
            p_uc@ == pat_uchar(),
            p_u8@ == pat_uint8(),
            spec_parse_header(data@) == parse_step(
                data@,
                c as int,
                HeaderSpec {
                    header_len: 0,
                    vertex_count: vertex_count as int,
                    stride: stride as int,
                    raw_header: raw@,
                    scale_offset: opt_int(scale_offset),
                },
            ),
        decreases n - c,
    {
        let ghost acc = HeaderSpec {
            header_len: 0,
            vertex_count: vertex_count as int,
            stride: stride as int,
            raw_header: raw@,
            scale_offset: opt_int(scale_offset),
        };
        if c >= n {
            return Err(MergeError::HeaderParseFailure);
        }
        let e = find_term_at(data, c);
        let line = copy_range(data, c, e);
        let c2 = skip_terms_at(data, e);
        proof {
            lemma_find_term_bounds(data@, c as int);
            lemma_skip_terms_bounds(data@, e as int);
            assert(c2 > c);
        }
        extend_bytes(&mut raw, &line);
        raw.push(10u8);
        proof {
            assert(raw@ =~= acc.raw_header + line@ + seq![10u8]);
        }
        if bytes_eq(&line, &p_end) {
            let info = PlyInfo {
                header_len: c2,
                vertex_count,
                stride,
                raw_header: raw,
                scale_offset,
            };
            return Ok(info);
        } else if bytes_starts_with(&line, &p_ev) {
            match parse_count(&line) {
                Some(count) => {
                    proof {
                        assert(valid_count(last_token(line@)));
                        lemma_dec_val_nonneg(last_token(line@));
                    }
                    vertex_count = count;
                },
                None => {
                    return Err(MergeError::HeaderParseFailure);
                },
            }
        } else if bytes_starts_with(&line, &p_prop) {
            if bytes_ends_with(&line, &p_s0) {
                scale_offset = Some(stride);
            }
            let w: usize = if bytes_contains(&line, &p_f) {
                4
            } else if bytes_contains(&line, &p_d) {
                8
            } else if bytes_contains(&line, &p_uc) || bytes_contains(&line, &p_u8) {
                1
            } else {
                0
            };
            proof {
                assert(w == prop_width(line@));
                assert(e - c >= 8);
            }
            stride = stride + w;
        }
        proof {
            let s = data@;
            let lineg = s.subrange(c as int, e as int);
            let acc1 = HeaderSpec { raw_header: acc.raw_header + lineg + seq![10u8], ..acc };
            assert(raw@ == acc1.raw_header);
            assert(parse_step(s, c as int, acc) == parse_step(
                s,
                c2 as int,
                HeaderSpec {
                    header_len: 0,
                    vertex_count: vertex_count as int,
                    stride: stride as int,
                    raw_header: raw@,
                    scale_offset: opt_int(scale_offset),
                },
            ));
        }
        c = c2;
    }
}

/// Pick the stride and the header template from the present inputs: both
/// absent is a configuration error, two present inputs must agree on the
/// stride, and input 1 is preferred as the template.
pub fn resolve_schema<'a>(input1: Option<&'a PlyInfo>, input2: Option<&'a PlyInfo>) -> (r: Result<
    (usize, Vec<u8>),
    MergeError,
>)
    ensures
        match (input1, input2) {
            (Some(i1), Some(i2)) => {
                if i1.stride == i2.stride {
                    r matches Ok(p) && p.0 == i1.stride && p.1@ == i1.raw_header@
                } else {
                    r == Err::<(usize, Vec<u8>), MergeError>(MergeError::SchemaMismatch)
                }
            },
            (Some(i1), None) => r matches Ok(p) && p.0 == i1.stride && p.1@ == i1.raw_header@,
            (None, Some(i2)) => r matches Ok(p) && p.0 == i2.stride && p.1@ == i2.raw_header@,
            (None, None) => r == Err::<(usize, Vec<u8>), MergeError>(
                MergeError::InvalidConfiguration,
            ),
        },
{
    match (input1, input2) {
        (Some(i1), Some(i2)) => {
            if i1.stride != i2.stride {
                Err(MergeError::SchemaMismatch)
            } else {
                let header = copy_range(&i1.raw_header, 0, i1.raw_header.len());
                proof {
                    assert(header@ =~= i1.raw_header@);
                }
                Ok((i1.stride, header))
            }
        },
        (Some(i1), None) => {
            let header = copy_range(&i1.raw_header, 0, i1.raw_header.len());
            proof {
                assert(header@ =~= i1.raw_header@);
            }
            Ok((i1.stride, header))
        },
        (None, Some(i2)) => {
            let header = copy_range(&i2.raw_header, 0, i2.raw_header.len());
            proof {
                assert(header@ =~= i2.raw_header@);
            }
            Ok((i2.stride, header))
        },
        (None, None) => Err(MergeError::InvalidConfiguration),
    }
}

/// Scale mode needs the input's scale offset; its absence is the explicit
/// `MissingScaleField` error.
pub fn require_scale(info: &PlyInfo) -> (r: Result<usize, MergeError>)
    ensures
        match info.scale_offset {
            Some(o) => r == Ok::<usize, MergeError>(o),
            None => r == Err::<usize, MergeError>(MergeError::MissingScaleField),
        },
{
    match info.scale_offset {
        Some(o) => Ok(o),
        None => Err(MergeError::MissingScaleField),
    }
}

} // verus!
