//! The executable decoder: one bounds-checked pass over the buffer, with each
//! function proved to return exactly what the corresponding grammar function
//! says, value and position alike, for every input.

use vstd::prelude::*;
use vstd::slice::slice_subrange;
use vstd::slice::slice_to_vec;

use crate::grammar::absent_at;
use crate::grammar::be32_at;
use crate::grammar::be64_at;
use crate::grammar::pad_len;
use crate::grammar::sentinel_at;
use crate::grammar::spec_att_list;
use crate::grammar::spec_attr;
use crate::grammar::spec_attr_entries;
use crate::grammar::spec_count;
use crate::grammar::spec_dim;
use crate::grammar::spec_dim_entries;
use crate::grammar::spec_dim_list;
use crate::grammar::spec_dimids;
use crate::grammar::spec_header;
use crate::grammar::spec_magic;
use crate::grammar::spec_name;
use crate::grammar::spec_numrecs;
use crate::grammar::spec_offset;
use crate::grammar::spec_type;
use crate::grammar::spec_var;
use crate::grammar::spec_var_entries;
use crate::grammar::spec_var_list;
use crate::grammar::tag_at;
use crate::grammar::type_of_tag;
use crate::grammar::utf8_decode;
use crate::types::Attribute;
use crate::types::AttributeV;
use crate::types::DecodeError;
use crate::types::Dimension;
use crate::types::DimensionV;
use crate::types::File;
use crate::types::FileHeader;
use crate::types::FileHeaderV;
use crate::types::Type;
use crate::types::Variable;
use crate::types::VariableV;
use crate::types::Version;

verus! {

broadcast use vstd::slice::axiom_spec_len;

/// Filler bytes from absolute position `p` to the next 4-byte boundary.
fn compute_pad(p: usize) -> (r: usize)
    ensures
        r as int == pad_len(p as int),
        r < 4,
{
    let m: usize = p % 4;
    if m == 0 {
        0
    } else {
        4 - m
    }
}

/// One count/size field, 4 or 8 bytes wide by version, read big-endian.
fn read_count(input: &[u8], pos: usize, v: Version) -> (r: Result<(u64, usize), DecodeError>)
    requires
        pos <= input@.len(),
    ensures
        (match r {
            Ok((n, p)) => spec_count(input@, pos as int, v) == Ok::<(u64, int), DecodeError>(
                (n, p as int),
            ) && pos <= p && p <= input@.len(),
            Err(e) => spec_count(input@, pos as int, v) == Err::<(u64, int), DecodeError>(e),
        }),
{
    match v {
        Version::CDF1 | Version::CDF2 => {
            if input.len() - pos < 4 {
                Err(DecodeError::Truncated)
            } else {
                let b0 = input[pos] as u64;
                let b1 = input[pos + 1] as u64;
                let b2 = input[pos + 2] as u64;
                let b3 = input[pos + 3] as u64;
                let n: u64 = b0 * 0x100_0000 + b1 * 0x1_0000 + b2 * 0x100 + b3;
                assert(n as int == be32_at(input@, pos as int));
                Ok((n, pos + 4))
            }
        },
        Version::CDF5 => {
            if input.len() - pos < 8 {
                Err(DecodeError::Truncated)
            } else {
                let b0 = input[pos] as u64;
                let b1 = input[pos + 1] as u64;
                let b2 = input[pos + 2] as u64;
                let b3 = input[pos + 3] as u64;
                let b4 = input[pos + 4] as u64;
                let b5 = input[pos + 5] as u64;
                let b6 = input[pos + 6] as u64;
                let b7 = input[pos + 7] as u64;
                let n: u64 = b0 * 0x100_0000_0000_0000 + b1 * 0x1_0000_0000_0000 + b2
                    * 0x100_0000_0000 + b3 * 0x1_0000_0000 + b4 * 0x100_0000 + b5 * 0x1_0000 + b6
                    * 0x100 + b7;
                assert(n as int == be64_at(input@, pos as int));
                Ok((n, pos + 8))
            }
        },
    }
}

/// The data-offset field: 4 bytes widened for CDF-1, 8 bytes otherwise.
fn read_offset(input: &[u8], pos: usize, v: Version) -> (r: Result<(u64, usize), DecodeError>)
    requires
        pos <= input@.len(),
    ensures
        (match r {
            Ok((n, p)) => spec_offset(input@, pos as int, v) == Ok::<(u64, int), DecodeError>(
                (n, p as int),
            ) && pos <= p && p <= input@.len(),
            Err(e) => spec_offset(input@, pos as int, v) == Err::<(u64, int), DecodeError>(e),
        }),
{
    match v {
        Version::CDF1 => {
            if input.len() - pos < 4 {
                Err(DecodeError::Truncated)
            } else {
                let b0 = input[pos] as u64;
                let b1 = input[pos + 1] as u64;
                let b2 = input[pos + 2] as u64;
                let b3 = input[pos + 3] as u64;
                let n: u64 = b0 * 0x100_0000 + b1 * 0x1_0000 + b2 * 0x100 + b3;
                assert(n as int == be32_at(input@, pos as int));
                Ok((n, pos + 4))
            }
        },
        Version::CDF2 | Version::CDF5 => {
            if input.len() - pos < 8 {
                Err(DecodeError::Truncated)
            } else {
                let b0 = input[pos] as u64;
                let b1 = input[pos + 1] as u64;
                let b2 = input[pos + 2] as u64;
                let b3 = input[pos + 3] as u64;
                let b4 = input[pos + 4] as u64;
                let b5 = input[pos + 5] as u64;
                let b6 = input[pos + 6] as u64;
                let b7 = input[pos + 7] as u64;
                let n: u64 = b0 * 0x100_0000_0000_0000 + b1 * 0x1_0000_0000_0000 + b2
                    * 0x100_0000_0000 + b3 * 0x1_0000_0000 + b4 * 0x100_0000 + b5 * 0x1_0000 + b6
                    * 0x100 + b7;
                assert(n as int == be64_at(input@, pos as int));
                Ok((n, pos + 8))
            }
        },
    }
}

/// Whether the "record count unknown" sentinel stands at `pos`.
fn is_sentinel(input: &[u8], pos: usize, v: Version) -> (r: bool)
    requires
        pos <= input@.len(),
    ensures
        r == sentinel_at(input@, pos as int, v),
{
    match v {
        Version::CDF1 | Version::CDF2 => input.len() - pos >= 4 && input[pos] == 0xff && input[pos
            + 1] == 0xff && input[pos + 2] == 0xff && input[pos + 3] == 0xff,
        Version::CDF5 => input.len() - pos >= 8 && input[pos] == 0xff && input[pos + 1] == 0xff
            && input[pos + 2] == 0xff && input[pos + 3] == 0xff && input[pos + 4] == 0xff
            && input[pos + 5] == 0xff && input[pos + 6] == 0xff && input[pos + 7] == 0xff,
    }
}

/// Whether the absent-list marker stands at `pos`.
fn is_absent(input: &[u8], pos: usize, v: Version) -> (r: bool)
    requires
        pos <= input@.len(),
    ensures
        r == absent_at(input@, pos as int, v),
{
    match v {
        Version::CDF1 | Version::CDF2 => input.len() - pos >= 8 && input[pos] == 0 && input[pos + 1]
            == 0 && input[pos + 2] == 0 && input[pos + 3] == 0 && input[pos + 4] == 0 && input[pos
            + 5] == 0 && input[pos + 6] == 0 && input[pos + 7] == 0,
        Version::CDF5 => input.len() - pos >= 12 && input[pos] == 0 && input[pos + 1] == 0
            && input[pos + 2] == 0 && input[pos + 3] == 0 && input[pos + 4] == 0 && input[pos + 5]
            == 0 && input[pos + 6] == 0 && input[pos + 7] == 0 && input[pos + 8] == 0 && input[pos
            + 9] == 0 && input[pos + 10] == 0 && input[pos + 11] == 0,
    }
}

/// Whether the 4-byte list tag with low byte `tag` stands at `pos`.
fn has_tag(input: &[u8], pos: usize, tag: u8) -> (r: bool)
    requires
        pos <= input@.len(),
    ensures
        r == tag_at(input@, pos as int, tag),
{
    input.len() - pos >= 4 && input[pos] == 0 && input[pos + 1] == 0 && input[pos + 2] == 0
        && input[pos + 3] == tag
}

/// The record-count field: the all-ones sentinel means "unknown".
fn read_numrecs(input: &[u8], pos: usize, v: Version) -> (r: Result<
    (Option<u64>, usize),
    DecodeError,
>)
    requires
        pos <= input@.len(),
    ensures
        (match r {
            Ok((n, p)) => spec_numrecs(input@, pos as int, v) == Ok::<
                (Option<u64>, int),
                DecodeError,
            >((n, p as int)) && pos <= p && p <= input@.len(),
            Err(e) => spec_numrecs(input@, pos as int, v) == Err::<(Option<u64>, int), DecodeError>(
                e,
            ),
        }),
{
    proof {
        vstd::slice::axiom_spec_len(input);
    }
    if is_sentinel(input, pos, v) {
        match v {
            Version::CDF1 | Version::CDF2 => Ok((None, pos + 4)),
            Version::CDF5 => Ok((None, pos + 8)),
        }
    } else {
        match read_count(input, pos, v) {
            Ok((n, p)) => Ok((Some(n), p)),
            Err(e) => Err(e),
        }
    }
}

/// Relies on std::str::from_utf8: whether a byte slice is valid UTF-8 text,
/// and which characters it decodes to, depend on the bytes alone.
#[verifier::external_body]
fn utf8_to_string(bytes: &[u8]) -> (r: Option<String>)
    ensures
        r is Some <==> utf8_decode(bytes@) is Some,
        (r matches Some(t) ==> utf8_decode(bytes@) == Some(t@)),
{
    match std::str::from_utf8(bytes) {
        Ok(t) => Some(t.to_string()),
        Err(_) => None,
    }
}

/// One name: a length-prefixed UTF-8 string followed by padding measured from
/// the absolute buffer position.
fn read_name(input: &[u8], pos: usize, v: Version) -> (r: Result<(String, usize), DecodeError>)
    requires
        pos <= input@.len(),
    ensures
        (match r {
            Ok((t, p)) => spec_name(input@, pos as int, v) == Ok::<(Seq<char>, int), DecodeError>(
                (t@, p as int),
            ) && pos <= p && p <= input@.len(),
            Err(e) => spec_name(input@, pos as int, v) == Err::<(Seq<char>, int), DecodeError>(e),
        }),
{
    proof {
        reveal(spec_name);
    }
    let (n, p1) = match read_count(input, pos, v) {
        Ok(x) => x,
        Err(e) => {
            return Err(e);
        },
    };
    if n > (input.len() - p1) as u64 {
        return Err(DecodeError::Truncated);
    }
    let nlen = n as usize;
    let bytes = slice_subrange(input, p1, p1 + nlen);
    let t = match utf8_to_string(bytes) {
        Some(t) => t,
        None => {
            return Err(DecodeError::InvalidUtf8);
        },
    };
    let p2 = p1 + nlen;
    let pad = compute_pad(p2);
    if input.len() - p2 < pad {
        return Err(DecodeError::Truncated);
    }
    Ok((t, p2 + pad))
}

/// One 4-byte big-endian type tag.
fn read_type(input: &[u8], pos: usize) -> (r: Result<(Type, usize), DecodeError>)
    requires
        pos <= input@.len(),
    ensures
        (match r {
            Ok((t, p)) => spec_type(input@, pos as int) == Ok::<(Type, int), DecodeError>(
                (t, p as int),
            ) && pos <= p && p <= input@.len(),
            Err(e) => spec_type(input@, pos as int) == Err::<(Type, int), DecodeError>(e),
        }),
{
    if input.len() - pos < 4 {
        return Err(DecodeError::Truncated);
    }
    if input[pos] != 0 || input[pos + 1] != 0 || input[pos + 2] != 0 {
        return Err(DecodeError::UnknownType);
    }
    let b = input[pos + 3];
    let t = if b == 1 {
        Type::Char
    } else if b == 2 {
        Type::I8
    } else if b == 3 {
        Type::I16
    } else if b == 4 {
        Type::I32
    } else if b == 5 {
        Type::F32
    } else if b == 6 {
        Type::F64
    } else if b == 7 {
        Type::U8
    } else if b == 8 {
        Type::U16
    } else if b == 9 {
        Type::U32
    } else if b == 10 {
        Type::I64
    } else if b == 11 {
        Type::U64
    } else {
        return Err(DecodeError::UnknownType);
    };
    assert(type_of_tag(input@[pos + 3]) == Some(t));
    Ok((t, pos + 4))
}

/// For a nonnegative `a` and positive `sz`, fitting `ne` elements of `sz`
/// bytes into `a` bytes is the same as `ne` being at most `a / sz`.
proof fn lemma_div_mul_le(a: int, sz: int, ne: int)
    requires
        a >= 0,
        sz >= 1,
        ne >= 0,
    ensures
        (ne <= a / sz) <==> (ne * sz <= a),
{
    vstd::arithmetic::div_mod::lemma_fundamental_div_mod(a, sz);
    vstd::arithmetic::div_mod::lemma_mod_bound(a, sz);
    assert(a == sz * (a / sz) + a % sz);
    assert((a / sz) * sz == sz * (a / sz)) by (nonlinear_arith);
    if ne <= a / sz {
        vstd::arithmetic::mul::lemma_mul_inequality(ne, a / sz, sz);
        assert(ne * sz <= (a / sz) * sz);
    }
    if ne > a / sz {
        vstd::arithmetic::mul::lemma_mul_inequality(a / sz + 1, ne, sz);
        vstd::arithmetic::mul::lemma_mul_is_distributive_add_other_way(sz, a / sz, 1);
        assert((a / sz + 1) * sz == (a / sz) * sz + 1 * sz);
        assert(ne * sz > a);
    }
}

/// One dimension entry: a name and its length field.
fn read_dim(input: &[u8], pos: usize, v: Version) -> (r: Result<(Dimension, usize), DecodeError>)
    requires
        pos <= input@.len(),
    ensures
        (match r {
            Ok((d, p)) => spec_dim(input@, pos as int, v) == Ok::<(DimensionV, int), DecodeError>(
                (d.deep_view(), p as int),
            ) && pos <= p && p <= input@.len(),
            Err(e) => spec_dim(input@, pos as int, v) == Err::<(DimensionV, int), DecodeError>(e),
        }),
{
    let (name, p1) = match read_name(input, pos, v) {
        Ok(x) => x,
        Err(e) => {
            return Err(e);
        },
    };
    let (len, p2) = match read_count(input, p1, v) {
        Ok(x) => x,
        Err(e) => {
            return Err(e);
        },
    };
    Ok((Dimension { name, len }, p2))
}

/// The dimension list: the absent marker, or tag 0x0000000A, a count, and
/// that many entries.
#[verifier::loop_isolation(false)]
#[verifier::rlimit(50)]
fn read_dim_list(input: &[u8], pos: usize, v: Version) -> (r: Result<
    (Option<Vec<Dimension>>, usize),
    DecodeError,
>)
    requires
        pos <= input@.len(),
    ensures
        (match r {
            Ok((dl, p)) => spec_dim_list(input@, pos as int, v) == Ok::<
                (Option<Seq<DimensionV>>, int),
                DecodeError,
            >((dl.deep_view(), p as int)) && pos <= p && p <= input@.len(),
            Err(e) => spec_dim_list(input@, pos as int, v) == Err::<
                (Option<Seq<DimensionV>>, int),
                DecodeError,
            >(e),
        }),
{
    proof {
        vstd::slice::axiom_spec_len(input);
    }
    if is_absent(input, pos, v) {
        let w: usize = match v {
            Version::CDF1 | Version::CDF2 => 4,
            Version::CDF5 => 8,
        };
        return Ok((None, pos + 4 + w));
    }
    if !has_tag(input, pos, 0x0a) {
        return Err(DecodeError::MalformedListMarker);
    }
    let (k, p1) = match read_count(input, pos + 4, v) {
        Ok(x) => x,
        Err(e) => {
            return Err(e);
        },
    };
    let mut dims: Vec<Dimension> = Vec::new();
    let mut i: u64 = 0;
    let mut cur: usize = p1;
    proof {
        assert(dims.deep_view() =~= Seq::<DimensionV>::empty());
        match spec_dim_entries(input@, p1 as int, v, k as nat) {
            Ok((rest, pe)) => {
                assert(Seq::<DimensionV>::empty() + rest =~= rest);
            },
            Err(e) => {},
        }
    }
    while i < k
        invariant
            i <= k,
            pos <= cur,
            cur <= input@.len(),
            (match spec_dim_entries(input@, cur as int, v, (k - i) as nat) {
                Ok((rest, pe)) => spec_dim_entries(input@, p1 as int, v, k as nat) == Ok::<
                    (Seq<DimensionV>, int),
                    DecodeError,
                >((dims.deep_view() + rest, pe)),
                Err(e) => spec_dim_entries(input@, p1 as int, v, k as nat) == Err::<
                    (Seq<DimensionV>, int),
                    DecodeError,
                >(e),
            }),
        decreases k - i,
    {
        let ghost old_dv = dims.deep_view();
        let (d, p2) = match read_dim(input, cur, v) {
            Ok(x) => x,
            Err(e) => {
                return Err(e);
            },
        };
        dims.push(d);
        cur = p2;
        i = i + 1;
        proof {
            let dv = d.deep_view();
            assert(dims.deep_view() =~= old_dv + seq![dv]);
            match spec_dim_entries(input@, cur as int, v, (k - i) as nat) {
                Ok((rest2, pe)) => {
                    assert(old_dv + (seq![dv] + rest2) =~= (old_dv + seq![dv]) + rest2);
                },
                Err(e) => {},
            }
        }
    }
    proof {
        assert(dims.deep_view() + Seq::<DimensionV>::empty() =~= dims.deep_view());
    }
    Ok((Some(dims), cur))
}

/// One attribute entry: name, type tag, element count, that many raw value
/// bytes, and padding.
fn read_attr(input: &[u8], pos: usize, v: Version) -> (r: Result<(Attribute, usize), DecodeError>)
    requires
        pos <= input@.len(),
    ensures
        (match r {
            Ok((a, p)) => spec_attr(input@, pos as int, v) == Ok::<(AttributeV, int), DecodeError>(
                (a.deep_view(), p as int),
            ) && pos <= p && p <= input@.len(),
            Err(e) => spec_attr(input@, pos as int, v) == Err::<(AttributeV, int), DecodeError>(e),
        }),
{
    proof {
        reveal(spec_attr);
    }
    let (name, p1) = match read_name(input, pos, v) {
        Ok(x) => x,
        Err(e) => {
            return Err(e);
        },
    };
    let (typ, p2) = match read_type(input, p1) {
        Ok(x) => x,
        Err(e) => {
            return Err(e);
        },
    };
    let (nelems, p3) = match read_count(input, p2, v) {
        Ok(x) => x,
        Err(e) => {
            return Err(e);
        },
    };
    let size: usize = typ.byte_size();
    let avail: usize = input.len() - p3;
    proof {
        lemma_div_mul_le(avail as int, size as int, nelems as int);
    }
    if nelems > (avail / size) as u64 {
        return Err(DecodeError::Truncated);
    }
    let nbytes: usize = (nelems as usize) * size;
    let p4 = p3 + nbytes;
    let data = slice_to_vec(slice_subrange(input, p3, p4));
    let pad = compute_pad(p4);
    if input.len() - p4 < pad {
        return Err(DecodeError::Truncated);
    }
    Ok((Attribute { name, typ, data }, p4 + pad))
}

/// An attribute list: the absent marker, or tag 0x0000000C, a count, and that
/// many entries. Decodes both the global list and each variable's own list.
#[verifier::loop_isolation(false)]
#[verifier::rlimit(100)]
fn read_att_list(input: &[u8], pos: usize, v: Version) -> (r: Result<
    (Option<Vec<Attribute>>, usize),
    DecodeError,
>)
    requires
        pos <= input@.len(),
    ensures
        (match r {
            Ok((al, p)) => spec_att_list(input@, pos as int, v) == Ok::<
                (Option<Seq<AttributeV>>, int),
                DecodeError,
            >((al.deep_view(), p as int)) && pos <= p && p <= input@.len(),
            Err(e) => spec_att_list(input@, pos as int, v) == Err::<
                (Option<Seq<AttributeV>>, int),
                DecodeError,
            >(e),
        }),
{
    proof {
        vstd::slice::axiom_spec_len(input);
    }
    if is_absent(input, pos, v) {
        let w: usize = match v {
            Version::CDF1 | Version::CDF2 => 4,
            Version::CDF5 => 8,
        };
        return Ok((None, pos + 4 + w));
    }
    if !has_tag(input, pos, 0x0c) {
        return Err(DecodeError::MalformedListMarker);
    }
    let (k, p1) = match read_count(input, pos + 4, v) {
        Ok(x) => x,
        Err(e) => {
            return Err(e);
        },
    };
    let mut atts: Vec<Attribute> = Vec::new();
    let mut i: u64 = 0;
    let mut cur: usize = p1;
    proof {
        assert(atts.deep_view() =~= Seq::<AttributeV>::empty());
        match spec_attr_entries(input@, p1 as int, v, k as nat) {
            Ok((rest, pe)) => {
                assert(Seq::<AttributeV>::empty() + rest =~= rest);
            },
            Err(e) => {},
        }
    }
    while i < k
        invariant
            i <= k,
            pos <= cur,
            cur <= input@.len(),
            (match spec_attr_entries(input@, cur as int, v, (k - i) as nat) {
                Ok((rest, pe)) => spec_attr_entries(input@, p1 as int, v, k as nat) == Ok::<
                    (Seq<AttributeV>, int),
                    DecodeError,
                >((atts.deep_view() + rest, pe)),
                Err(e) => spec_attr_entries(input@, p1 as int, v, k as nat) == Err::<
                    (Seq<AttributeV>, int),
                    DecodeError,
                >(e),
            }),
        decreases k - i,
    {
        let ghost old_dv = atts.deep_view();
        let (a, p2) = match read_attr(input, cur, v) {
            Ok(x) => x,
            Err(e) => {
                return Err(e);
            },
        };
        atts.push(a);
        cur = p2;
        i = i + 1;
        proof {
            let av = a.deep_view();
            assert(atts.deep_view() =~= old_dv + seq![av]);
            match spec_attr_entries(input@, cur as int, v, (k - i) as nat) {
                Ok((rest2, pe)) => {
                    assert(old_dv + (seq![av] + rest2) =~= (old_dv + seq![av]) + rest2);
                },
                Err(e) => {},
            }
        }
    }
    proof {
        assert(atts.deep_view() + Seq::<AttributeV>::empty() =~= atts.deep_view());
    }
    Ok((Some(atts), cur))
}

/// The run of dimension-id fields inside one variable entry.
#[verifier::loop_isolation(false)]
fn read_dimids(input: &[u8], pos: usize, v: Version, k: u64) -> (r: Result<
    (Vec<u64>, usize),
    DecodeError,
>)
    requires
        pos <= input@.len(),
    ensures
        (match r {
            Ok((ids, p)) => spec_dimids(input@, pos as int, v, k as nat) == Ok::<
                (Seq<u64>, int),
                DecodeError,
            >((ids@, p as int)) && pos <= p && p <= input@.len(),
            Err(e) => spec_dimids(input@, pos as int, v, k as nat) == Err::<
                (Seq<u64>, int),
                DecodeError,
            >(e),
        }),
{
    let mut ids: Vec<u64> = Vec::new();
    let mut i: u64 = 0;
    let mut cur: usize = pos;
    proof {
        match spec_dimids(input@, pos as int, v, k as nat) {
            Ok((rest, pe)) => {
                assert(Seq::<u64>::empty() + rest =~= rest);
            },
            Err(e) => {},
        }
    }
    while i < k
        invariant
            i <= k,
            pos <= cur,
            cur <= input@.len(),
            (match spec_dimids(input@, cur as int, v, (k - i) as nat) {
                Ok((rest, pe)) => spec_dimids(input@, pos as int, v, k as nat) == Ok::<
                    (Seq<u64>, int),
                    DecodeError,
                >((ids@ + rest, pe)),
                Err(e) => spec_dimids(input@, pos as int, v, k as nat) == Err::<
                    (Seq<u64>, int),
                    DecodeError,
                >(e),
            }),
        decreases k - i,
    {
        let ghost old_ids = ids@;
        let (id, p2) = match read_count(input, cur, v) {
            Ok(x) => x,
            Err(e) => {
                return Err(e);
            },
        };
        ids.push(id);
        cur = p2;
        i = i + 1;
        proof {
            assert(ids@ =~= old_ids + seq![id]);
            match spec_dimids(input@, cur as int, v, (k - i) as nat) {
                Ok((rest2, pe)) => {
                    assert(old_ids + (seq![id] + rest2) =~= (old_ids + seq![id]) + rest2);
                },
                Err(e) => {},
            }
        }
    }
    proof {
        assert(ids@ + Seq::<u64>::empty() =~= ids@);
    }
    Ok((ids, cur))
}

/// One variable entry: name, dimension ids, nested attribute list, type tag,
/// per-record size, and data offset.
fn read_var(input: &[u8], pos: usize, v: Version) -> (r: Result<(Variable, usize), DecodeError>)
    requires
        pos <= input@.len(),
    ensures
        (match r {
            Ok((entry, p)) => spec_var(input@, pos as int, v) == Ok::<
                (VariableV, int),
                DecodeError,
            >((entry.deep_view(), p as int)) && pos <= p && p <= input@.len(),
            Err(e) => spec_var(input@, pos as int, v) == Err::<(VariableV, int), DecodeError>(e),
        }),
{
    proof {
        reveal(spec_var);
    }
    let (name, p1) = match read_name(input, pos, v) {
        Ok(x) => x,
        Err(e) => {
            return Err(e);
        },
    };
    let (k, p2) = match read_count(input, p1, v) {
        Ok(x) => x,
        Err(e) => {
            return Err(e);
        },
    };
    let (dimids, p3) = match read_dimids(input, p2, v, k) {
        Ok(x) => x,
        Err(e) => {
            return Err(e);
        },
    };
    let (atts, p4) = match read_att_list(input, p3, v) {
        Ok(x) => x,
        Err(e) => {
            return Err(e);
        },
    };
    let (typ, p5) = match read_type(input, p4) {
        Ok(x) => x,
        Err(e) => {
            return Err(e);
        },
    };
    let (vsize, p6) = match read_count(input, p5, v) {
        Ok(x) => x,
        Err(e) => {
            return Err(e);
        },
    };
    let (begin, p7) = match read_offset(input, p6, v) {
        Ok(x) => x,
        Err(e) => {
            return Err(e);
        },
    };
    Ok((Variable { name, dimids, atts, typ, vsize, begin }, p7))
}

/// The variable list: the absent marker, or tag 0x0000000B, a count, and that
/// many entries.
#[verifier::rlimit(100)]
fn read_var_list(input: &[u8], pos: usize, v: Version) -> (r: Result<
    (Option<Vec<Variable>>, usize),
    DecodeError,
>)
    requires
        pos <= input@.len(),
    ensures
        (match r {
            Ok((vl, p)) => spec_var_list(input@, pos as int, v) == Ok::<
                (Option<Seq<VariableV>>, int),
                DecodeError,
            >((vl.deep_view(), p as int)) && pos <= p && p <= input@.len(),
            Err(e) => spec_var_list(input@, pos as int, v) == Err::<
                (Option<Seq<VariableV>>, int),
                DecodeError,
            >(e),
        }),
{
    proof {
        vstd::slice::axiom_spec_len(input);
    }
    if is_absent(input, pos, v) {
        let w: usize = match v {
            Version::CDF1 | Version::CDF2 => 4,
            Version::CDF5 => 8,
        };
        return Ok((None, pos + 4 + w));
    }
    if !has_tag(input, pos, 0x0b) {
        return Err(DecodeError::MalformedListMarker);
    }
    let (k, p1) = match read_count(input, pos + 4, v) {
        Ok(x) => x,
        Err(e) => {
            return Err(e);
        },
    };
    let mut vars: Vec<Variable> = Vec::new();
    let mut i: u64 = 0;
    let mut cur: usize = p1;
    proof {
        assert(vars.deep_view() =~= Seq::<VariableV>::empty());
        match spec_var_entries(input@, p1 as int, v, k as nat) {
            Ok((rest, pe)) => {
                assert(Seq::<VariableV>::empty() + rest =~= rest);
            },
            Err(e) => {},
        }
    }
    while i < k
        invariant
            i <= k,
            pos <= cur,
            cur <= input@.len(),
            !absent_at(input@, pos as int, v),
            tag_at(input@, pos as int, 0x0bu8),
            spec_count(input@, pos as int + 4, v) == Ok::<(u64, int), DecodeError>(
                (k, p1 as int),
            ),
            (match spec_var_entries(input@, cur as int, v, (k - i) as nat) {
                Ok((rest, pe)) => spec_var_entries(input@, p1 as int, v, k as nat) == Ok::<
                    (Seq<VariableV>, int),
                    DecodeError,
                >((vars.deep_view() + rest, pe)),
                Err(e) => spec_var_entries(input@, p1 as int, v, k as nat) == Err::<
                    (Seq<VariableV>, int),
                    DecodeError,
                >(e),
            }),
        decreases k - i,
    {
        let ghost old_dv = vars.deep_view();
        let (entry, p2) = match read_var(input, cur, v) {
            Ok(x) => x,
            Err(e) => {
                return Err(e);
            },
        };
        vars.push(entry);
        cur = p2;
        i = i + 1;
        proof {
            let ev = entry.deep_view();
            assert(vars.deep_view() =~= old_dv + seq![ev]);
            match spec_var_entries(input@, cur as int, v, (k - i) as nat) {
                Ok((rest2, pe)) => {
                    assert(old_dv + (seq![ev] + rest2) =~= (old_dv + seq![ev]) + rest2);
                },
                Err(e) => {},
            }
        }
    }
    proof {
        assert(vars.deep_view() + Seq::<VariableV>::empty() =~= vars.deep_view());
    }
    Ok((Some(vars), cur))
}

/// The magic: the bytes "CDF" then a version byte of 1, 2 or 5.
fn read_magic(input: &[u8]) -> (r: Result<(Version, usize), DecodeError>)
    ensures
        (match r {
            Ok((v, p)) => spec_magic(input@) == Ok::<(Version, int), DecodeError>((v, p as int))
                && p <= input@.len(),
            Err(e) => spec_magic(input@) == Err::<(Version, int), DecodeError>(e),
        }),
{
    if input.len() < 3 || input[0] != 0x43 || input[1] != 0x44 || input[2] != 0x46 {
        return Err(DecodeError::BadMagic);
    }
    if input.len() < 4 {
        return Err(DecodeError::UnknownVersion);
    }
    let b = input[3];
    if b == 1 {
        Ok((Version::CDF1, 4))
    } else if b == 2 {
        Ok((Version::CDF2, 4))
    } else if b == 5 {
        Ok((Version::CDF5, 4))
    } else {
        Err(DecodeError::UnknownVersion)
    }
}

/// Decodes the header at the start of `input` and returns it together with
/// the position just past it, where the data section begins. Succeeds exactly
/// where the header grammar does, with the value and position it gives, and
/// fails with the error it gives otherwise.
pub fn cdf_parser(input: &[u8]) -> (r: Result<(FileHeader, usize), DecodeError>)
    ensures
        (match r {
            Ok((h, p)) => spec_header(input@) == Ok::<(FileHeaderV, int), DecodeError>(
                (h.deep_view(), p as int),
            ) && p <= input@.len(),
            Err(e) => spec_header(input@) == Err::<(FileHeaderV, int), DecodeError>(e),
        }),
{
    let (version, p0) = match read_magic(input) {
        Ok(x) => x,
        Err(e) => {
            return Err(e);
        },
    };
    let (numrecs, p1) = match read_numrecs(input, p0, version) {
        Ok(x) => x,
        Err(e) => {
            return Err(e);
        },
    };
    let (dim_list, p2) = match read_dim_list(input, p1, version) {
        Ok(x) => x,
        Err(e) => {
            return Err(e);
        },
    };
    let (gatt_list, p3) = match read_att_list(input, p2, version) {
        Ok(x) => x,
        Err(e) => {
            return Err(e);
        },
    };
    let (var_list, p4) = match read_var_list(input, p3, version) {
        Ok(x) => x,
        Err(e) => {
            return Err(e);
        },
    };
    Ok((FileHeader { version, numrecs, dim_list, gatt_list, var_list }, p4))
}

/// Core entry point: decodes the header of the whole file's bytes.
pub fn decode_header(input: &[u8]) -> (r: Result<FileHeader, DecodeError>)
    ensures
        (match r {
            Ok(h) => (spec_header(input@) matches Ok(x) && x.0 == h.deep_view()),
            Err(e) => spec_header(input@) == Err::<(FileHeaderV, int), DecodeError>(e),
        }),
{
    match cdf_parser(input) {
        Ok((h, _)) => Ok(h),
        Err(e) => Err(e),
    }
}

/// Companion entry point: the decoded header plus the untouched trailing
/// bytes after it, the file's data section.
pub fn decode_file(input: &[u8]) -> (r: Result<File, DecodeError>)
    ensures
        (match r {
            Ok(f) => (spec_header(input@) matches Ok(x) && x.0 == f.header.deep_view() && f.data@
                == input@.subrange(x.1, input@.len() as int)),
            Err(e) => spec_header(input@) == Err::<(FileHeaderV, int), DecodeError>(e),
        }),
{
    let (header, p) = match cdf_parser(input) {
        Ok(x) => x,
        Err(e) => {
            return Err(e);
        },
    };
    let data = slice_to_vec(slice_subrange(input, p, input.len()));
    Ok(File { header, data })
}

} // verus!
