//! Mathematical description of the header grammar: one spec-level parse
//! function per production, each mapping the buffer and an absolute position
//! to either the decoded value with the position just past it, or the error
//! the decoder reports there. The executable decoder is proved to return
//! exactly what these functions say.

use vstd::prelude::*;

use crate::types::AttributeV;
use crate::types::DecodeError;
use crate::types::DimensionV;
use crate::types::FileHeaderV;
use crate::types::Type;
use crate::types::VariableV;
use crate::types::Version;

verus! {

/// Width in bytes of every count/size field for a format generation.
pub open spec fn count_width(v: Version) -> int {
    match v {
        Version::CDF1 | Version::CDF2 => 4,
        Version::CDF5 => 8,
    }
}

/// Width in bytes of a variable's data-offset ("begin") field. This is a
/// second, independent width decision: CDF-1 keeps 32-bit offsets while
/// CDF-2 and CDF-5 use 64-bit ones.
pub open spec fn offset_width(v: Version) -> int {
    match v {
        Version::CDF1 => 4,
        Version::CDF2 | Version::CDF5 => 8,
    }
}

/// Big-endian value of the 4 bytes of `s` starting at `p`.
pub open spec fn be32_at(s: Seq<u8>, p: int) -> int {
    s[p] as int * 0x100_0000 + s[p + 1] as int * 0x1_0000 + s[p + 2] as int * 0x100 + s[p
        + 3] as int
}

/// Big-endian value of the 8 bytes of `s` starting at `p`.
pub open spec fn be64_at(s: Seq<u8>, p: int) -> int {
    s[p] as int * 0x100_0000_0000_0000 + s[p + 1] as int * 0x1_0000_0000_0000 + s[p
        + 2] as int * 0x100_0000_0000 + s[p + 3] as int * 0x1_0000_0000 + s[p
        + 4] as int * 0x100_0000 + s[p + 5] as int * 0x1_0000 + s[p + 6] as int * 0x100 + s[p
        + 7] as int
}

/// Number of filler bytes from absolute position `p` to the next 4-byte
/// boundary, measured from the start of the whole buffer.
pub open spec fn pad_len(p: int) -> int {
    (4 - (p % 4)) % 4
}

/// Whether the "record count unknown" sentinel stands at `p`: all-1 bits over
/// one count field (4 bytes for CDF-1/CDF-2, 8 for CDF-5).
pub open spec fn sentinel_at(s: Seq<u8>, p: int, v: Version) -> bool {
    match v {
        Version::CDF1 | Version::CDF2 => p + 4 <= s.len() && s[p] == 0xffu8 && s[p + 1] == 0xffu8
            && s[p + 2] == 0xffu8 && s[p + 3] == 0xffu8,
        Version::CDF5 => p + 8 <= s.len() && s[p] == 0xffu8 && s[p + 1] == 0xffu8 && s[p + 2]
            == 0xffu8 && s[p + 3] == 0xffu8 && s[p + 4] == 0xffu8 && s[p + 5] == 0xffu8 && s[p + 6]
            == 0xffu8 && s[p + 7] == 0xffu8,
    }
}

/// Whether the absent-list marker stands at `p`: an all-0 4-byte tag field
/// followed by an all-0 count field (8 zero bytes in all for CDF-1/CDF-2,
/// 12 for CDF-5).
pub open spec fn absent_at(s: Seq<u8>, p: int, v: Version) -> bool {
    match v {
        Version::CDF1 | Version::CDF2 => p + 8 <= s.len() && s[p] == 0u8 && s[p + 1] == 0u8 && s[p
            + 2] == 0u8 && s[p + 3] == 0u8 && s[p + 4] == 0u8 && s[p + 5] == 0u8 && s[p + 6] == 0u8
            && s[p + 7] == 0u8,
        Version::CDF5 => p + 12 <= s.len() && s[p] == 0u8 && s[p + 1] == 0u8 && s[p + 2] == 0u8
            && s[p + 3] == 0u8 && s[p + 4] == 0u8 && s[p + 5] == 0u8 && s[p + 6] == 0u8 && s[p + 7]
            == 0u8 && s[p + 8] == 0u8 && s[p + 9] == 0u8 && s[p + 10] == 0u8 && s[p + 11] == 0u8,
    }
}

/// Whether the 4-byte list tag `tag` stands at `p`.
pub open spec fn tag_at(s: Seq<u8>, p: int, tag: u8) -> bool {
    p + 4 <= s.len() && s[p] == 0u8 && s[p + 1] == 0u8 && s[p + 2] == 0u8 && s[p + 3] == tag
}

/// One count/size field: a big-endian unsigned integer one count width wide.
pub open spec fn spec_count(s: Seq<u8>, p: int, v: Version) -> Result<(u64, int), DecodeError> {
    if count_width(v) == 4 {
        if p + 4 <= s.len() {
            Ok((be32_at(s, p) as u64, p + 4))
        } else {
            Err(DecodeError::Truncated)
        }
    } else {
        if p + 8 <= s.len() {
            Ok((be64_at(s, p) as u64, p + 8))
        } else {
            Err(DecodeError::Truncated)
        }
    }
}

/// The record-count field: the sentinel decodes to "unknown" (`None`), any
/// other value of matching width to the known count.
pub open spec fn spec_numrecs(s: Seq<u8>, p: int, v: Version) -> Result<
    (Option<u64>, int),
    DecodeError,
> {
    if sentinel_at(s, p, v) {
        Ok((None, p + count_width(v)))
    } else {
        match spec_count(s, p, v) {
            Ok((n, p1)) => Ok((Some(n), p1)),
            Err(e) => Err(e),
        }
    }
}

/// What UTF-8 validation of a byte sequence yields: `None` where the bytes are
/// not valid UTF-8, otherwise the decoded characters. The decoder relies on
/// the standard library for this; the result depends on the bytes alone.
pub uninterp spec fn utf8_decode(bytes: Seq<u8>) -> Option<Seq<char>>;

/// One name: a count field giving the byte length, that many bytes of UTF-8
/// text, then padding to the next 4-byte boundary of the absolute position.
#[verifier::opaque]
pub open spec fn spec_name(s: Seq<u8>, p: int, v: Version) -> Result<(Seq<char>, int), DecodeError> {
    match spec_count(s, p, v) {
        Err(e) => Err(e),
        Ok((n, p1)) => {
            if p1 + n as int <= s.len() {
                match utf8_decode(s.subrange(p1, p1 + n as int)) {
                    None => Err(DecodeError::InvalidUtf8),
                    Some(t) => {
                        let p2 = p1 + n as int;
                        if p2 + pad_len(p2) <= s.len() {
                            Ok((t, p2 + pad_len(p2)))
                        } else {
                            Err(DecodeError::Truncated)
                        }
                    },
                }
            } else {
                Err(DecodeError::Truncated)
            }
        },
    }
}

/// Which element type a tag's low byte selects, given the three high bytes
/// are zero.
pub open spec fn type_of_tag(b: u8) -> Option<Type> {
    if b == 1 {
        Some(Type::Char)
    } else if b == 2 {
        Some(Type::I8)
    } else if b == 3 {
        Some(Type::I16)
    } else if b == 4 {
        Some(Type::I32)
    } else if b == 5 {
        Some(Type::F32)
    } else if b == 6 {
        Some(Type::F64)
    } else if b == 7 {
        Some(Type::U8)
    } else if b == 8 {
        Some(Type::U16)
    } else if b == 9 {
        Some(Type::U32)
    } else if b == 10 {
        Some(Type::I64)
    } else if b == 11 {
        Some(Type::U64)
    } else {
        None
    }
}

/// One fixed 4-byte big-endian type tag.
pub open spec fn spec_type(s: Seq<u8>, p: int) -> Result<(Type, int), DecodeError> {
    if p + 4 <= s.len() {
        if s[p] == 0u8 && s[p + 1] == 0u8 && s[p + 2] == 0u8 {
            match type_of_tag(s[p + 3]) {
                Some(t) => Ok((t, p + 4)),
                None => Err(DecodeError::UnknownType),
            }
        } else {
            Err(DecodeError::UnknownType)
        }
    } else {
        Err(DecodeError::Truncated)
    }
}

/// One dimension entry: a name followed by one count field, the dimension
/// length.
pub open spec fn spec_dim(s: Seq<u8>, p: int, v: Version) -> Result<(DimensionV, int), DecodeError> {
    match spec_name(s, p, v) {
        Err(e) => Err(e),
        Ok((name, p1)) => match spec_count(s, p1, v) {
            Err(e) => Err(e),
            Ok((len, p2)) => Ok((DimensionV { name, len }, p2)),
        },
    }
}

/// Exactly `k` dimension entries in sequence.
pub open spec fn spec_dim_entries(s: Seq<u8>, p: int, v: Version, k: nat) -> Result<
    (Seq<DimensionV>, int),
    DecodeError,
>
    decreases k,
{
    if k == 0 {
        Ok((Seq::empty(), p))
    } else {
        match spec_dim(s, p, v) {
            Err(e) => Err(e),
            Ok((d, p1)) => match spec_dim_entries(s, p1, v, (k - 1) as nat) {
                Err(e) => Err(e),
                Ok((rest, p2)) => Ok((seq![d] + rest, p2)),
            },
        }
    }
}

/// The dimension list: the absent marker, or the tag 0x0000000A, a count `k`,
/// and `k` entries.
pub open spec fn spec_dim_list(s: Seq<u8>, p: int, v: Version) -> Result<
    (Option<Seq<DimensionV>>, int),
    DecodeError,
> {
    if absent_at(s, p, v) {
        Ok((None, p + 4 + count_width(v)))
    } else if tag_at(s, p, 0x0au8) {
        match spec_count(s, p + 4, v) {
            Err(e) => Err(e),
            Ok((k, p1)) => match spec_dim_entries(s, p1, v, k as nat) {
                Err(e) => Err(e),
                Ok((ds, p2)) => Ok((Some(ds), p2)),
            },
        }
    } else {
        Err(DecodeError::MalformedListMarker)
    }
}

/// One attribute entry: a name, a type tag, an element count, the value bytes
/// (element count times the type's byte size, kept opaque), then padding.
#[verifier::opaque]
pub open spec fn spec_attr(s: Seq<u8>, p: int, v: Version) -> Result<(AttributeV, int), DecodeError> {
    match spec_name(s, p, v) {
        Err(e) => Err(e),
        Ok((name, p1)) => match spec_type(s, p1) {
            Err(e) => Err(e),
            Ok((typ, p2)) => match spec_count(s, p2, v) {
                Err(e) => Err(e),
                Ok((nelems, p3)) => {
                    let nbytes = nelems as int * typ.spec_byte_size() as int;
                    if p3 + nbytes <= s.len() {
                        let p4 = p3 + nbytes;
                        if p4 + pad_len(p4) <= s.len() {
                            Ok(
                                (
                                    AttributeV { name, typ, data: s.subrange(p3, p4) },
                                    p4 + pad_len(p4),
                                ),
                            )
                        } else {
                            Err(DecodeError::Truncated)
                        }
                    } else {
                        Err(DecodeError::Truncated)
                    }
                },
            },
        },
    }
}

/// Exactly `k` attribute entries in sequence.
pub open spec fn spec_attr_entries(s: Seq<u8>, p: int, v: Version, k: nat) -> Result<
    (Seq<AttributeV>, int),
    DecodeError,
>
    decreases k,
{
    if k == 0 {
        Ok((Seq::empty(), p))
    } else {
        match spec_attr(s, p, v) {
            Err(e) => Err(e),
            Ok((a, p1)) => match spec_attr_entries(s, p1, v, (k - 1) as nat) {
                Err(e) => Err(e),
                Ok((rest, p2)) => Ok((seq![a] + rest, p2)),
            },
        }
    }
}

/// An attribute list: the absent marker, or the tag 0x0000000C, a count `k`,
/// and `k` entries. Used verbatim for the global list and for each variable's
/// own list.
pub open spec fn spec_att_list(s: Seq<u8>, p: int, v: Version) -> Result<
    (Option<Seq<AttributeV>>, int),
    DecodeError,
> {
    if absent_at(s, p, v) {
        Ok((None, p + 4 + count_width(v)))
    } else if tag_at(s, p, 0x0cu8) {
        match spec_count(s, p + 4, v) {
            Err(e) => Err(e),
            Ok((k, p1)) => match spec_attr_entries(s, p1, v, k as nat) {
                Err(e) => Err(e),
                Ok((atts, p2)) => Ok((Some(atts), p2)),
            },
        }
    } else {
        Err(DecodeError::MalformedListMarker)
    }
}

/// Exactly `k` dimension-id fields, each one count field wide.
pub open spec fn spec_dimids(s: Seq<u8>, p: int, v: Version, k: nat) -> Result<
    (Seq<u64>, int),
    DecodeError,
>
    decreases k,
{
    if k == 0 {
        Ok((Seq::empty(), p))
    } else {
        match spec_count(s, p, v) {
            Err(e) => Err(e),
            Ok((id, p1)) => match spec_dimids(s, p1, v, (k - 1) as nat) {
                Err(e) => Err(e),
                Ok((rest, p2)) => Ok((seq![id] + rest, p2)),
            },
        }
    }
}

/// The data-offset ("begin") field: 4 bytes widened to 64 bits for CDF-1,
/// 8 bytes for CDF-2 and CDF-5.
pub open spec fn spec_offset(s: Seq<u8>, p: int, v: Version) -> Result<(u64, int), DecodeError> {
    if offset_width(v) == 4 {
        if p + 4 <= s.len() {
            Ok((be32_at(s, p) as u64, p + 4))
        } else {
            Err(DecodeError::Truncated)
        }
    } else {
        if p + 8 <= s.len() {
            Ok((be64_at(s, p) as u64, p + 8))
        } else {
            Err(DecodeError::Truncated)
        }
    }
}

/// One variable entry: a name, a count of dimension ids, the ids, a nested
/// attribute list, a type tag, the per-record size, and the data offset.
#[verifier::opaque]
pub open spec fn spec_var(s: Seq<u8>, p: int, v: Version) -> Result<(VariableV, int), DecodeError> {
    match spec_name(s, p, v) {
        Err(e) => Err(e),
        Ok((name, p1)) => match spec_count(s, p1, v) {
            Err(e) => Err(e),
            Ok((k, p2)) => match spec_dimids(s, p2, v, k as nat) {
                Err(e) => Err(e),
                Ok((dimids, p3)) => match spec_att_list(s, p3, v) {
                    Err(e) => Err(e),
                    Ok((atts, p4)) => match spec_type(s, p4) {
                        Err(e) => Err(e),
                        Ok((typ, p5)) => match spec_count(s, p5, v) {
                            Err(e) => Err(e),
                            Ok((vsize, p6)) => match spec_offset(s, p6, v) {
                                Err(e) => Err(e),
                                Ok((begin, p7)) => Ok(
                                    (VariableV { name, dimids, atts, typ, vsize, begin }, p7),
                                ),
                            },
                        },
                    },
                },
            },
        },
    }
}

/// Exactly `k` variable entries in sequence.
pub open spec fn spec_var_entries(s: Seq<u8>, p: int, v: Version, k: nat) -> Result<
    (Seq<VariableV>, int),
    DecodeError,
>
    decreases k,
{
    if k == 0 {
        Ok((Seq::empty(), p))
    } else {
        match spec_var(s, p, v) {
            Err(e) => Err(e),
            Ok((entry, p1)) => match spec_var_entries(s, p1, v, (k - 1) as nat) {
                Err(e) => Err(e),
                Ok((rest, p2)) => Ok((seq![entry] + rest, p2)),
            },
        }
    }
}

/// The variable list: the absent marker, or the tag 0x0000000B, a count `k`,
/// and `k` entries.
pub open spec fn spec_var_list(s: Seq<u8>, p: int, v: Version) -> Result<
    (Option<Seq<VariableV>>, int),
    DecodeError,
> {
    if absent_at(s, p, v) {
        Ok((None, p + 4 + count_width(v)))
    } else if tag_at(s, p, 0x0bu8) {
        match spec_count(s, p + 4, v) {
            Err(e) => Err(e),
            Ok((k, p1)) => match spec_var_entries(s, p1, v, k as nat) {
                Err(e) => Err(e),
                Ok((vars, p2)) => Ok((Some(vars), p2)),
            },
        }
    } else {
        Err(DecodeError::MalformedListMarker)
    }
}

/// The magic: the bytes "CDF" followed by a version byte of 1, 2 or 5.
pub open spec fn spec_magic(s: Seq<u8>) -> Result<(Version, int), DecodeError> {
    if s.len() >= 3 && s[0] == 0x43u8 && s[1] == 0x44u8 && s[2] == 0x46u8 {
        if s.len() >= 4 {
            if s[3] == 1u8 {
                Ok((Version::CDF1, 4))
            } else if s[3] == 2u8 {
                Ok((Version::CDF2, 4))
            } else if s[3] == 5u8 {
                Ok((Version::CDF5, 4))
            } else {
                Err(DecodeError::UnknownVersion)
            }
        } else {
            Err(DecodeError::UnknownVersion)
        }
    } else {
        Err(DecodeError::BadMagic)
    }
}

/// The whole header, in fixed order: magic and version, record count,
/// dimension list, global attribute list, variable list. The position in the
/// result is where the data section begins.
pub open spec fn spec_header(s: Seq<u8>) -> Result<(FileHeaderV, int), DecodeError> {
    match spec_magic(s) {
        Err(e) => Err(e),
        Ok((version, p0)) => match spec_numrecs(s, p0, version) {
            Err(e) => Err(e),
            Ok((numrecs, p1)) => match spec_dim_list(s, p1, version) {
                Err(e) => Err(e),
                Ok((dim_list, p2)) => match spec_att_list(s, p2, version) {
                    Err(e) => Err(e),
                    Ok((gatt_list, p3)) => match spec_var_list(s, p3, version) {
                        Err(e) => Err(e),
                        Ok((var_list, p4)) => Ok(
                            (
                                FileHeaderV { version, numrecs, dim_list, gatt_list, var_list },
                                p4,
                            ),
                        ),
                    },
                },
            },
        },
    }
}

} // verus!
