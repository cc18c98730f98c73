//! Laws of the header grammar, proved once and for all: the sentinel and
//! absent-marker encodings, the padding rule, the offset widths, a round trip
//! for minimal headers, and that a valid header is decoded from its own bytes
//! alone, whatever follows it.

use vstd::prelude::*;

use crate::grammar::absent_at;
use crate::grammar::be32_at;
use crate::grammar::be64_at;
use crate::grammar::count_width;
use crate::grammar::offset_width;
use crate::grammar::pad_len;
use crate::grammar::sentinel_at;
use crate::grammar::spec_att_list;
use crate::grammar::spec_attr;
use crate::grammar::spec_attr_entries;
use crate::grammar::spec_count;
use crate::grammar::spec_dim;
use crate::grammar::spec_dim_entries;
use crate::grammar::spec_dim_list;
use crate::grammar::spec_dimids;
use crate::grammar::spec_header;
use crate::grammar::spec_magic;
use crate::grammar::spec_name;
use crate::grammar::spec_numrecs;
use crate::grammar::spec_offset;
use crate::grammar::spec_type;
use crate::grammar::spec_var;
use crate::grammar::spec_var_entries;
use crate::grammar::spec_var_list;
use crate::grammar::tag_at;
use crate::types::AttributeV;
use crate::types::DecodeError;
use crate::types::DimensionV;
use crate::types::FileHeaderV;
use crate::types::VariableV;
use crate::types::Version;

verus! {

/// The position just past a successful parse.
pub open spec fn parse_end<T>(r: Result<(T, int), DecodeError>) -> int {
    r->Ok_0.1
}

/// The two buffers hold the same bytes on `[lo, hi)`, and the second is long
/// enough to contain that range.
pub open spec fn agree_on(s1: Seq<u8>, s2: Seq<u8>, lo: int, hi: int) -> bool {
    s2.len() >= hi && (forall|i: int| lo <= i < hi ==> s1[i] == #[trigger] s2[i])
}

proof fn lemma_count_bounds(s: Seq<u8>, p: int, v: Version)
    requires
        0 <= p,
        spec_count(s, p, v) is Ok,
    ensures
        p <= parse_end(spec_count(s, p, v)) <= s.len(),
        parse_end(spec_count(s, p, v)) == p + count_width(v),
{
}

proof fn lemma_offset_bounds(s: Seq<u8>, p: int, v: Version)
    requires
        0 <= p,
        spec_offset(s, p, v) is Ok,
    ensures
        p <= parse_end(spec_offset(s, p, v)) <= s.len(),
{
}

proof fn lemma_type_bounds(s: Seq<u8>, p: int)
    requires
        0 <= p,
        spec_type(s, p) is Ok,
    ensures
        p <= parse_end(spec_type(s, p)) <= s.len(),
{
}

proof fn lemma_numrecs_bounds(s: Seq<u8>, p: int, v: Version)
    requires
        0 <= p,
        spec_numrecs(s, p, v) is Ok,
    ensures
        p <= parse_end(spec_numrecs(s, p, v)) <= s.len(),
{
}

proof fn lemma_name_bounds(s: Seq<u8>, p: int, v: Version)
    requires
        0 <= p,
        spec_name(s, p, v) is Ok,
    ensures
        p <= parse_end(spec_name(s, p, v)) <= s.len(),
{
    reveal(spec_name);
}

proof fn lemma_dim_bounds(s: Seq<u8>, p: int, v: Version)
    requires
        0 <= p,
        spec_dim(s, p, v) is Ok,
    ensures
        p <= parse_end(spec_dim(s, p, v)) <= s.len(),
{
    lemma_name_bounds(s, p, v);
}

proof fn lemma_dim_entries_bounds(s: Seq<u8>, p: int, v: Version, k: nat)
    requires
        0 <= p,
        spec_dim_entries(s, p, v, k) is Ok,
    ensures
        p <= parse_end(spec_dim_entries(s, p, v, k)),
        k == 0 ==> parse_end(spec_dim_entries(s, p, v, k)) == p,
        k > 0 ==> parse_end(spec_dim_entries(s, p, v, k)) <= s.len(),
    decreases k,
{
    if k > 0 {
        lemma_dim_bounds(s, p, v);
        let p1 = parse_end(spec_dim(s, p, v));
        lemma_dim_entries_bounds(s, p1, v, (k - 1) as nat);
    }
}

proof fn lemma_dim_list_bounds(s: Seq<u8>, p: int, v: Version)
    requires
        0 <= p,
        spec_dim_list(s, p, v) is Ok,
    ensures
        p <= parse_end(spec_dim_list(s, p, v)) <= s.len(),
{
    if !absent_at(s, p, v) {
        lemma_count_bounds(s, p + 4, v);
        let p1 = parse_end(spec_count(s, p + 4, v));
        let k = spec_count(s, p + 4, v)->Ok_0.0;
        lemma_dim_entries_bounds(s, p1, v, k as nat);
    }
}

proof fn lemma_attr_bounds(s: Seq<u8>, p: int, v: Version)
    requires
        0 <= p,
        spec_attr(s, p, v) is Ok,
    ensures
        p <= parse_end(spec_attr(s, p, v)) <= s.len(),
{
    reveal(spec_attr);
    lemma_name_bounds(s, p, v);
    let p1 = parse_end(spec_name(s, p, v));
    let p2 = parse_end(spec_type(s, p1));
    let p3 = parse_end(spec_count(s, p2, v));
    let nelems = spec_count(s, p2, v)->Ok_0.0;
    let typ = spec_type(s, p1)->Ok_0.0;
    vstd::arithmetic::mul::lemma_mul_nonnegative(nelems as int, typ.spec_byte_size() as int);
}

proof fn lemma_attr_entries_bounds(s: Seq<u8>, p: int, v: Version, k: nat)
    requires
        0 <= p,
        spec_attr_entries(s, p, v, k) is Ok,
    ensures
        p <= parse_end(spec_attr_entries(s, p, v, k)),
        k == 0 ==> parse_end(spec_attr_entries(s, p, v, k)) == p,
        k > 0 ==> parse_end(spec_attr_entries(s, p, v, k)) <= s.len(),
    decreases k,
{
    if k > 0 {
        lemma_attr_bounds(s, p, v);
        let p1 = parse_end(spec_attr(s, p, v));
        lemma_attr_entries_bounds(s, p1, v, (k - 1) as nat);
    }
}

proof fn lemma_att_list_bounds(s: Seq<u8>, p: int, v: Version)
    requires
        0 <= p,
        spec_att_list(s, p, v) is Ok,
    ensures
        p <= parse_end(spec_att_list(s, p, v)) <= s.len(),
{
    if !absent_at(s, p, v) {
        lemma_count_bounds(s, p + 4, v);
        let p1 = parse_end(spec_count(s, p + 4, v));
        let k = spec_count(s, p + 4, v)->Ok_0.0;
        lemma_attr_entries_bounds(s, p1, v, k as nat);
    }
}

proof fn lemma_dimids_bounds(s: Seq<u8>, p: int, v: Version, k: nat)
    requires
        0 <= p,
        spec_dimids(s, p, v, k) is Ok,
    ensures
        p <= parse_end(spec_dimids(s, p, v, k)),
        k == 0 ==> parse_end(spec_dimids(s, p, v, k)) == p,
        k > 0 ==> parse_end(spec_dimids(s, p, v, k)) <= s.len(),
    decreases k,
{
    if k > 0 {
        lemma_count_bounds(s, p, v);
        let p1 = parse_end(spec_count(s, p, v));
        lemma_dimids_bounds(s, p1, v, (k - 1) as nat);
    }
}

proof fn lemma_var_bounds(s: Seq<u8>, p: int, v: Version)
    requires
        0 <= p,
        spec_var(s, p, v) is Ok,
    ensures
        p <= parse_end(spec_var(s, p, v)) <= s.len(),
{
    reveal(spec_var);
    lemma_name_bounds(s, p, v);
    let p1 = parse_end(spec_name(s, p, v));
    lemma_count_bounds(s, p1, v);
    let p2 = parse_end(spec_count(s, p1, v));
    let k = spec_count(s, p1, v)->Ok_0.0;
    lemma_dimids_bounds(s, p2, v, k as nat);
    let p3 = parse_end(spec_dimids(s, p2, v, k as nat));
    lemma_att_list_bounds(s, p3, v);
    let p4 = parse_end(spec_att_list(s, p3, v));
    lemma_type_bounds(s, p4);
    let p5 = parse_end(spec_type(s, p4));
    lemma_count_bounds(s, p5, v);
    let p6 = parse_end(spec_count(s, p5, v));
    lemma_offset_bounds(s, p6, v);
}

proof fn lemma_var_entries_bounds(s: Seq<u8>, p: int, v: Version, k: nat)
    requires
        0 <= p,
        spec_var_entries(s, p, v, k) is Ok,
    ensures
        p <= parse_end(spec_var_entries(s, p, v, k)),
        k == 0 ==> parse_end(spec_var_entries(s, p, v, k)) == p,
        k > 0 ==> parse_end(spec_var_entries(s, p, v, k)) <= s.len(),
    decreases k,
{
    if k > 0 {
        lemma_var_bounds(s, p, v);
        let p1 = parse_end(spec_var(s, p, v));
        lemma_var_entries_bounds(s, p1, v, (k - 1) as nat);
    }
}

proof fn lemma_var_list_bounds(s: Seq<u8>, p: int, v: Version)
    requires
        0 <= p,
        spec_var_list(s, p, v) is Ok,
    ensures
        p <= parse_end(spec_var_list(s, p, v)) <= s.len(),
{
    if !absent_at(s, p, v) {
        lemma_count_bounds(s, p + 4, v);
        let p1 = parse_end(spec_count(s, p + 4, v));
        let k = spec_count(s, p + 4, v)->Ok_0.0;
        lemma_var_entries_bounds(s, p1, v, k as nat);
    }
}

proof fn lemma_count_stable(s1: Seq<u8>, s2: Seq<u8>, p: int, v: Version)
    requires
        0 <= p,
        spec_count(s1, p, v) is Ok,
        agree_on(s1, s2, p, parse_end(spec_count(s1, p, v))),
    ensures
        spec_count(s2, p, v) == spec_count(s1, p, v),
{
    assert(count_width(v) == 4 ==> be32_at(s2, p) == be32_at(s1, p));
    assert(count_width(v) == 8 ==> be64_at(s2, p) == be64_at(s1, p));
}

proof fn lemma_offset_stable(s1: Seq<u8>, s2: Seq<u8>, p: int, v: Version)
    requires
        0 <= p,
        spec_offset(s1, p, v) is Ok,
        agree_on(s1, s2, p, parse_end(spec_offset(s1, p, v))),
    ensures
        spec_offset(s2, p, v) == spec_offset(s1, p, v),
{
    assert(offset_width(v) == 4 ==> be32_at(s2, p) == be32_at(s1, p));
    assert(offset_width(v) == 8 ==> be64_at(s2, p) == be64_at(s1, p));
}

proof fn lemma_type_stable(s1: Seq<u8>, s2: Seq<u8>, p: int)
    requires
        0 <= p,
        spec_type(s1, p) is Ok,
        agree_on(s1, s2, p, parse_end(spec_type(s1, p))),
    ensures
        spec_type(s2, p) == spec_type(s1, p),
{
    assert(s2[p] == s1[p] && s2[p + 1] == s1[p + 1] && s2[p + 2] == s1[p + 2] && s2[p + 3] == s1[p
        + 3]);
}

proof fn lemma_numrecs_stable(s1: Seq<u8>, s2: Seq<u8>, p: int, v: Version)
    requires
        0 <= p,
        spec_numrecs(s1, p, v) is Ok,
        agree_on(s1, s2, p, parse_end(spec_numrecs(s1, p, v))),
    ensures
        spec_numrecs(s2, p, v) == spec_numrecs(s1, p, v),
{
    let w = count_width(v);
    assert(forall|i: int| p <= i < p + w ==> s1[i] == #[trigger] s2[i]);
    if sentinel_at(s1, p, v) {
        assert(sentinel_at(s2, p, v));
    } else {
        assert(parse_end(spec_count(s1, p, v)) == p + w);
        assert(!sentinel_at(s2, p, v));
        lemma_count_stable(s1, s2, p, v);
    }
}

proof fn lemma_name_stable(s1: Seq<u8>, s2: Seq<u8>, p: int, v: Version)
    requires
        0 <= p,
        spec_name(s1, p, v) is Ok,
        agree_on(s1, s2, p, parse_end(spec_name(s1, p, v))),
    ensures
        spec_name(s2, p, v) == spec_name(s1, p, v),
{
    reveal(spec_name);
    lemma_count_stable(s1, s2, p, v);
    let p1 = parse_end(spec_count(s1, p, v));
    let n = spec_count(s1, p, v)->Ok_0.0;
    assert(s1.subrange(p1, p1 + n as int) =~= s2.subrange(p1, p1 + n as int));
}

proof fn lemma_dim_stable(s1: Seq<u8>, s2: Seq<u8>, p: int, v: Version)
    requires
        0 <= p,
        spec_dim(s1, p, v) is Ok,
        agree_on(s1, s2, p, parse_end(spec_dim(s1, p, v))),
    ensures
        spec_dim(s2, p, v) == spec_dim(s1, p, v),
{
    lemma_name_bounds(s1, p, v);
    lemma_name_stable(s1, s2, p, v);
    let p1 = parse_end(spec_name(s1, p, v));
    lemma_count_stable(s1, s2, p1, v);
}

proof fn lemma_dim_entries_stable(s1: Seq<u8>, s2: Seq<u8>, p: int, v: Version, k: nat)
    requires
        0 <= p,
        spec_dim_entries(s1, p, v, k) is Ok,
        agree_on(s1, s2, p, parse_end(spec_dim_entries(s1, p, v, k))),
    ensures
        spec_dim_entries(s2, p, v, k) == spec_dim_entries(s1, p, v, k),
    decreases k,
{
    if k > 0 {
        lemma_dim_bounds(s1, p, v);
        let p1 = parse_end(spec_dim(s1, p, v));
        lemma_dim_entries_bounds(s1, p1, v, (k - 1) as nat);
        lemma_dim_stable(s1, s2, p, v);
        lemma_dim_entries_stable(s1, s2, p1, v, (k - 1) as nat);
    }
}

proof fn lemma_dim_list_stable(s1: Seq<u8>, s2: Seq<u8>, p: int, v: Version)
    requires
        0 <= p,
        spec_dim_list(s1, p, v) is Ok,
        agree_on(s1, s2, p, parse_end(spec_dim_list(s1, p, v))),
    ensures
        spec_dim_list(s2, p, v) == spec_dim_list(s1, p, v),
{
    let w = count_width(v);
    if absent_at(s1, p, v) {
        assert(forall|i: int| p <= i < p + 4 + w ==> s1[i] == #[trigger] s2[i]);
        assert(absent_at(s2, p, v));
    } else {
        lemma_count_bounds(s1, p + 4, v);
        let p1 = parse_end(spec_count(s1, p + 4, v));
        let k = spec_count(s1, p + 4, v)->Ok_0.0;
        lemma_dim_entries_bounds(s1, p1, v, k as nat);
        assert(forall|i: int| p <= i < p + 4 + w ==> s1[i] == #[trigger] s2[i]);
        assert(s2[p + 3] == 0x0au8);
        assert(!absent_at(s2, p, v));
        assert(tag_at(s2, p, 0x0au8));
        lemma_count_stable(s1, s2, p + 4, v);
        lemma_dim_entries_stable(s1, s2, p1, v, k as nat);
    }
}

proof fn lemma_attr_stable(s1: Seq<u8>, s2: Seq<u8>, p: int, v: Version)
    requires
        0 <= p,
        spec_attr(s1, p, v) is Ok,
        agree_on(s1, s2, p, parse_end(spec_attr(s1, p, v))),
    ensures
        spec_attr(s2, p, v) == spec_attr(s1, p, v),
{
    reveal(spec_attr);
    lemma_name_bounds(s1, p, v);
    lemma_name_stable(s1, s2, p, v);
    let p1 = parse_end(spec_name(s1, p, v));
    lemma_type_bounds(s1, p1);
    lemma_type_stable(s1, s2, p1);
    let p2 = parse_end(spec_type(s1, p1));
    lemma_count_bounds(s1, p2, v);
    lemma_count_stable(s1, s2, p2, v);
    let p3 = parse_end(spec_count(s1, p2, v));
    let nelems = spec_count(s1, p2, v)->Ok_0.0;
    let typ = spec_type(s1, p1)->Ok_0.0;
    let nbytes = nelems as int * typ.spec_byte_size() as int;
    vstd::arithmetic::mul::lemma_mul_nonnegative(nelems as int, typ.spec_byte_size() as int);
    assert(s1.subrange(p3, p3 + nbytes) =~= s2.subrange(p3, p3 + nbytes));
}

proof fn lemma_attr_entries_stable(s1: Seq<u8>, s2: Seq<u8>, p: int, v: Version, k: nat)
    requires
        0 <= p,
        spec_attr_entries(s1, p, v, k) is Ok,
        agree_on(s1, s2, p, parse_end(spec_attr_entries(s1, p, v, k))),
    ensures
        spec_attr_entries(s2, p, v, k) == spec_attr_entries(s1, p, v, k),
    decreases k,
{
    if k > 0 {
        lemma_attr_bounds(s1, p, v);
        let p1 = parse_end(spec_attr(s1, p, v));
        lemma_attr_entries_bounds(s1, p1, v, (k - 1) as nat);
        lemma_attr_stable(s1, s2, p, v);
        lemma_attr_entries_stable(s1, s2, p1, v, (k - 1) as nat);
    }
}

proof fn lemma_att_list_stable(s1: Seq<u8>, s2: Seq<u8>, p: int, v: Version)
    requires
        0 <= p,
        spec_att_list(s1, p, v) is Ok,
        agree_on(s1, s2, p, parse_end(spec_att_list(s1, p, v))),
    ensures
        spec_att_list(s2, p, v) == spec_att_list(s1, p, v),
{
    let w = count_width(v);
    if absent_at(s1, p, v) {
        assert(forall|i: int| p <= i < p + 4 + w ==> s1[i] == #[trigger] s2[i]);
        assert(absent_at(s2, p, v));
    } else {
        lemma_count_bounds(s1, p + 4, v);
        let p1 = parse_end(spec_count(s1, p + 4, v));
        let k = spec_count(s1, p + 4, v)->Ok_0.0;
        lemma_attr_entries_bounds(s1, p1, v, k as nat);
        assert(forall|i: int| p <= i < p + 4 + w ==> s1[i] == #[trigger] s2[i]);
        assert(s2[p + 3] == 0x0cu8);
        assert(!absent_at(s2, p, v));
        assert(tag_at(s2, p, 0x0cu8));
        lemma_count_stable(s1, s2, p + 4, v);
        lemma_attr_entries_stable(s1, s2, p1, v, k as nat);
    }
}

proof fn lemma_dimids_stable(s1: Seq<u8>, s2: Seq<u8>, p: int, v: Version, k: nat)
    requires
        0 <= p,
        spec_dimids(s1, p, v, k) is Ok,
        agree_on(s1, s2, p, parse_end(spec_dimids(s1, p, v, k))),
    ensures
        spec_dimids(s2, p, v, k) == spec_dimids(s1, p, v, k),
    decreases k,
{
    if k > 0 {
        lemma_count_bounds(s1, p, v);
        let p1 = parse_end(spec_count(s1, p, v));
        lemma_dimids_bounds(s1, p1, v, (k - 1) as nat);
        lemma_count_stable(s1, s2, p, v);
        lemma_dimids_stable(s1, s2, p1, v, (k - 1) as nat);
    }
}

proof fn lemma_var_stable(s1: Seq<u8>, s2: Seq<u8>, p: int, v: Version)
    requires
        0 <= p,
        spec_var(s1, p, v) is Ok,
        agree_on(s1, s2, p, parse_end(spec_var(s1, p, v))),
    ensures
        spec_var(s2, p, v) == spec_var(s1, p, v),
{
    reveal(spec_var);
    lemma_name_bounds(s1, p, v);
    let p1 = parse_end(spec_name(s1, p, v));
    lemma_count_bounds(s1, p1, v);
    let p2 = parse_end(spec_count(s1, p1, v));
    let k = spec_count(s1, p1, v)->Ok_0.0;
    lemma_dimids_bounds(s1, p2, v, k as nat);
    let p3 = parse_end(spec_dimids(s1, p2, v, k as nat));
    lemma_att_list_bounds(s1, p3, v);
    let p4 = parse_end(spec_att_list(s1, p3, v));
    lemma_type_bounds(s1, p4);
    let p5 = parse_end(spec_type(s1, p4));
    lemma_count_bounds(s1, p5, v);
    let p6 = parse_end(spec_count(s1, p5, v));
    lemma_offset_bounds(s1, p6, v);
    lemma_name_stable(s1, s2, p, v);
    lemma_count_stable(s1, s2, p1, v);
    lemma_dimids_stable(s1, s2, p2, v, k as nat);
    lemma_att_list_stable(s1, s2, p3, v);
    lemma_type_stable(s1, s2, p4);
    lemma_count_stable(s1, s2, p5, v);
    lemma_offset_stable(s1, s2, p6, v);
}

proof fn lemma_var_entries_stable(s1: Seq<u8>, s2: Seq<u8>, p: int, v: Version, k: nat)
    requires
        0 <= p,
        spec_var_entries(s1, p, v, k) is Ok,
        agree_on(s1, s2, p, parse_end(spec_var_entries(s1, p, v, k))),
    ensures
        spec_var_entries(s2, p, v, k) == spec_var_entries(s1, p, v, k),
    decreases k,
{
    if k > 0 {
        lemma_var_bounds(s1, p, v);
        let p1 = parse_end(spec_var(s1, p, v));
        lemma_var_entries_bounds(s1, p1, v, (k - 1) as nat);
        lemma_var_stable(s1, s2, p, v);
        lemma_var_entries_stable(s1, s2, p1, v, (k - 1) as nat);
    }
}

proof fn lemma_var_list_stable(s1: Seq<u8>, s2: Seq<u8>, p: int, v: Version)
    requires
        0 <= p,
        spec_var_list(s1, p, v) is Ok,
        agree_on(s1, s2, p, parse_end(spec_var_list(s1, p, v))),
    ensures
        spec_var_list(s2, p, v) == spec_var_list(s1, p, v),
{
    let w = count_width(v);
    if absent_at(s1, p, v) {
        assert(forall|i: int| p <= i < p + 4 + w ==> s1[i] == #[trigger] s2[i]);
        assert(absent_at(s2, p, v));
    } else {
        lemma_count_bounds(s1, p + 4, v);
        let p1 = parse_end(spec_count(s1, p + 4, v));
        let k = spec_count(s1, p + 4, v)->Ok_0.0;
        lemma_var_entries_bounds(s1, p1, v, k as nat);
        assert(forall|i: int| p <= i < p + 4 + w ==> s1[i] == #[trigger] s2[i]);
        assert(s2[p + 3] == 0x0bu8);
        assert(!absent_at(s2, p, v));
        assert(tag_at(s2, p, 0x0bu8));
        lemma_count_stable(s1, s2, p + 4, v);
        lemma_var_entries_stable(s1, s2, p1, v, k as nat);
    }
}

proof fn lemma_magic_stable(s1: Seq<u8>, s2: Seq<u8>)
    requires
        spec_magic(s1) is Ok,
        agree_on(s1, s2, 0, 4),
    ensures
        spec_magic(s2) == spec_magic(s1),
{
    assert(s2[0] == s1[0] && s2[1] == s1[1] && s2[2] == s1[2] && s2[3] == s1[3]);
}

/// A valid header is decoded from its own bytes alone: any buffer that holds
/// the same bytes up to the header's end decodes to the same header, ending
/// at the same position, whatever follows.
pub proof fn lemma_header_ignores_trailing_bytes(s1: Seq<u8>, s2: Seq<u8>)
    requires
        spec_header(s1) is Ok,
        agree_on(s1, s2, 0, parse_end(spec_header(s1))),
    ensures
        spec_header(s2) == spec_header(s1),
{
    let v = spec_magic(s1)->Ok_0.0;
    lemma_numrecs_bounds(s1, 4, v);
    let p1 = parse_end(spec_numrecs(s1, 4, v));
    lemma_dim_list_bounds(s1, p1, v);
    let p2 = parse_end(spec_dim_list(s1, p1, v));
    lemma_att_list_bounds(s1, p2, v);
    let p3 = parse_end(spec_att_list(s1, p2, v));
    lemma_var_list_bounds(s1, p3, v);
    lemma_magic_stable(s1, s2);
    lemma_numrecs_stable(s1, s2, 4, v);
    lemma_dim_list_stable(s1, s2, p1, v);
    lemma_att_list_stable(s1, s2, p2, v);
    lemma_var_list_stable(s1, s2, p3, v);
}

/// Appending arbitrary trailing bytes to a decoded header's own bytes never
/// changes what is decoded, nor where the header ends.
pub proof fn lemma_header_extension(s: Seq<u8>, t: Seq<u8>)
    requires
        spec_header(s) is Ok,
    ensures
        spec_header(s.take(parse_end(spec_header(s))) + t) == spec_header(s),
{
    lemma_header_bounds(s);
    let end = parse_end(spec_header(s));
    let s2 = s.take(end) + t;
    assert(forall|i: int| 0 <= i < end ==> s[i] == #[trigger] s2[i]);
    lemma_header_ignores_trailing_bytes(s, s2);
}

/// A successful header parse never runs past the buffer: the data section
/// starts at or before the buffer's end.
pub proof fn lemma_header_bounds(s: Seq<u8>)
    requires
        spec_header(s) is Ok,
    ensures
        4 <= parse_end(spec_header(s)) <= s.len(),
{
    let v = spec_magic(s)->Ok_0.0;
    lemma_numrecs_bounds(s, 4, v);
    let p1 = parse_end(spec_numrecs(s, 4, v));
    lemma_dim_list_bounds(s, p1, v);
    let p2 = parse_end(spec_dim_list(s, p1, v));
    lemma_att_list_bounds(s, p2, v);
    let p3 = parse_end(spec_att_list(s, p2, v));
    lemma_var_list_bounds(s, p3, v);
}

/// The record-count sentinel is the all-ones pattern over one count field
/// (4 bytes for CDF-1/CDF-2, 8 for CDF-5): decoding it yields the unknown
/// record count, and any other value of matching width decodes to that value
/// as the known count.
pub proof fn lemma_record_count_sentinel(s: Seq<u8>, p: int, v: Version)
    requires
        0 <= p,
    ensures
        sentinel_at(s, p, v) ==> spec_numrecs(s, p, v) == Ok::<(Option<u64>, int), DecodeError>(
            (None, p + count_width(v)),
        ),
        !sentinel_at(s, p, v) && p + count_width(v) <= s.len() && count_width(v) == 4
            ==> spec_numrecs(s, p, v) == Ok::<(Option<u64>, int), DecodeError>(
            (Some(be32_at(s, p) as u64), p + 4),
        ),
        !sentinel_at(s, p, v) && p + count_width(v) <= s.len() && count_width(v) == 8
            ==> spec_numrecs(s, p, v) == Ok::<(Option<u64>, int), DecodeError>(
            (Some(be64_at(s, p) as u64), p + 8),
        ),
{
}

/// The absent-list marker (8 zero bytes for CDF-1/CDF-2, 12 for CDF-5)
/// decodes, at each of the three list positions, to "list not present"; where
/// neither it nor the list's own tag stands at a list boundary, the list
/// fails as malformed.
pub proof fn lemma_absent_list_marker(s: Seq<u8>, p: int, v: Version)
    requires
        0 <= p,
    ensures
        absent_at(s, p, v) ==> spec_dim_list(s, p, v) == Ok::<
            (Option<Seq<DimensionV>>, int),
            DecodeError,
        >((None, p + 4 + count_width(v))),
        absent_at(s, p, v) ==> spec_att_list(s, p, v) == Ok::<
            (Option<Seq<AttributeV>>, int),
            DecodeError,
        >((None, p + 4 + count_width(v))),
        absent_at(s, p, v) ==> spec_var_list(s, p, v) == Ok::<
            (Option<Seq<VariableV>>, int),
            DecodeError,
        >((None, p + 4 + count_width(v))),
        !absent_at(s, p, v) && !tag_at(s, p, 0x0au8) ==> spec_dim_list(s, p, v) == Err::<
            (Option<Seq<DimensionV>>, int),
            DecodeError,
        >(DecodeError::MalformedListMarker),
        !absent_at(s, p, v) && !tag_at(s, p, 0x0cu8) ==> spec_att_list(s, p, v) == Err::<
            (Option<Seq<AttributeV>>, int),
            DecodeError,
        >(DecodeError::MalformedListMarker),
        !absent_at(s, p, v) && !tag_at(s, p, 0x0bu8) ==> spec_var_list(s, p, v) == Err::<
            (Option<Seq<VariableV>>, int),
            DecodeError,
        >(DecodeError::MalformedListMarker),
{
}

/// A name read at position `p` ends exactly at
/// `p + w + n + pad_len(p + w + n)`: the count field of width `w`, the `n`
/// name bytes, and padding computed from the absolute position after them.
pub proof fn lemma_name_padding(s: Seq<u8>, p: int, v: Version)
    requires
        0 <= p,
        spec_name(s, p, v) is Ok,
    ensures
        spec_count(s, p, v) is Ok,
        ({
            let w = count_width(v);
            let n = spec_count(s, p, v)->Ok_0.0 as int;
            parse_end(spec_name(s, p, v)) == p + w + n + pad_len(p + w + n)
        }),
{
    reveal(spec_name);
}

/// The data-offset ("begin") field decodes as 4 bytes widened to 64 bits for
/// CDF-1, and as a native 8-byte value for CDF-2 and CDF-5.
pub proof fn lemma_begin_offset_width(s: Seq<u8>, p: int, v: Version)
    requires
        0 <= p,
    ensures
        v == Version::CDF1 && p + 4 <= s.len() ==> spec_offset(s, p, v) == Ok::<
            (u64, int),
            DecodeError,
        >((be32_at(s, p) as u64, p + 4)),
        v != Version::CDF1 && p + 8 <= s.len() ==> spec_offset(s, p, v) == Ok::<
            (u64, int),
            DecodeError,
        >((be64_at(s, p) as u64, p + 8)),
        v == Version::CDF1 && p + 4 > s.len() ==> spec_offset(s, p, v) == Err::<
            (u64, int),
            DecodeError,
        >(DecodeError::Truncated),
        v != Version::CDF1 && p + 8 > s.len() ==> spec_offset(s, p, v) == Err::<
            (u64, int),
            DecodeError,
        >(DecodeError::Truncated),
{
}

/// The big-endian bytes of a 4-byte count value.
pub open spec fn be32_bytes(n: u64) -> Seq<u8> {
    seq![
        (n / 0x100_0000 % 0x100) as u8,
        (n / 0x1_0000 % 0x100) as u8,
        (n / 0x100 % 0x100) as u8,
        (n % 0x100) as u8,
    ]
}

/// The big-endian bytes of an 8-byte count value.
pub open spec fn be64_bytes(n: u64) -> Seq<u8> {
    seq![
        (n / 0x100_0000_0000_0000 % 0x100) as u8,
        (n / 0x1_0000_0000_0000 % 0x100) as u8,
        (n / 0x100_0000_0000 % 0x100) as u8,
        (n / 0x1_0000_0000 % 0x100) as u8,
        (n / 0x100_0000 % 0x100) as u8,
        (n / 0x1_0000 % 0x100) as u8,
        (n / 0x100 % 0x100) as u8,
        (n % 0x100) as u8,
    ]
}

/// The version byte that follows the magic.
pub open spec fn version_byte(v: Version) -> u8 {
    match v {
        Version::CDF1 => 1u8,
        Version::CDF2 => 2u8,
        Version::CDF5 => 5u8,
    }
}

/// The magic bytes "CDF" and the version byte.
pub open spec fn magic_bytes(v: Version) -> Seq<u8> {
    seq![0x43u8, 0x44u8, 0x46u8, version_byte(v)]
}

/// One count field's bytes, 4 or 8 wide by version.
pub open spec fn count_bytes(v: Version, n: u64) -> Seq<u8> {
    if count_width(v) == 4 {
        be32_bytes(n)
    } else {
        be64_bytes(n)
    }
}

/// The absent-list marker's bytes: a zero tag and a zero count.
pub open spec fn absent_bytes(v: Version) -> Seq<u8> {
    if count_width(v) == 4 {
        seq![0u8, 0u8, 0u8, 0u8, 0u8, 0u8, 0u8, 0u8]
    } else {
        seq![0u8, 0u8, 0u8, 0u8, 0u8, 0u8, 0u8, 0u8, 0u8, 0u8, 0u8, 0u8]
    }
}

/// The exact byte layout of a minimal header: magic and version, a concrete
/// record count, and three absent lists.
pub open spec fn minimal_header_bytes(v: Version, n: u64) -> Seq<u8> {
    magic_bytes(v) + count_bytes(v, n) + absent_bytes(v) + absent_bytes(v) + absent_bytes(v)
}

/// Reading 4 big-endian bytes back gives the value they encode.
proof fn lemma_be32_at_of_bytes(s: Seq<u8>, q: int, n: u64)
    requires
        n < 0x1_0000_0000,
        0 <= q,
        q + 4 <= s.len(),
        s[q] == be32_bytes(n)[0],
        s[q + 1] == be32_bytes(n)[1],
        s[q + 2] == be32_bytes(n)[2],
        s[q + 3] == be32_bytes(n)[3],
    ensures
        be32_at(s, q) == n,
{
    let m = n as int;
    vstd::arithmetic::div_mod::lemma_small_mod(n as nat, 0x1_0000_0000nat);
    vstd::arithmetic::div_mod::lemma_breakdown(m, 0x100_0000, 0x100);
    vstd::arithmetic::div_mod::lemma_breakdown(m, 0x1_0000, 0x100);
    vstd::arithmetic::div_mod::lemma_breakdown(m, 0x100, 0x100);
    vstd::arithmetic::div_mod::lemma_mod_bound(m, 0x100);
}

/// Reading 8 big-endian bytes back gives the value they encode.
proof fn lemma_be64_at_of_bytes(s: Seq<u8>, q: int, n: u64)
    requires
        0 <= q,
        q + 8 <= s.len(),
        s[q] == be64_bytes(n)[0],
        s[q + 1] == be64_bytes(n)[1],
        s[q + 2] == be64_bytes(n)[2],
        s[q + 3] == be64_bytes(n)[3],
        s[q + 4] == be64_bytes(n)[4],
        s[q + 5] == be64_bytes(n)[5],
        s[q + 6] == be64_bytes(n)[6],
        s[q + 7] == be64_bytes(n)[7],
    ensures
        be64_at(s, q) == n,
{
    let m = n as int;
    vstd::arithmetic::div_mod::lemma_small_mod(n as nat, 0x1_0000_0000_0000_0000nat);
    vstd::arithmetic::div_mod::lemma_breakdown(m, 0x100_0000_0000_0000, 0x100);
    vstd::arithmetic::div_mod::lemma_breakdown(m, 0x1_0000_0000_0000, 0x100);
    vstd::arithmetic::div_mod::lemma_breakdown(m, 0x100_0000_0000, 0x100);
    vstd::arithmetic::div_mod::lemma_breakdown(m, 0x1_0000_0000, 0x100);
    vstd::arithmetic::div_mod::lemma_breakdown(m, 0x100_0000, 0x100);
    vstd::arithmetic::div_mod::lemma_breakdown(m, 0x1_0000, 0x100);
    vstd::arithmetic::div_mod::lemma_breakdown(m, 0x100, 0x100);
    vstd::arithmetic::div_mod::lemma_mod_bound(m, 0x100);
}

/// A minimal header round-trips for every version and every record count the
/// version can encode: decoding its exact byte layout yields that version,
/// that count, and three absent lists, consuming the whole buffer.
#[verifier::rlimit(100)]
pub proof fn lemma_minimal_header_round_trip(v: Version, n: u64)
    requires
        count_width(v) == 4 ==> n < 0xffff_ffffu64,
        count_width(v) == 8 ==> n < 0xffff_ffff_ffff_ffffu64,
    ensures
        spec_header(minimal_header_bytes(v, n)) == Ok::<(FileHeaderV, int), DecodeError>(
            (
                FileHeaderV {
                    version: v,
                    numrecs: Some(n),
                    dim_list: None,
                    gatt_list: None,
                    var_list: None,
                },
                minimal_header_bytes(v, n).len() as int,
            ),
        ),
{
    let s = minimal_header_bytes(v, n);
    let w = count_width(v);
    assert(magic_bytes(v).len() == 4);
    assert(count_bytes(v, n).len() == w);
    assert(absent_bytes(v).len() == 4 + w);
    assert(s.len() == 16 + 4 * w);
    assert(s[0] == 0x43u8 && s[1] == 0x44u8 && s[2] == 0x46u8 && s[3] == version_byte(v));
    assert(forall|i: int| 4 <= i < 4 + w ==> #[trigger] s[i] == count_bytes(v, n)[i - 4]);
    assert(forall|i: int| 4 + w <= i < 16 + 4 * w ==> #[trigger] s[i] == 0u8);
    assert(spec_magic(s) == Ok::<(Version, int), DecodeError>((v, 4)));
    if w == 4 {
        lemma_be32_at_of_bytes(s, 4, n);
        assert(be32_bytes(n)[0] != 0xffu8 || be32_bytes(n)[1] != 0xffu8 || be32_bytes(n)[2]
            != 0xffu8 || be32_bytes(n)[3] != 0xffu8) by {
            if be32_bytes(n)[0] == 0xffu8 && be32_bytes(n)[1] == 0xffu8 && be32_bytes(n)[2]
                == 0xffu8 && be32_bytes(n)[3] == 0xffu8 {
                lemma_be32_at_of_bytes(s, 4, 0xffff_ffffu64);
            }
        }
        assert(!sentinel_at(s, 4, v));
    } else {
        lemma_be64_at_of_bytes(s, 4, n);
        assert(be64_bytes(n)[0] != 0xffu8 || be64_bytes(n)[1] != 0xffu8 || be64_bytes(n)[2]
            != 0xffu8 || be64_bytes(n)[3] != 0xffu8 || be64_bytes(n)[4] != 0xffu8 || be64_bytes(
            n,
        )[5] != 0xffu8 || be64_bytes(n)[6] != 0xffu8 || be64_bytes(n)[7] != 0xffu8) by {
            if be64_bytes(n)[0] == 0xffu8 && be64_bytes(n)[1] == 0xffu8 && be64_bytes(n)[2]
                == 0xffu8 && be64_bytes(n)[3] == 0xffu8 && be64_bytes(n)[4] == 0xffu8
                && be64_bytes(n)[5] == 0xffu8 && be64_bytes(n)[6] == 0xffu8 && be64_bytes(n)[7]
                == 0xffu8 {
                lemma_be64_at_of_bytes(s, 4, 0xffff_ffff_ffff_ffffu64);
            }
        }
        assert(!sentinel_at(s, 4, v));
    }
    assert(spec_numrecs(s, 4, v) == Ok::<(Option<u64>, int), DecodeError>((Some(n), 4 + w)));
    assert(absent_at(s, 4 + w, v));
    assert(spec_dim_list(s, 4 + w, v) == Ok::<(Option<Seq<DimensionV>>, int), DecodeError>(
        (None, 8 + 2 * w),
    ));
    assert(absent_at(s, 8 + 2 * w, v));
    assert(spec_att_list(s, 8 + 2 * w, v) == Ok::<(Option<Seq<AttributeV>>, int), DecodeError>(
        (None, 12 + 3 * w),
    ));
    assert(absent_at(s, 12 + 3 * w, v));
    assert(spec_var_list(s, 12 + 3 * w, v) == Ok::<(Option<Seq<VariableV>>, int), DecodeError>(
        (None, 16 + 4 * w),
    ));
}

} // verus!
