use parsecdf::decode::cdf_parser;
use parsecdf::decode::decode_file;
use parsecdf::decode::decode_header;
use parsecdf::DecodeError;
use parsecdf::Type;
use parsecdf::Version;

fn be32(n: u32) -> Vec<u8> {
    n.to_be_bytes().to_vec()
}

fn be64(n: u64) -> Vec<u8> {
    n.to_be_bytes().to_vec()
}

/// Magic, version byte, and a concrete record count.
fn preamble(version: u8, numrecs_field: &[u8]) -> Vec<u8> {
    let mut b = b"CDF".to_vec();
    b.push(version);
    b.extend_from_slice(numrecs_field);
    b
}

/// A minimal header: concrete record count, three absent lists.
fn minimal_header(version: u8, numrecs: u64) -> Vec<u8> {
    let (count, absent): (Vec<u8>, Vec<u8>) = if version == 5 {
        (be64(numrecs), vec![0u8; 12])
    } else {
        (be32(numrecs as u32), vec![0u8; 8])
    };
    let mut b = preamble(version, &count);
    b.extend_from_slice(&absent);
    b.extend_from_slice(&absent);
    b.extend_from_slice(&absent);
    b
}

/// A length-prefixed name with padding, for the 4-byte count width.
fn name32(name: &str) -> Vec<u8> {
    let mut b = be32(name.len() as u32);
    b.extend_from_slice(name.as_bytes());
    while b.len() % 4 != 0 {
        b.push(0);
    }
    b
}

#[test]
fn minimal_header_round_trips_cdf1() {
    let buf = minimal_header(1, 7);
    let (h, end) = cdf_parser(&buf).unwrap();
    assert_eq!(end, buf.len());
    assert_eq!(h.version, Version::CDF1);
    assert_eq!(h.numrecs, Some(7));
    assert!(h.dim_list.is_none());
    assert!(h.gatt_list.is_none());
    assert!(h.var_list.is_none());
}

#[test]
fn minimal_header_round_trips_cdf2() {
    let buf = minimal_header(2, 0);
    let (h, end) = cdf_parser(&buf).unwrap();
    assert_eq!(end, buf.len());
    assert_eq!(h.version, Version::CDF2);
    assert_eq!(h.numrecs, Some(0));
    assert!(h.dim_list.is_none());
    assert!(h.gatt_list.is_none());
    assert!(h.var_list.is_none());
}

#[test]
fn minimal_header_round_trips_cdf5() {
    let buf = minimal_header(5, 0x1_0000_0001);
    let (h, end) = cdf_parser(&buf).unwrap();
    assert_eq!(end, buf.len());
    assert_eq!(h.version, Version::CDF5);
    assert_eq!(h.numrecs, Some(0x1_0000_0001));
    assert!(h.dim_list.is_none());
    assert!(h.gatt_list.is_none());
    assert!(h.var_list.is_none());
}

#[test]
fn trailing_bytes_are_returned_untouched() {
    let mut buf = minimal_header(1, 3);
    let header_len = buf.len();
    let garbage = [0xde, 0xad, 0xbe, 0xef, 0x00, 0xff];
    buf.extend_from_slice(&garbage);
    let (h, end) = cdf_parser(&buf).unwrap();
    assert_eq!(end, header_len);
    assert_eq!(h.numrecs, Some(3));
    let f = decode_file(&buf).unwrap();
    assert_eq!(f.data, garbage.to_vec());
    assert_eq!(f.header.numrecs, Some(3));
}

#[test]
fn record_count_sentinel_cdf1() {
    let buf = minimal_header(1, 0xffff_ffff);
    let h = decode_header(&buf).unwrap();
    assert_eq!(h.numrecs, None);
}

#[test]
fn record_count_sentinel_cdf2() {
    let buf = minimal_header(2, 0xffff_ffff);
    let h = decode_header(&buf).unwrap();
    assert_eq!(h.numrecs, None);
}

#[test]
fn record_count_sentinel_cdf5() {
    let buf = minimal_header(5, u64::MAX);
    let h = decode_header(&buf).unwrap();
    assert_eq!(h.numrecs, None);
}

#[test]
fn record_count_value_is_kept() {
    let buf = minimal_header(1, 0xffff_fffe);
    let h = decode_header(&buf).unwrap();
    assert_eq!(h.numrecs, Some(0xffff_fffe));
}

#[test]
fn empty_list_is_distinct_from_absent() {
    // A present dimension list with zero entries, then two absent lists.
    let mut buf = preamble(1, &be32(0));
    buf.extend_from_slice(&be32(0x0a));
    buf.extend_from_slice(&be32(0));
    buf.extend_from_slice(&[0u8; 8]);
    buf.extend_from_slice(&[0u8; 8]);
    let h = decode_header(&buf).unwrap();
    assert_eq!(h.dim_list.unwrap().len(), 0);
    assert!(h.gatt_list.is_none());
    assert!(h.var_list.is_none());
}

#[test]
fn malformed_list_marker_is_rejected() {
    // Neither the absent marker nor a valid tag at the dimension list.
    let mut buf = preamble(1, &be32(0));
    buf.extend_from_slice(&be32(9));
    buf.extend_from_slice(&be32(0));
    buf.extend_from_slice(&[0u8; 16]);
    assert_eq!(decode_header(&buf).unwrap_err(), DecodeError::MalformedListMarker);
}

#[test]
fn name_padding_consumes_to_alignment() {
    // One dimension whose name length runs 0..=4; the length field that
    // follows the padded name must still be found at the right offset.
    for (n, name) in [(0, ""), (1, "a"), (2, "ab"), (3, "abc"), (4, "abcd")] {
        let mut buf = preamble(1, &be32(2));
        buf.extend_from_slice(&be32(0x0a));
        buf.extend_from_slice(&be32(1));
        buf.extend_from_slice(&name32(name));
        buf.extend_from_slice(&be32(99));
        buf.extend_from_slice(&[0u8; 8]);
        buf.extend_from_slice(&[0u8; 8]);
        let h = decode_header(&buf).unwrap();
        let dims = h.dim_list.unwrap();
        assert_eq!(dims.len(), 1);
        assert_eq!(dims[0].name, name, "length {}", n);
        assert_eq!(dims[0].len, 99);
    }
}

#[test]
fn name_padding_at_several_offsets() {
    // Chained dimensions shift each following name to a new absolute offset;
    // every entry is still found only if each padding is computed from the
    // absolute position.
    let names = ["", "a", "ab", "abc", "abcd", "abcde"];
    let mut buf = preamble(1, &be32(0));
    buf.extend_from_slice(&be32(0x0a));
    buf.extend_from_slice(&be32(names.len() as u32));
    for (i, name) in names.iter().enumerate() {
        buf.extend_from_slice(&name32(name));
        buf.extend_from_slice(&be32(i as u32 + 10));
    }
    buf.extend_from_slice(&[0u8; 8]);
    buf.extend_from_slice(&[0u8; 8]);
    let h = decode_header(&buf).unwrap();
    let dims = h.dim_list.unwrap();
    assert_eq!(dims.len(), names.len());
    for (i, name) in names.iter().enumerate() {
        assert_eq!(dims[i].name, *name);
        assert_eq!(dims[i].len, i as u64 + 10);
    }
}

#[test]
fn begin_offset_is_8_bytes_for_cdf5() {
    let mut buf = preamble(5, &be64(0));
    buf.extend_from_slice(&[0u8; 12]);
    buf.extend_from_slice(&[0u8; 12]);
    buf.extend_from_slice(&be32(0x0b));
    buf.extend_from_slice(&be64(1));
    // name "y", no dimension ids, absent attributes, I32, vsize 4, begin.
    buf.extend_from_slice(&be64(1));
    buf.extend_from_slice(&[b'y', 0, 0, 0]);
    buf.extend_from_slice(&be64(0));
    buf.extend_from_slice(&[0u8; 12]);
    buf.extend_from_slice(&be32(4));
    buf.extend_from_slice(&be64(4));
    buf.extend_from_slice(&be64(0x0102_0304_0506_0708));
    let (h, end) = cdf_parser(&buf).unwrap();
    assert_eq!(end, buf.len());
    let vars = h.var_list.unwrap();
    assert_eq!(vars[0].name, "y");
    assert_eq!(vars[0].typ, Type::I32);
    assert_eq!(vars[0].begin, 0x0102_0304_0506_0708);
}

/// One variable entry with no dimension ids and no attributes, for the 4-byte
/// count width.
fn var_entry32(name: &str, type_tag: u32, vsize: u32, begin: &[u8]) -> Vec<u8> {
    let mut b = name32(name);
    b.extend_from_slice(&be32(0));
    b.extend_from_slice(&[0u8; 8]);
    b.extend_from_slice(&be32(type_tag));
    b.extend_from_slice(&be32(vsize));
    b.extend_from_slice(begin);
    b
}

#[test]
fn begin_offset_is_4_bytes_for_cdf1() {
    let mut buf = preamble(1, &be32(0));
    buf.extend_from_slice(&[0u8; 8]);
    buf.extend_from_slice(&[0u8; 8]);
    buf.extend_from_slice(&be32(0x0b));
    buf.extend_from_slice(&be32(1));
    buf.extend_from_slice(&var_entry32("x", 4, 4, &be32(0x0102_0304)));
    let (h, end) = cdf_parser(&buf).unwrap();
    assert_eq!(end, buf.len());
    let vars = h.var_list.unwrap();
    assert_eq!(vars[0].begin, 0x0102_0304);
}

#[test]
fn begin_offset_is_8_bytes_for_cdf2() {
    let mut buf = preamble(2, &be32(0));
    buf.extend_from_slice(&[0u8; 8]);
    buf.extend_from_slice(&[0u8; 8]);
    buf.extend_from_slice(&be32(0x0b));
    buf.extend_from_slice(&be32(1));
    buf.extend_from_slice(&var_entry32("x", 4, 4, &be64(0x0102_0304_0506_0708)));
    let (h, end) = cdf_parser(&buf).unwrap();
    assert_eq!(end, buf.len());
    let vars = h.var_list.unwrap();
    assert_eq!(vars[0].begin, 0x0102_0304_0506_0708);
}

#[test]
fn one_variable_end_to_end_cdf1() {
    // Magic "CDF" + 0x01, record count 0, absent dimension and attribute
    // lists, one F64 variable with no dimensions, no attributes, vsize 8,
    // begin 64.
    let mut buf = preamble(1, &be32(0));
    buf.extend_from_slice(&[0u8; 8]);
    buf.extend_from_slice(&[0u8; 8]);
    buf.extend_from_slice(&be32(0x0b));
    buf.extend_from_slice(&be32(1));
    buf.extend_from_slice(&var_entry32("v", 6, 8, &be32(64)));
    let h = decode_header(&buf).unwrap();
    assert_eq!(h.version, Version::CDF1);
    assert_eq!(h.numrecs, Some(0));
    assert!(h.dim_list.is_none());
    assert!(h.gatt_list.is_none());
    let vars = h.var_list.unwrap();
    assert_eq!(vars.len(), 1);
    assert_eq!(vars[0].name, "v");
    assert!(vars[0].dimids.is_empty());
    assert!(vars[0].atts.is_none());
    assert_eq!(vars[0].typ, Type::F64);
    assert_eq!(vars[0].vsize, 8);
    assert_eq!(vars[0].begin, 64);
}

#[test]
fn truncated_name_fails_without_panicking() {
    // The name's count field claims more bytes than remain.
    let mut buf = preamble(1, &be32(0));
    buf.extend_from_slice(&be32(0x0a));
    buf.extend_from_slice(&be32(1));
    buf.extend_from_slice(&be32(10));
    buf.extend_from_slice(&[b'a', b'b', b'c']);
    assert_eq!(decode_header(&buf).unwrap_err(), DecodeError::Truncated);
}

#[test]
fn truncated_attribute_value_fails() {
    // The element count claims more value bytes than remain.
    let mut buf = preamble(1, &be32(0));
    buf.extend_from_slice(&[0u8; 8]);
    buf.extend_from_slice(&be32(0x0c));
    buf.extend_from_slice(&be32(1));
    buf.extend_from_slice(&name32("a"));
    buf.extend_from_slice(&be32(3));
    buf.extend_from_slice(&be32(1000));
    buf.extend_from_slice(&[0u8; 4]);
    assert_eq!(decode_header(&buf).unwrap_err(), DecodeError::Truncated);
}

#[test]
fn bad_magic_is_rejected() {
    assert_eq!(decode_header(b"XDF\x01").unwrap_err(), DecodeError::BadMagic);
    assert_eq!(decode_header(b"").unwrap_err(), DecodeError::BadMagic);
    assert_eq!(decode_header(b"CD").unwrap_err(), DecodeError::BadMagic);
}

#[test]
fn unknown_version_is_rejected() {
    assert_eq!(decode_header(b"CDF\x03").unwrap_err(), DecodeError::UnknownVersion);
    assert_eq!(decode_header(b"CDF").unwrap_err(), DecodeError::UnknownVersion);
}

#[test]
fn unknown_type_tag_is_rejected() {
    let mut buf = preamble(1, &be32(0));
    buf.extend_from_slice(&[0u8; 8]);
    buf.extend_from_slice(&be32(0x0c));
    buf.extend_from_slice(&be32(1));
    buf.extend_from_slice(&name32("a"));
    buf.extend_from_slice(&be32(12));
    buf.extend_from_slice(&be32(0));
    buf.extend_from_slice(&[0u8; 8]);
    assert_eq!(decode_header(&buf).unwrap_err(), DecodeError::UnknownType);
}

#[test]
fn invalid_utf8_name_is_rejected() {
    let mut buf = preamble(1, &be32(0));
    buf.extend_from_slice(&be32(0x0a));
    buf.extend_from_slice(&be32(1));
    buf.extend_from_slice(&be32(2));
    buf.extend_from_slice(&[0xff, 0xfe, 0, 0]);
    buf.extend_from_slice(&be32(1));
    buf.extend_from_slice(&[0u8; 16]);
    assert_eq!(decode_header(&buf).unwrap_err(), DecodeError::InvalidUtf8);
}

#[test]
fn attribute_value_bytes_are_kept_opaque() {
    let mut buf = preamble(1, &be32(0));
    buf.extend_from_slice(&[0u8; 8]);
    buf.extend_from_slice(&be32(0x0c));
    buf.extend_from_slice(&be32(1));
    buf.extend_from_slice(&name32("units"));
    buf.extend_from_slice(&be32(3));
    buf.extend_from_slice(&be32(3));
    buf.extend_from_slice(&[1, 2, 3, 4, 5, 6, 0, 0]);
    buf.extend_from_slice(&[0u8; 8]);
    let h = decode_header(&buf).unwrap();
    let atts = h.gatt_list.unwrap();
    assert_eq!(atts.len(), 1);
    assert_eq!(atts[0].name, "units");
    assert_eq!(atts[0].typ, Type::I16);
    assert_eq!(atts[0].data, vec![1, 2, 3, 4, 5, 6]);
    assert!(h.var_list.is_none());
}

#[test]
fn cdf5_count_fields_are_8_bytes() {
    let mut buf = preamble(5, &be64(0));
    buf.extend_from_slice(&be32(0x0a));
    buf.extend_from_slice(&be64(1));
    buf.extend_from_slice(&be64(4));
    buf.extend_from_slice(b"time");
    buf.extend_from_slice(&be64(0x2_0000_0000));
    buf.extend_from_slice(&[0u8; 12]);
    buf.extend_from_slice(&[0u8; 12]);
    let (h, end) = cdf_parser(&buf).unwrap();
    assert_eq!(end, buf.len());
    let dims = h.dim_list.unwrap();
    assert_eq!(dims.len(), 1);
    assert_eq!(dims[0].name, "time");
    assert_eq!(dims[0].len, 0x2_0000_0000);
}

#[test]
fn byte_size_of_each_type() {
    assert_eq!(Type::Char.byte_size(), 1);
    assert_eq!(Type::I8.byte_size(), 1);
    assert_eq!(Type::U8.byte_size(), 1);
    assert_eq!(Type::I16.byte_size(), 2);
    assert_eq!(Type::U16.byte_size(), 2);
    assert_eq!(Type::I32.byte_size(), 4);
    assert_eq!(Type::U32.byte_size(), 4);
    assert_eq!(Type::F32.byte_size(), 4);
    assert_eq!(Type::I64.byte_size(), 8);
    assert_eq!(Type::U64.byte_size(), 8);
    assert_eq!(Type::F64.byte_size(), 8);
}

#[test]
fn variable_with_dimensions_and_attributes() {
    // Two dimensions, then one variable referring to both, carrying one
    // attribute of its own.
    let mut buf = preamble(1, &be32(4));
    buf.extend_from_slice(&be32(0x0a));
    buf.extend_from_slice(&be32(2));
    buf.extend_from_slice(&name32("t"));
    buf.extend_from_slice(&be32(0));
    buf.extend_from_slice(&name32("x"));
    buf.extend_from_slice(&be32(16));
    buf.extend_from_slice(&[0u8; 8]);
    buf.extend_from_slice(&be32(0x0b));
    buf.extend_from_slice(&be32(1));
    buf.extend_from_slice(&name32("temp"));
    buf.extend_from_slice(&be32(2));
    buf.extend_from_slice(&be32(0));
    buf.extend_from_slice(&be32(1));
    buf.extend_from_slice(&be32(0x0c));
    buf.extend_from_slice(&be32(1));
    buf.extend_from_slice(&name32("unit"));
    buf.extend_from_slice(&be32(1));
    buf.extend_from_slice(&be32(1));
    buf.extend_from_slice(&[b'K', 0, 0, 0]);
    buf.extend_from_slice(&be32(5));
    buf.extend_from_slice(&be32(64));
    buf.extend_from_slice(&be32(80));
    let (h, end) = cdf_parser(&buf).unwrap();
    assert_eq!(end, buf.len());
    let dims = h.dim_list.unwrap();
    assert_eq!(dims[0].name, "t");
    assert_eq!(dims[0].len, 0);
    assert_eq!(dims[1].name, "x");
    assert_eq!(dims[1].len, 16);
    let vars = h.var_list.unwrap();
    assert_eq!(vars.len(), 1);
    assert_eq!(vars[0].name, "temp");
    assert_eq!(vars[0].dimids, vec![0, 1]);
    let atts = vars[0].atts.clone().unwrap();
    assert_eq!(atts[0].name, "unit");
    assert_eq!(atts[0].typ, Type::Char);
    assert_eq!(atts[0].data, vec![b'K']);
    assert_eq!(vars[0].typ, Type::F32);
    assert_eq!(vars[0].vsize, 64);
    assert_eq!(vars[0].begin, 80);
}

#[test]
fn decode_file_with_no_trailing_bytes() {
    let buf = minimal_header(1, 1);
    let f = decode_file(&buf).unwrap();
    assert!(f.data.is_empty());
    assert_eq!(f.header.numrecs, Some(1));
}
