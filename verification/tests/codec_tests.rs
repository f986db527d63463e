//! Varint, value-codec and page-header behaviour on concrete inputs.

use pagestore::error::DbError;
use pagestore::page::{PageHeader, PageType, ReadableSlice};
use pagestore::types::{Type, Value};
use pagestore::varint::varint;

fn roundtrip_varint(v: u64) {
    let (buf, len) = varint(v).encode_varint();
    assert!(1 <= len && len <= 10);
    let decoded = varint::decode_varint(&buf[..len]).expect("valid encoding");
    assert_eq!(decoded, (v, len));
}

#[test]
fn varint_roundtrip_values() {
    for v in [
        0u64,
        1,
        0x7f,
        0x80,
        300,
        16384,
        123456789,
        u64::MAX - 1,
        u64::MAX,
    ] {
        roundtrip_varint(v);
    }
}

#[test]
fn varint_zero_is_single_zero_byte() {
    let (buf, len) = varint(0).encode_varint();
    assert_eq!(len, 1);
    assert_eq!(buf[0], 0);
}

#[test]
fn varint_continuation_bits() {
    let (buf, len) = varint(300).encode_varint();
    assert_eq!(len, 2);
    assert_eq!(buf[0], 0b1010_1100);
    assert_eq!(buf[1], 0b0000_0010);
}

#[test]
fn varint_ignores_trailing_garbage() {
    let (buf, len) = varint(98765).encode_varint();
    let mut noisy = buf[..len].to_vec();
    noisy.extend_from_slice(&[0xff, 0x00, 0x80, 0x13]);
    assert_eq!(varint::decode_varint(&noisy), Some((98765, len)));
}

#[test]
fn varint_rejects_missing_terminator() {
    assert_eq!(varint::decode_varint(&[]), None);
    assert_eq!(varint::decode_varint(&[0x80, 0x80, 0x80]), None);
    assert_eq!(varint::decode_varint(&[0x80; 10]), None);
    assert_eq!(varint::decode_varint(&[0x80; 16]), None);
}

fn written(v: &Value) -> Vec<u8> {
    let mut buf = Vec::new();
    v.write_to_buf(&mut buf);
    buf
}

#[test]
fn value_roundtrip_u64() {
    let buf = written(&Value::U64(0xdead_beef_0102_0304));
    let (back, n) = Value::read_from_buf(&buf, Type::U64).unwrap();
    assert_eq!(n, 8);
    assert!(matches!(back, Value::U64(0xdead_beef_0102_0304)));
}

#[test]
fn value_roundtrip_u32() {
    let buf = written(&Value::U32(77));
    let (back, n) = Value::read_from_buf(&buf, Type::U32).unwrap();
    assert_eq!(n, 4);
    assert!(matches!(back, Value::U32(77)));
}

#[test]
fn value_roundtrip_i64() {
    let buf = written(&Value::I64(-123456789012345));
    let (back, n) = Value::read_from_buf(&buf, Type::I64).unwrap();
    assert_eq!(n, 8);
    assert!(matches!(back, Value::I64(-123456789012345)));
}

#[test]
fn value_roundtrip_i32() {
    let buf = written(&Value::I32(-40000));
    let (back, n) = Value::read_from_buf(&buf, Type::I32).unwrap();
    assert_eq!(n, 4);
    assert!(matches!(back, Value::I32(-40000)));
}

#[test]
fn value_roundtrip_f32_bits() {
    let bits = 1.5f32.to_bits();
    let buf = written(&Value::F32Bits(bits));
    let (back, n) = Value::read_from_buf(&buf, Type::F32).unwrap();
    assert_eq!(n, 4);
    match back {
        Value::F32Bits(b) => assert_eq!(f32::from_bits(b), 1.5f32),
        other => panic!("wrong variant: {:?}", other),
    }
}

#[test]
fn value_roundtrip_f64_bits() {
    let bits = (-2.25f64).to_bits();
    let buf = written(&Value::F64Bits(bits));
    let (back, n) = Value::read_from_buf(&buf, Type::F64).unwrap();
    assert_eq!(n, 8);
    match back {
        Value::F64Bits(b) => assert_eq!(f64::from_bits(b), -2.25f64),
        other => panic!("wrong variant: {:?}", other),
    }
}

#[test]
fn value_roundtrip_blob_inline() {
    let payload = vec![1u8, 2, 3, 4, 5];
    let buf = written(&Value::Bytes(payload.clone()));
    assert_eq!(buf.len(), 8 + payload.len());
    assert_eq!(&buf[..8], &(payload.len() as u64).to_le_bytes());
    let (back, n) = Value::read_from_buf(&buf, Type::Blob).unwrap();
    assert_eq!(n, 13);
    match back {
        Value::Bytes(b) => assert_eq!(b, payload),
        other => panic!("wrong variant: {:?}", other),
    }
}

#[test]
fn value_roundtrip_string_inline() {
    let buf = written(&Value::String(String::from("grüße")));
    let (back, n) = Value::read_from_buf(&buf, Type::String).unwrap();
    assert_eq!(n, buf.len());
    match back {
        Value::String(s) => assert_eq!(s, "grüße"),
        other => panic!("wrong variant: {:?}", other),
    }
}

#[test]
fn value_roundtrip_overflow_refs() {
    let buf = written(&Value::OverflowedBytes(42, 100000));
    assert_eq!(buf.len(), 16);
    let (back, n) = Value::read_from_buf(&buf, Type::Blob).unwrap();
    assert_eq!(n, 16);
    assert!(matches!(back, Value::OverflowedBytes(42, 100000)));

    let buf = written(&Value::OverflowedString(7, 9999));
    let (back, n) = Value::read_from_buf(&buf, Type::String).unwrap();
    assert_eq!(n, 16);
    assert!(matches!(back, Value::OverflowedString(7, 9999)));
}

#[test]
fn value_roundtrip_ignores_trailing_garbage() {
    let mut buf = written(&Value::U32(5));
    buf.extend_from_slice(&[9, 9, 9]);
    let (back, n) = Value::read_from_buf(&buf, Type::U32).unwrap();
    assert_eq!(n, 4);
    assert!(matches!(back, Value::U32(5)));
}

#[test]
fn value_read_rejects_bad_utf8() {
    let mut buf = 2u64.to_le_bytes().to_vec();
    buf.extend_from_slice(&[0xff, 0xfe]);
    assert_eq!(
        Value::read_from_buf(&buf, Type::String).unwrap_err(),
        DbError::InvalidUtf8
    );
}

#[test]
fn value_read_rejects_truncation() {
    assert_eq!(
        Value::read_from_buf(&[1, 2, 3], Type::U64).unwrap_err(),
        DbError::TruncatedInput
    );
    let buf = 100u64.to_le_bytes().to_vec();
    assert_eq!(
        Value::read_from_buf(&buf, Type::Blob).unwrap_err(),
        DbError::TruncatedInput
    );
    let buf = (5u64 | (1u64 << 63)).to_le_bytes().to_vec();
    assert_eq!(
        Value::read_from_buf(&buf, Type::Blob).unwrap_err(),
        DbError::TruncatedInput
    );
}

#[test]
fn value_checked_write_guards_length_prefix() {
    let mut buf = vec![0xee];
    assert!(Value::String(String::from("hi")).write_to_buf_checked(&mut buf));
    assert_eq!(buf.len(), 1 + 8 + 2);

    let huge = Value::OverflowedBytes(1, 1u64 << 63);
    assert!(!huge.fits_length_prefix());
    let before = buf.clone();
    assert!(!huge.write_to_buf_checked(&mut buf));
    assert_eq!(buf, before);
}

#[test]
fn value_encoded_len_matches_write() {
    for v in [
        Value::U64(1),
        Value::I32(-1),
        Value::Bytes(vec![0; 10]),
        Value::String(String::from("abc")),
        Value::OverflowedBytes(3, 500),
    ] {
        assert_eq!(v.encoded_len() as usize, written(&v).len());
    }
}

#[test]
fn page_type_parse_tags() {
    assert_eq!(PageType::parse(0).unwrap(), PageType::InteriorIndex);
    assert_eq!(PageType::parse(1).unwrap(), PageType::InteriorTable);
    assert_eq!(PageType::parse(2).unwrap(), PageType::LeafIndex);
    assert_eq!(PageType::parse(3).unwrap(), PageType::LeafTable);
    assert_eq!(PageType::parse(4).unwrap_err(), DbError::InvalidPageType);
    assert_eq!(PageType::parse(255).unwrap_err(), DbError::InvalidPageType);
}

#[test]
fn page_header_parse_fields() {
    let bytes = [2u8, 0x34, 0x12, 0x03, 0x00, 0x00, 0x10, 0x21, 0x01, 0xaa];
    let h = PageHeader::parse(&bytes).unwrap();
    assert_eq!(h.page_type, PageType::LeafIndex);
    assert_eq!(h.freeblock_start, 0x1234);
    assert_eq!(h.cell_count, 3);
    assert_eq!(h.cell_content_start, 0x1000);
    assert_eq!(h.total_free_bytes, 0x0121);
}

#[test]
fn page_header_parse_errors() {
    assert_eq!(PageHeader::parse(&[]).unwrap_err(), DbError::TruncatedInput);
    assert_eq!(
        PageHeader::parse(&[1, 2, 3]).unwrap_err(),
        DbError::TruncatedInput
    );
    assert_eq!(
        PageHeader::parse(&[9, 0, 0, 0, 0, 0, 0, 0, 0]).unwrap_err(),
        DbError::InvalidPageType
    );
}

#[test]
fn readable_slice_reads_in_order() {
    let data = [7u8, 0x34, 0x12, 5];
    let mut slice = ReadableSlice::new(&data);
    assert_eq!(slice.read_u8().unwrap(), 7);
    assert_eq!(slice.read_u16_le().unwrap(), 0x1234);
    assert_eq!(slice.read_u8().unwrap(), 5);
    assert_eq!(slice.read_u8().unwrap_err(), DbError::TruncatedInput);
}

#[test]
fn readable_slice_bulk_read() {
    let data = [1u8, 2, 3, 4, 5];
    let mut slice = ReadableSlice::new(&data);
    let mut out = vec![0u8; 3];
    assert_eq!(slice.read(&mut out), 3);
    assert_eq!(out, vec![1, 2, 3]);
    let mut rest = vec![0u8; 4];
    assert_eq!(slice.read(&mut rest), 2);
    assert_eq!(rest, vec![4, 5, 0, 0]);
    assert_eq!(slice.read(&mut rest), 0);
}
