use rawlib::error::FormatError;
use rawlib::exif::{decode_directory, ExifTag, TagFormat};
use rawlib::parsing::ExifValue;
use rawlib::traits::Endian;

fn put_u16(out: &mut Vec<u8>, endian: Endian, v: u16) {
    match endian {
        Endian::Big => out.extend_from_slice(&v.to_be_bytes()),
        Endian::Little => out.extend_from_slice(&v.to_le_bytes()),
    }
}

fn put_u32(out: &mut Vec<u8>, endian: Endian, v: u32) {
    match endian {
        Endian::Big => out.extend_from_slice(&v.to_be_bytes()),
        Endian::Little => out.extend_from_slice(&v.to_le_bytes()),
    }
}

fn entry(endian: Endian, tag: u16, format: u16, components: u32, field: [u8; 4]) -> Vec<u8> {
    let mut e = Vec::new();
    put_u16(&mut e, endian, tag);
    put_u16(&mut e, endian, format);
    put_u32(&mut e, endian, components);
    e.extend_from_slice(&field);
    e
}

/// A buffer that starts with a byte order marker, with a directory at offset 8.
fn directory(endian: Endian, entries: &[Vec<u8>]) -> Vec<u8> {
    let mut buf = match endian {
        Endian::Big => vec![b'M', b'M', 0, 42, 0, 0, 0, 8],
        Endian::Little => vec![b'I', b'I', 42, 0, 8, 0, 0, 0],
    };
    put_u16(&mut buf, endian, entries.len() as u16);
    for e in entries {
        buf.extend_from_slice(e);
    }
    buf
}

fn u32_field(endian: Endian, v: u32) -> [u8; 4] {
    match endian {
        Endian::Big => v.to_be_bytes(),
        Endian::Little => v.to_le_bytes(),
    }
}

fn u16_field(endian: Endian, v: u16) -> [u8; 4] {
    let b = match endian {
        Endian::Big => v.to_be_bytes(),
        Endian::Little => v.to_le_bytes(),
    };
    [b[0], b[1], 0, 0]
}

#[test]
fn inline_entries_all_decode_in_order() {
    for endian in [Endian::Big, Endian::Little] {
        let entries = vec![
            entry(endian, 0x0100, 4, 1, u32_field(endian, 4000)),
            entry(endian, 0x0101, 3, 1, u16_field(endian, 3000)),
            entry(endian, 0x0110, 2, 4, [b'X', b'-', b'T', 0]),
            entry(endian, 0x0112, 1, 2, [7, 9, 0, 0]),
            entry(endian, 0x9000, 7, 4, [b'0', b'2', b'3', b'0']),
            entry(endian, 0x0002, 8, 2, u16_field(endian, 0xfffe)),
        ];
        let buf = directory(endian, &entries);
        let tags = decode_directory(endian, &buf, 8).unwrap();
        assert_eq!(tags.len(), 6);
        let ids: Vec<u16> = tags.iter().map(|t| t.tag).collect();
        assert_eq!(ids, vec![0x0100, 0x0101, 0x0110, 0x0112, 0x9000, 0x0002]);
        assert!(tags.iter().all(|t| t.value.is_some()));
        assert_eq!(tags[0].value, Some(ExifValue::UnsignedLong(4000)));
        assert_eq!(tags[1].value, Some(ExifValue::UnsignedShort(3000)));
        assert_eq!(tags[2].value, Some(ExifValue::AsciiString("X-T".to_string())));
        assert_eq!(tags[3].value, Some(ExifValue::UnsignedByte(7)));
        assert_eq!(tags[4].value, Some(ExifValue::Undefined(b"0230".to_vec())));
        assert_eq!(tags[5].value, Some(ExifValue::SignedShort(-2)));
        assert_eq!(tags[5].length, 4);
        assert_eq!(tags[5].bytes_per_component, 2);
        assert_eq!(tags[5].components, 2);
        assert_eq!(tags[5].format, Some(TagFormat::SignedShort));
    }
}

#[test]
fn overflowing_component_count_keeps_entry_without_value() {
    let endian = Endian::Big;
    let entries = vec![
        entry(endian, 0x0100, 4, 1, u32_field(endian, 10)),
        entry(endian, 0x0200, 5, 0x2000_0000, u32_field(endian, 0)),
        entry(endian, 0x0300, 3, 1, u16_field(endian, 5)),
    ];
    let buf = directory(endian, &entries);
    let tags = decode_directory(endian, &buf, 8).unwrap();
    assert_eq!(tags.len(), 3);
    assert_eq!(tags[1].tag, 0x0200);
    assert_eq!(tags[1].value, None);
    assert_eq!(tags[1].format, Some(TagFormat::UnsignedRational));
    assert_eq!(tags[1].length, u32::MAX);
    assert_eq!(tags[2].value, Some(ExifValue::UnsignedShort(5)));
}

#[test]
fn unsigned_rational_big_endian() {
    let endian = Endian::Big;
    let entries = vec![entry(endian, 0x829a, 5, 1, u32_field(endian, 26))];
    let mut buf = directory(endian, &entries);
    assert_eq!(buf.len(), 22);
    buf.extend_from_slice(&[0, 0, 0, 0]);
    buf.extend_from_slice(&[0x00, 0x00, 0x00, 0x01, 0x00, 0x00, 0x00, 0x02]);
    let tags = decode_directory(endian, &buf, 8).unwrap();
    assert_eq!(tags[0].value, Some(ExifValue::UnsignedRational(1, 2)));
    assert_eq!(tags[0].length, 8);
}

#[test]
fn ascii_inline_nuls_stripped() {
    let endian = Endian::Little;
    let entries = vec![entry(endian, 0x0110, 2, 4, [0x4e, 0x00, 0x00, 0x00])];
    let buf = directory(endian, &entries);
    let tags = decode_directory(endian, &buf, 8).unwrap();
    assert_eq!(tags[0].value, Some(ExifValue::AsciiString("N".to_string())));
}

#[test]
fn ascii_embedded_nuls_stripped() {
    let endian = Endian::Big;
    let entries = vec![entry(endian, 0x0110, 2, 4, [b'a', 0, b'b', 0])];
    let buf = directory(endian, &entries);
    let tags = decode_directory(endian, &buf, 8).unwrap();
    assert_eq!(tags[0].value, Some(ExifValue::AsciiString("ab".to_string())));
}

/// Encodes `value` as an entry, placing its bytes after the directory when
/// they do not fit inline; the fixture side of the round trip.
fn encode_value(endian: Endian, value: &ExifValue) -> (u16, u32, Vec<u8>) {
    let u16b = |v: u16| match endian {
        Endian::Big => v.to_be_bytes().to_vec(),
        Endian::Little => v.to_le_bytes().to_vec(),
    };
    let u32b = |v: u32| match endian {
        Endian::Big => v.to_be_bytes().to_vec(),
        Endian::Little => v.to_le_bytes().to_vec(),
    };
    let u64b = |v: u64| match endian {
        Endian::Big => v.to_be_bytes().to_vec(),
        Endian::Little => v.to_le_bytes().to_vec(),
    };
    match value {
        ExifValue::UnsignedByte(v) => (1, 1, vec![*v]),
        ExifValue::AsciiString(s) => (2, s.len() as u32 + 1, [s.as_bytes(), &[0]].concat()),
        ExifValue::UnsignedShort(v) => (3, 1, u16b(*v)),
        ExifValue::UnsignedLong(v) => (4, 1, u32b(*v)),
        ExifValue::UnsignedRational(n, d) => (5, 1, [u32b(*n), u32b(*d)].concat()),
        ExifValue::SignedByte(v) => (6, 1, vec![*v as u8]),
        ExifValue::Undefined(b) => (7, b.len() as u32, b.clone()),
        ExifValue::SignedShort(v) => (8, 1, u16b(*v as u16)),
        ExifValue::SignedLong(v) => (9, 1, u32b(*v as u32)),
        ExifValue::SignedRational(n, d) => (10, 1, [u32b(*n as u32), u32b(*d as u32)].concat()),
        ExifValue::SingleFloat(v) => (11, 1, u32b(*v)),
        ExifValue::DoubleFloat(v) => (12, 1, u64b(*v)),
    }
}

fn encode_directory(endian: Endian, triples: &[(u16, ExifValue)]) -> Vec<u8> {
    let data_start = 8 + 2 + 12 * triples.len() as u32;
    let mut data: Vec<u8> = Vec::new();
    let mut entries = Vec::new();
    for (tag, value) in triples {
        let (format, components, bytes) = encode_value(endian, value);
        let field = if bytes.len() <= 4 {
            let mut f = [0u8; 4];
            f[..bytes.len()].copy_from_slice(&bytes);
            f
        } else {
            let at = data_start + data.len() as u32;
            data.extend_from_slice(&bytes);
            u32_field(endian, at)
        };
        entries.push(entry(endian, *tag, format, components, field));
    }
    let mut buf = directory(endian, &entries);
    buf.extend_from_slice(&data);
    buf
}

fn all_formats() -> Vec<(u16, ExifValue, TagFormat)> {
    vec![
        (0x0001, ExifValue::UnsignedByte(200), TagFormat::UnsignedByte),
        (0x0002, ExifValue::AsciiString("FUJIFILM".to_string()), TagFormat::AsciiString),
        (0x0003, ExifValue::AsciiString("ab".to_string()), TagFormat::AsciiString),
        (0x0004, ExifValue::UnsignedShort(0xbeef), TagFormat::UnsignedShort),
        (0x0005, ExifValue::UnsignedLong(0xdead_beef), TagFormat::UnsignedLong),
        (0x0006, ExifValue::UnsignedRational(28, 10), TagFormat::UnsignedRational),
        (0x0007, ExifValue::SignedByte(-100), TagFormat::SignedByte),
        (0x0008, ExifValue::Undefined(vec![1, 2, 3, 4]), TagFormat::Undefined),
        (0x0013, ExifValue::AsciiString("é".to_string()), TagFormat::AsciiString),
        (0x0014, ExifValue::AsciiString(String::new()), TagFormat::AsciiString),
        (0x0009, ExifValue::Undefined(vec![9, 8, 7, 6, 5, 4]), TagFormat::Undefined),
        (0x000a, ExifValue::SignedShort(-12345), TagFormat::SignedShort),
        (0x000b, ExifValue::SignedLong(-7), TagFormat::SignedLong),
        (0x000c, ExifValue::SignedRational(-1, 3), TagFormat::SignedRational),
        (0x000d, ExifValue::SingleFloat(1.5f32.to_bits()), TagFormat::SingleFloat),
        (0x000e, ExifValue::DoubleFloat((-2.25f64).to_bits()), TagFormat::DoubleFloat),
    ]
}

#[test]
fn round_trip_every_format() {
    for endian in [Endian::Big, Endian::Little] {
        let cases = all_formats();
        let triples: Vec<(u16, ExifValue)> = cases.iter().map(|(t, v, _)| (*t, v.clone())).collect();
        let buf = encode_directory(endian, &triples);
        let tags = decode_directory(endian, &buf, 8).unwrap();
        assert_eq!(tags.len(), cases.len());
        for (decoded, (tag, value, format)) in tags.iter().zip(cases.iter()) {
            assert_eq!(decoded.tag, *tag);
            assert_eq!(decoded.format, Some(*format));
            assert_eq!(decoded.value.as_ref(), Some(value));
        }
    }
}

#[test]
fn float_bits_decode_to_floats() {
    let endian = Endian::Big;
    let buf = encode_directory(
        endian,
        &[(1, ExifValue::SingleFloat(0x3fc0_0000)), (2, ExifValue::DoubleFloat(0x4004_0000_0000_0000))],
    );
    let tags = decode_directory(endian, &buf, 8).unwrap();
    match tags[0].value {
        Some(ExifValue::SingleFloat(bits)) => assert_eq!(f32::from_bits(bits), 1.5),
        ref other => panic!("unexpected {:?}", other),
    }
    match tags[1].value {
        Some(ExifValue::DoubleFloat(bits)) => assert_eq!(f64::from_bits(bits), 2.5),
        ref other => panic!("unexpected {:?}", other),
    }
}

/// IFD0 with `n` plain entries and a pointer to a Sub-IFD of `m` entries.
fn with_sub_ifd(endian: Endian, n: usize, m: usize, pointer: Option<u32>) -> Vec<u8> {
    let mut entries = Vec::new();
    for i in 0..n {
        entries.push(entry(endian, 0x0100 + i as u16, 3, 1, u16_field(endian, i as u16)));
    }
    let sub_at = 8 + 2 + 12 * (n as u32 + 1);
    entries.push(entry(endian, 0x8769, 4, 1, u32_field(endian, pointer.unwrap_or(sub_at))));
    let mut buf = directory(endian, &entries);
    assert_eq!(buf.len() as u32, sub_at);
    put_u16(&mut buf, endian, m as u16);
    for j in 0..m {
        buf.extend_from_slice(&entry(endian, 0x9000 + j as u16, 4, 1, u32_field(endian, j as u32)));
    }
    buf
}

#[test]
fn sub_ifd_entries_follow_ifd0() {
    for endian in [Endian::Big, Endian::Little] {
        let buf = with_sub_ifd(endian, 2, 3, None);
        let tags = decode_directory(endian, &buf, 8).unwrap();
        let ids: Vec<u16> = tags.iter().map(|t| t.tag).collect();
        assert_eq!(ids, vec![0x0100, 0x0101, 0x8769, 0x9000, 0x9001, 0x9002]);
        assert_eq!(tags[5].value, Some(ExifValue::UnsignedLong(2)));
    }
}

#[test]
fn sub_ifd_out_of_range_is_skipped() {
    let endian = Endian::Big;
    let buf = with_sub_ifd(endian, 2, 3, Some(10_000));
    let tags = decode_directory(endian, &buf, 8).unwrap();
    let ids: Vec<u16> = tags.iter().map(|t| t.tag).collect();
    assert_eq!(ids, vec![0x0100, 0x0101, 0x8769]);
}

#[test]
fn sub_ifd_pointer_of_wrong_format_is_skipped() {
    let endian = Endian::Big;
    let entries = vec![entry(endian, 0x8769, 3, 1, u16_field(endian, 8))];
    let buf = directory(endian, &entries);
    let tags = decode_directory(endian, &buf, 8).unwrap();
    assert_eq!(tags.len(), 1);
}

#[test]
fn sub_ifd_pointer_is_followed_once() {
    let endian = Endian::Big;
    // The Sub-IFD points back to IFD0; only one level is followed.
    let entries = vec![entry(endian, 0x8769, 4, 1, u32_field(endian, 8))];
    let buf = directory(endian, &entries);
    let tags = decode_directory(endian, &buf, 8).unwrap();
    assert_eq!(tags.len(), 2);
    assert_eq!(tags[0], tags[1]);
}

#[test]
fn decoding_twice_gives_same_result() {
    let endian = Endian::Little;
    let buf = with_sub_ifd(endian, 3, 2, None);
    let first: Vec<ExifTag> = decode_directory(endian, &buf, 8).unwrap();
    let second: Vec<ExifTag> = decode_directory(endian, &buf, 8).unwrap();
    assert_eq!(first, second);
}

#[test]
fn unreadable_entry_count_is_an_error() {
    let buf = vec![b'M', b'M', 0, 42, 0, 0, 0, 8, 0];
    assert_eq!(decode_directory(Endian::Big, &buf, 8), Err(FormatError::InsufficientBytes));
    assert_eq!(decode_directory(Endian::Big, &buf, 100), Err(FormatError::InsufficientBytes));
}

#[test]
fn truncated_directory_keeps_entries_that_fit() {
    let endian = Endian::Big;
    let entries = vec![
        entry(endian, 1, 3, 1, u16_field(endian, 1)),
        entry(endian, 2, 3, 1, u16_field(endian, 2)),
    ];
    let mut buf = directory(endian, &entries);
    buf.truncate(buf.len() - 1);
    let tags = decode_directory(endian, &buf, 8).unwrap();
    assert_eq!(tags.len(), 1);
    assert_eq!(tags[0].tag, 1);
}

#[test]
fn out_of_range_value_keeps_entry() {
    let endian = Endian::Big;
    let entries = vec![
        entry(endian, 1, 2, 20, u32_field(endian, 500)),
        entry(endian, 2, 3, 1, u16_field(endian, 2)),
    ];
    let buf = directory(endian, &entries);
    let tags = decode_directory(endian, &buf, 8).unwrap();
    assert_eq!(tags.len(), 2);
    assert_eq!(tags[0].value, None);
    assert_eq!(tags[0].length, 20);
    assert_eq!(tags[1].value, Some(ExifValue::UnsignedShort(2)));
}

#[test]
fn unknown_format_keeps_entry() {
    let endian = Endian::Big;
    let entries = vec![entry(endian, 1, 13, 1, [0; 4]), entry(endian, 2, 0, 1, [0; 4])];
    let buf = directory(endian, &entries);
    let tags = decode_directory(endian, &buf, 8).unwrap();
    assert_eq!(tags.len(), 2);
    assert_eq!(tags[0].format, None);
    assert_eq!(tags[0].value, None);
    assert_eq!(tags[0].bytes_per_component, 0);
    assert_eq!(tags[0].length, 0);
    assert_eq!(tags[1].format, None);
}

#[test]
fn largest_entry_count_stops_at_buffer_end() {
    let endian = Endian::Big;
    let entries = vec![
        entry(endian, 1, 3, 1, u16_field(endian, 1)),
        entry(endian, 2, 3, 1, u16_field(endian, 2)),
    ];
    let mut buf = directory(endian, &entries);
    buf[8] = 0xff;
    buf[9] = 0xff;
    let tags = decode_directory(endian, &buf, 8).unwrap();
    assert_eq!(tags.len(), 2);
    assert_eq!(tags[1].value, Some(ExifValue::UnsignedShort(2)));
}

#[test]
fn empty_directory() {
    let buf = directory(Endian::Little, &[]);
    assert_eq!(decode_directory(Endian::Little, &buf, 8), Ok(vec![]));
}

#[test]
fn short_undefined_inline_reads_whole_field() {
    let endian = Endian::Big;
    let entries = vec![
        entry(endian, 0xa301, 7, 1, [0x01, 0xff, 0xff, 0xff]),
        entry(endian, 0xa302, 7, 2, [0x01, 0x02, 0x00, 0x00]),
    ];
    let buf = directory(endian, &entries);
    let tags = decode_directory(endian, &buf, 8).unwrap();
    assert_eq!(tags[0].value, Some(ExifValue::Undefined(vec![0x01, 0xff, 0xff, 0xff])));
    assert_eq!(tags[1].value, Some(ExifValue::Undefined(vec![0x01, 0x02, 0x00, 0x00])));
    assert_eq!(tags[1].length, 2);
}

#[test]
fn short_text_inline_reads_whole_field() {
    let endian = Endian::Little;
    let entries = vec![entry(endian, 0x0110, 2, 2, [b'A', 0, b'Z', b'Z'])];
    let buf = directory(endian, &entries);
    let tags = decode_directory(endian, &buf, 8).unwrap();
    assert_eq!(tags[0].value, Some(ExifValue::AsciiString("AZZ".to_string())));
}

#[test]
fn zero_component_number_reads_field() {
    let endian = Endian::Big;
    let entries = vec![
        entry(endian, 1, 3, 0, [0x00, 0x40, 0x00, 0x00]),
        entry(endian, 2, 7, 0, [1, 2, 3, 4]),
        entry(endian, 3, 5, 0, [0, 0, 0, 1]),
    ];
    let buf = directory(endian, &entries);
    let tags = decode_directory(endian, &buf, 8).unwrap();
    assert_eq!(tags.len(), 3);
    assert_eq!(tags[0].value, Some(ExifValue::UnsignedShort(64)));
    assert_eq!(tags[0].length, 0);
    assert_eq!(tags[1].value, Some(ExifValue::Undefined(vec![1, 2, 3, 4])));
    // A rational needs eight bytes, more than the field holds.
    assert_eq!(tags[2].value, None);
}

#[test]
fn overflow_among_inline_entries_keeps_the_rest() {
    let endian = Endian::Little;
    let entries = vec![
        entry(endian, 0x0100, 4, 1, u32_field(endian, 1)),
        entry(endian, 0x0101, 3, 1, u16_field(endian, 2)),
        entry(endian, 0x0102, 10, 0x8000_0000, [0; 4]),
        entry(endian, 0x0103, 1, 1, [3, 0, 0, 0]),
        entry(endian, 0x0104, 2, 2, [b'q', 0, 0, 0]),
    ];
    let buf = directory(endian, &entries);
    let tags = decode_directory(endian, &buf, 8).unwrap();
    assert_eq!(tags.len(), 5);
    let ids: Vec<u16> = tags.iter().map(|t| t.tag).collect();
    assert_eq!(ids, vec![0x0100, 0x0101, 0x0102, 0x0103, 0x0104]);
    assert_eq!(tags[2].value, None);
    assert_eq!(tags[3].value, Some(ExifValue::UnsignedByte(3)));
    assert_eq!(tags[4].value, Some(ExifValue::AsciiString("q".to_string())));
    assert!(tags.iter().enumerate().all(|(i, t)| (i == 2) != t.value.is_some()));
}
