use vstd::prelude::*;
use vstd::utf8::{decode_utf8, valid_utf8};

use crate::common::{ImageFile, Jpeg, RAW};
use crate::parsing::{self, remove_nul, u32_at, without_nul};
use crate::traits::{Endian, EndianRead};

verus! {

// The text fields of the header, each as the bytes `START..END`.
const FORMAT_START: usize = 0;
const FORMAT_END: usize = 16;
const VERSION_START: usize = 16;
const VERSION_END: usize = 20;
const IDENTIFIER_START: usize = 20;
const IDENTIFIER_END: usize = 28;
const MODEL_START: usize = 28;
const MODEL_END: usize = 60;

/// Where the big-endian offset of the embedded JPEG lies; its length follows.
const JPEG_OFFSET_START: usize = 84;
/// Where the big-endian offset of the sensor data lies; its length follows.
const CFA_OFFSET_START: usize = 100;

/// The text that bytes `start..end` of `b` hold, when they are there and UTF-8.
pub open spec fn text_field(b: Seq<u8>, start: int, end: int) -> Option<Seq<char>> {
    if end <= b.len() && valid_utf8(b.subrange(start, end)) {
        Some(decode_utf8(b.subrange(start, end)))
    } else {
        None
    }
}

/// The bytes of `b` named by the big-endian offset at `at` and the big-endian
/// length after it, when all of them are there.
pub open spec fn embedded_bytes(b: Seq<u8>, at: int) -> Option<Seq<u8>> {
    if b.len() >= at + 8 {
        let offset = u32_at(Endian::Big, b, at) as int;
        let length = u32_at(Endian::Big, b, at + 4) as int;
        if offset + length <= b.len() {
            Some(b.subrange(offset, offset + length))
        } else {
            None
        }
    } else {
        None
    }
}

/// Reads the header of the RAW image file `bytes`.
pub fn parse(bytes: &[u8]) -> (r: Option<ImageFile>)
    ensures
        r is Some <==> {
            &&& text_field(bytes@, 28, 60) is Some
            &&& text_field(bytes@, 0, 16) is Some
            &&& text_field(bytes@, 20, 28) is Some
            &&& text_field(bytes@, 16, 20) is Some
            &&& embedded_bytes(bytes@, 84) is Some
        },
        r matches Some(f) ==> {
            &&& f.model@ == without_nul(text_field(bytes@, 28, 60)->0)
            &&& f.format@ == text_field(bytes@, 0, 16)->0
            &&& f.identifier@ == text_field(bytes@, 20, 28)->0
            &&& f.version@ == text_field(bytes@, 16, 20)->0
            &&& f.jpeg.bytes@ == embedded_bytes(bytes@, 84)->0
        },
{
    let model = match parse_model(bytes) {
        Some(m) => m,
        None => return None,
    };
    let format = match parse_format(bytes) {
        Some(f) => f,
        None => return None,
    };
    let identifier = match parse_identifier(bytes) {
        Some(i) => i,
        None => return None,
    };
    let version = match parse_version(bytes) {
        Some(v) => v,
        None => return None,
    };
    let jpeg = match parse_jpeg(bytes) {
        Some(j) => j,
        None => return None,
    };
    Some(ImageFile { format, identifier, model, version, jpeg })
}

/// The bytes of `raw_bytes` named by the big-endian offset at `at` and the
/// big-endian length after it.
fn embedded_range(raw_bytes: &[u8], at: usize) -> (r: Option<Vec<u8>>)
    requires
        at <= 100,
    ensures
        r is Some <==> embedded_bytes(raw_bytes@, at as int) is Some,
        r matches Some(v) ==> v@ == embedded_bytes(raw_bytes@, at as int)->0,
{
    if raw_bytes.len() >= at + 8 {
        assert(raw_bytes@.skip(at as int).take(4) =~= raw_bytes@.subrange(at as int, at + 4));
        assert(raw_bytes@.skip(at + 4).take(4) =~= raw_bytes@.subrange(at + 4, at + 8));
    }
    let offset = match u32::from_offset_endian_bytes(&Endian::Big, raw_bytes, at) {
        Some(o) => o as usize,
        None => return None,
    };
    let length = match u32::from_offset_endian_bytes(&Endian::Big, raw_bytes, at + 4) {
        Some(l) => l as usize,
        None => return None,
    };
    if offset > raw_bytes.len() || length > raw_bytes.len() - offset {
        return None;
    }
    Some(vstd::slice::slice_to_vec(vstd::slice::slice_subrange(raw_bytes, offset, offset + length)))
}

/// The embedded JPEG preview.
fn parse_jpeg(raw_bytes: &[u8]) -> (r: Option<Jpeg>)
    ensures
        r is Some <==> embedded_bytes(raw_bytes@, 84) is Some,
        r matches Some(j) ==> j.bytes@ == embedded_bytes(raw_bytes@, 84)->0,
{
    match embedded_range(raw_bytes, JPEG_OFFSET_START) {
        Some(bytes) => Some(Jpeg { bytes }),
        None => None,
    }
}

/// The sensor data.
pub fn parse_cfa(raw_bytes: &[u8]) -> (r: Option<RAW>)
    ensures
        r is Some <==> embedded_bytes(raw_bytes@, 100) is Some,
        r matches Some(c) ==> c.bytes@ == embedded_bytes(raw_bytes@, 100)->0,
{
    match embedded_range(raw_bytes, CFA_OFFSET_START) {
        Some(bytes) => Some(RAW { bytes }),
        None => None,
    }
}

/// The camera model, with its NUL padding taken out.
fn parse_model(bytes: &[u8]) -> (r: Option<String>)
    ensures
        r is Some <==> text_field(bytes@, 28, 60) is Some,
        r matches Some(s) ==> s@ == without_nul(text_field(bytes@, 28, 60)->0),
{
    match parsing::bytes_to_string(bytes, MODEL_START..MODEL_END) {
        Some(parsed) => Some(remove_nul(parsed.as_str())),
        None => None,
    }
}

/// The format version.
fn parse_version(bytes: &[u8]) -> (r: Option<String>)
    ensures
        r is Some <==> text_field(bytes@, 16, 20) is Some,
        r matches Some(s) ==> s@ == text_field(bytes@, 16, 20)->0,
{
    parsing::bytes_to_string(bytes, VERSION_START..VERSION_END)
}

/// The camera identifier.
fn parse_identifier(bytes: &[u8]) -> (r: Option<String>)
    ensures
        r is Some <==> text_field(bytes@, 20, 28) is Some,
        r matches Some(s) ==> s@ == text_field(bytes@, 20, 28)->0,
{
    parsing::bytes_to_string(bytes, IDENTIFIER_START..IDENTIFIER_END)
}

/// The file format name.
fn parse_format(bytes: &[u8]) -> (r: Option<String>)
    ensures
        r is Some <==> text_field(bytes@, 0, 16) is Some,
        r matches Some(s) ==> s@ == text_field(bytes@, 0, 16)->0,
{
    parsing::bytes_to_string(bytes, FORMAT_START..FORMAT_END)
}

} // verus!
