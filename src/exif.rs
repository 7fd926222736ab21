use vstd::prelude::*;

use crate::error::FormatError;
use crate::helpers::{first_occurrence, get_sequence_range};
use crate::parsing::{self, ascii_text, sint_at, u16_at, u32_at, uint_at, ExifValue, ExifValueView};
use crate::traits::{Endian, EndianRead};

verus! {

/// The format of a directory entry's value, from its 16-bit format code.
#[derive(Debug, Clone, Copy, PartialEq, Eq, Structural)]
pub enum TagFormat {
    UnsignedByte,
    AsciiString,
    UnsignedShort,
    UnsignedLong,
    UnsignedRational,
    SignedByte,
    Undefined,
    SignedShort,
    SignedLong,
    SignedRational,
    SingleFloat,
    DoubleFloat,
}

/// The format that format code `code` names; codes `1..=12` in the order of
/// [`TagFormat`]'s variants.
pub open spec fn tag_format_of(code: u16) -> Option<TagFormat> {
    match code {
        1 => Some(TagFormat::UnsignedByte),
        2 => Some(TagFormat::AsciiString),
        3 => Some(TagFormat::UnsignedShort),
        4 => Some(TagFormat::UnsignedLong),
        5 => Some(TagFormat::UnsignedRational),
        6 => Some(TagFormat::SignedByte),
        7 => Some(TagFormat::Undefined),
        8 => Some(TagFormat::SignedShort),
        9 => Some(TagFormat::SignedLong),
        10 => Some(TagFormat::SignedRational),
        11 => Some(TagFormat::SingleFloat),
        12 => Some(TagFormat::DoubleFloat),
        _ => None,
    }
}

/// The number of bytes one component of format `f` takes.
pub open spec fn component_width(f: TagFormat) -> u32 {
    match f {
        TagFormat::UnsignedByte => 1,
        TagFormat::AsciiString => 1,
        TagFormat::UnsignedShort => 2,
        TagFormat::UnsignedLong => 4,
        TagFormat::UnsignedRational => 8,
        TagFormat::SignedByte => 1,
        TagFormat::Undefined => 1,
        TagFormat::SignedShort => 2,
        TagFormat::SignedLong => 4,
        TagFormat::SignedRational => 8,
        TagFormat::SingleFloat => 4,
        TagFormat::DoubleFloat => 8,
    }
}

/// The value of format `f` that `b` holds in byte order `endian`. Numbers are
/// read from the start of `b`; text is all of `b` with its NULs taken out;
/// `Undefined` is `b` itself.
pub open spec fn spec_tag_value(f: TagFormat, endian: Endian, b: Seq<u8>) -> Result<ExifValueView, FormatError> {
    if f != TagFormat::AsciiString && f != TagFormat::Undefined && b.len() < component_width(f) {
        Err(FormatError::InsufficientBytes)
    } else {
        match f {
            TagFormat::UnsignedByte => Ok(ExifValueView::UnsignedByte(uint_at(endian, b, 0, 1) as u8)),
            TagFormat::AsciiString => match ascii_text(b) {
                Some(t) => Ok(ExifValueView::AsciiString(t)),
                None => Err(FormatError::InvalidUtf8),
            },
            TagFormat::UnsignedShort => Ok(ExifValueView::UnsignedShort(uint_at(endian, b, 0, 2) as u16)),
            TagFormat::UnsignedLong => Ok(ExifValueView::UnsignedLong(uint_at(endian, b, 0, 4) as u32)),
            TagFormat::UnsignedRational => Ok(
                ExifValueView::UnsignedRational(
                    uint_at(endian, b, 0, 4) as u32,
                    uint_at(endian, b, 4, 4) as u32,
                ),
            ),
            TagFormat::SignedByte => Ok(ExifValueView::SignedByte(sint_at(endian, b, 0, 1) as i8)),
            TagFormat::Undefined => Ok(ExifValueView::Undefined(b)),
            TagFormat::SignedShort => Ok(ExifValueView::SignedShort(sint_at(endian, b, 0, 2) as i16)),
            TagFormat::SignedLong => Ok(ExifValueView::SignedLong(sint_at(endian, b, 0, 4) as i32)),
            TagFormat::SignedRational => Ok(
                ExifValueView::SignedRational(
                    sint_at(endian, b, 0, 4) as i32,
                    sint_at(endian, b, 4, 4) as i32,
                ),
            ),
            TagFormat::SingleFloat => Ok(ExifValueView::SingleFloat(uint_at(endian, b, 0, 4) as u32)),
            TagFormat::DoubleFloat => Ok(ExifValueView::DoubleFloat(uint_at(endian, b, 0, 8) as u64)),
        }
    }
}

/// The view of a decoding result.
pub open spec fn value_result_view(r: Result<ExifValue, FormatError>) -> Result<ExifValueView, FormatError> {
    match r {
        Ok(v) => Ok(v@),
        Err(e) => Err(e),
    }
}

/// Looks up format code `value`.
pub fn get_tag_format(value: &u16) -> (r: Option<TagFormat>)
    ensures
        r == tag_format_of(*value),
{
    match *value {
        1 => Some(TagFormat::UnsignedByte),
        2 => Some(TagFormat::AsciiString),
        3 => Some(TagFormat::UnsignedShort),
        4 => Some(TagFormat::UnsignedLong),
        5 => Some(TagFormat::UnsignedRational),
        6 => Some(TagFormat::SignedByte),
        7 => Some(TagFormat::Undefined),
        8 => Some(TagFormat::SignedShort),
        9 => Some(TagFormat::SignedLong),
        10 => Some(TagFormat::SignedRational),
        11 => Some(TagFormat::SingleFloat),
        12 => Some(TagFormat::DoubleFloat),
        _ => None,
    }
}

/// The number of bytes one component of `format` takes.
pub fn get_bytes_per_component(format: &TagFormat) -> (r: u32)
    ensures
        r == component_width(*format),
{
    match format {
        TagFormat::UnsignedByte => 1,
        TagFormat::AsciiString => 1,
        TagFormat::UnsignedShort => 2,
        TagFormat::UnsignedLong => 4,
        TagFormat::UnsignedRational => 8,
        TagFormat::SignedByte => 1,
        TagFormat::Undefined => 1,
        TagFormat::SignedShort => 2,
        TagFormat::SignedLong => 4,
        TagFormat::SignedRational => 8,
        TagFormat::SingleFloat => 4,
        TagFormat::DoubleFloat => 8,
    }
}

/// Decodes `bytes` as a value of `format`.
pub fn parse_tag_value(format: &TagFormat, endian: &Endian, bytes: &[u8]) -> (r: Result<ExifValue, FormatError>)
    ensures
        value_result_view(r) == spec_tag_value(*format, *endian, bytes@),
{
    let decoded = match format {
        TagFormat::UnsignedByte => parsing::bytes_to_unsigned_byte(endian, bytes),
        TagFormat::AsciiString => {
            return match parsing::bytes_to_ascii_string(bytes) {
                Some(v) => Ok(v),
                None => Err(FormatError::InvalidUtf8),
            };
        },
        TagFormat::UnsignedShort => parsing::bytes_to_unsigned_short(endian, bytes),
        TagFormat::UnsignedLong => parsing::bytes_to_unsigned_long(endian, bytes),
        TagFormat::UnsignedRational => parsing::bytes_to_unsigned_rational(endian, bytes),
        TagFormat::SignedByte => parsing::bytes_to_signed_byte(endian, bytes),
        TagFormat::Undefined => parsing::bytes_to_undefined(bytes),
        TagFormat::SignedShort => parsing::bytes_to_signed_short(endian, bytes),
        TagFormat::SignedLong => parsing::bytes_to_signed_long(endian, bytes),
        TagFormat::SignedRational => parsing::bytes_to_signed_rational(endian, bytes),
        TagFormat::SingleFloat => parsing::bytes_to_single_float(endian, bytes),
        TagFormat::DoubleFloat => parsing::bytes_to_double_float(endian, bytes),
    };
    match decoded {
        Some(v) => Ok(v),
        None => Err(FormatError::InsufficientBytes),
    }
}


/// Bytes in one directory entry.
pub const EXIF_ENTRY_SIZE: usize = 12;

/// The bytes that hold a value of `length` bytes whose entry has value field
/// `field`: the whole four-byte field when the value fits in it (a number is
/// then read from the field's start), else the `length` bytes of `buf` at the
/// offset that the field holds.
pub open spec fn spec_value_span(endian: Endian, buf: Seq<u8>, length: u32, field: Seq<u8>) -> Result<Seq<u8>, FormatError> {
    if length <= 4 {
        Ok(field)
    } else {
        let offset = u32_at(endian, field, 0) as int;
        if offset + length <= buf.len() {
            Ok(buf.subrange(offset, offset + length))
        } else {
            Err(FormatError::OffsetOutOfRange)
        }
    }
}

/// The value of the 12-byte directory entry `e`, with `buf` as the space its
/// offsets point into.
pub open spec fn spec_entry_value(endian: Endian, buf: Seq<u8>, e: Seq<u8>) -> Result<ExifValueView, FormatError> {
    match tag_format_of(u16_at(endian, e, 2)) {
        None => Err(FormatError::UnknownTagFormat),
        Some(f) => {
            let length = u32_at(endian, e, 4) as int * component_width(f) as int;
            if length > u32::MAX {
                Err(FormatError::ComponentCountOverflow)
            } else {
                match spec_value_span(endian, buf, length as u32, e.subrange(8, 12)) {
                    Ok(span) => spec_tag_value(f, endian, span),
                    Err(err) => Err(err),
                }
            }
        },
    }
}

/// The bytes of a value of `length` bytes whose entry has value field `field`
/// (see [`spec_value_span`]).
pub fn value_bytes<'a>(endian: &Endian, lookup_ifd: &'a [u8], length: u32, field: &'a [u8]) -> (r: Result<&'a [u8], FormatError>)
    requires
        field@.len() == 4,
    ensures
        r matches Ok(b) ==> spec_value_span(*endian, lookup_ifd@, length, field@) == Ok::<Seq<u8>, FormatError>(b@),
        r matches Err(e) ==> spec_value_span(*endian, lookup_ifd@, length, field@) == Err::<Seq<u8>, FormatError>(e),
{
    if length <= 4 {
        return Ok(field);
    }
    assert(field@.skip(0).take(4) =~= field@.subrange(0, 4));
    let offset = match u32::from_endian_bytes(endian, field) {
        Some(o) => o as usize,
        None => return Err(FormatError::InsufficientBytes),
    };
    let length = length as usize;
    if offset > lookup_ifd.len() || length > lookup_ifd.len() - offset {
        Err(FormatError::OffsetOutOfRange)
    } else {
        Ok(vstd::slice::slice_subrange(lookup_ifd, offset, offset + length))
    }
}

/// Decodes the value of the 12-byte directory entry `entry`, with
/// `lookup_ifd` as the space its offsets point into.
pub fn decode_entry_value(endian: &Endian, lookup_ifd: &[u8], entry: &[u8]) -> (r: Result<ExifValue, FormatError>)
    requires
        entry@.len() == EXIF_ENTRY_SIZE,
    ensures
        value_result_view(r) == spec_entry_value(*endian, lookup_ifd@, entry@),
{
    assert(entry@.skip(2).take(2) =~= entry@.subrange(2, 4));
    assert(entry@.skip(4).take(4) =~= entry@.subrange(4, 8));
    let format_value = match u16::from_offset_endian_bytes(endian, entry, 2) {
        Some(v) => v,
        None => return Err(FormatError::InsufficientBytes),
    };
    let format = match get_tag_format(&format_value) {
        Some(f) => f,
        None => return Err(FormatError::UnknownTagFormat),
    };
    let components = match u32::from_offset_endian_bytes(endian, entry, 4) {
        Some(v) => v,
        None => return Err(FormatError::InsufficientBytes),
    };
    let bytes_per_component = get_bytes_per_component(&format);
    let length = match components.checked_mul(bytes_per_component) {
        Some(l) => l,
        None => return Err(FormatError::ComponentCountOverflow),
    };
    let field = vstd::slice::slice_subrange(entry, 8, 12);
    match value_bytes(endian, lookup_ifd, length, field) {
        Ok(span) => parse_tag_value(&format, endian, span),
        Err(e) => Err(e),
    }
}

/// One decoded directory entry. `format` is `None` for an unknown format code;
/// `value` is `None` when the entry's value could not be decoded. `length` is
/// `components * bytes_per_component`, or `u32::MAX` when that overflows.
#[derive(Debug, Clone, PartialEq)]
pub struct ExifTag {
    pub tag: u16,
    pub format: Option<TagFormat>,
    pub value: Option<ExifValue>,
    pub components: u32,
    pub bytes_per_component: u32,
    pub length: u32,
}

/// The mathematical content of an [`ExifTag`].
pub struct ExifTagView {
    pub tag: u16,
    pub format: Option<TagFormat>,
    pub value: Option<ExifValueView>,
    pub components: u32,
    pub bytes_per_component: u32,
    pub length: u32,
}

impl View for ExifTag {
    type V = ExifTagView;

    open spec fn view(&self) -> ExifTagView {
        ExifTagView {
            tag: self.tag,
            format: self.format,
            value: match self.value {
                Some(v) => Some(v@),
                None => None,
            },
            components: self.components,
            bytes_per_component: self.bytes_per_component,
            length: self.length,
        }
    }
}

/// The decoded form of the 12-byte directory entry `e`.
pub open spec fn spec_entry(endian: Endian, buf: Seq<u8>, e: Seq<u8>) -> ExifTagView {
    let format = tag_format_of(u16_at(endian, e, 2));
    let components = u32_at(endian, e, 4);
    let width: u32 = match format {
        Some(f) => component_width(f),
        None => 0,
    };
    let length = components as int * width as int;
    ExifTagView {
        tag: u16_at(endian, e, 0),
        format,
        value: match spec_entry_value(endian, buf, e) {
            Ok(v) => Some(v),
            Err(_) => None,
        },
        components,
        bytes_per_component: width,
        length: if length <= u32::MAX {
            length as u32
        } else {
            u32::MAX
        },
    }
}

/// Decodes the 12-byte directory entry `entry`, with `lookup_ifd` as the space
/// its offsets point into.
pub fn parse_entry(endian: &Endian, lookup_ifd: &[u8], entry: &[u8]) -> (r: ExifTag)
    requires
        entry@.len() == EXIF_ENTRY_SIZE,
    ensures
        r@ == spec_entry(*endian, lookup_ifd@, entry@),
{
    assert(entry@.skip(0).take(2) =~= entry@.subrange(0, 2));
    assert(entry@.skip(2).take(2) =~= entry@.subrange(2, 4));
    assert(entry@.skip(4).take(4) =~= entry@.subrange(4, 8));
    let tag = match u16::from_endian_bytes(endian, entry) {
        Some(v) => v,
        None => 0,
    };
    let format_value = match u16::from_offset_endian_bytes(endian, entry, 2) {
        Some(v) => v,
        None => 0,
    };
    let components = match u32::from_offset_endian_bytes(endian, entry, 4) {
        Some(v) => v,
        None => 0,
    };
    let format = get_tag_format(&format_value);
    let bytes_per_component = match format {
        Some(f) => get_bytes_per_component(&f),
        None => 0,
    };
    let length = match components.checked_mul(bytes_per_component) {
        Some(l) => l,
        None => u32::MAX,
    };
    let value = match decode_entry_value(endian, lookup_ifd, entry) {
        Ok(v) => Some(v),
        Err(_) => None,
    };
    ExifTag { tag, format, value, components, bytes_per_component, length }
}


/// Used to locate the Sub-IFD, which holds further metadata of the image.
pub const SUB_IFD_TAG_ID: u16 = 0x8769;

/// The number of 12-byte entries, out of `count`, that lie wholly inside a
/// buffer of `len` bytes when the first starts at `first`.
pub open spec fn entries_that_fit(len: int, first: int, count: nat) -> nat {
    if first > len {
        0
    } else if count <= (len - first) / 12 {
        count
    } else {
        ((len - first) / 12) as nat
    }
}

/// The bytes of entry `i` of a directory whose entries start at `first`.
pub open spec fn entry_bytes(buf: Seq<u8>, first: int, i: int) -> Seq<u8> {
    buf.subrange(first + 12 * i, first + 12 * i + 12)
}

/// The decoded entries, up to `count` of them, of a directory whose entries
/// start at `first` in `buf`; entries that run past the end of `buf` are left out.
pub open spec fn spec_entries(endian: Endian, buf: Seq<u8>, first: int, count: nat) -> Seq<ExifTagView> {
    Seq::new(
        entries_that_fit(buf.len() as int, first, count),
        |i: int| spec_entry(endian, buf, entry_bytes(buf, first, i)),
    )
}

/// The views of `tags`, in order.
pub open spec fn tags_view(tags: Seq<ExifTag>) -> Seq<ExifTagView> {
    tags.map_values(|t: ExifTag| t@)
}

/// Decodes up to `ifd0_count` entries of the directory whose entries start
/// `ifd_value_offset + ifd0_entry_offset` bytes into `lookup_ifd`.
pub fn parse_entries(
    endian: &Endian,
    lookup_ifd: &[u8],
    ifd_value_offset: usize,
    ifd0_entry_offset: usize,
    ifd0_count: u16,
) -> (r: Vec<ExifTag>)
    ensures
        tags_view(r@) == spec_entries(
            *endian,
            lookup_ifd@,
            ifd_value_offset + ifd0_entry_offset,
            ifd0_count as nat,
        ),
{
    let mut entries: Vec<ExifTag> = Vec::new();
    let len = lookup_ifd.len();
    let ghost first_int = ifd_value_offset + ifd0_entry_offset;
    let first = match ifd_value_offset.checked_add(ifd0_entry_offset) {
        Some(f) => f,
        None => {
            assert(tags_view(entries@) =~= spec_entries(*endian, lookup_ifd@, first_int, ifd0_count as nat));
            return entries;
        },
    };
    if first > len {
        assert(tags_view(entries@) =~= spec_entries(*endian, lookup_ifd@, first_int, ifd0_count as nat));
        return entries;
    }
    let room = (len - first) / EXIF_ENTRY_SIZE;
    let n: usize = if (ifd0_count as usize) <= room {
        ifd0_count as usize
    } else {
        room
    };
    let mut c: usize = 0;
    while c < n
        invariant
            c <= n,
            first == first_int,
            len == lookup_ifd@.len(),
            first <= len,
            room == (len - first) / 12,
            n <= room,
            n == entries_that_fit(len as int, first as int, ifd0_count as nat),
            entries@.len() == c,
            forall|j: int|
                0 <= j < c ==> #[trigger] entries@[j]@ == spec_entry(
                    *endian,
                    lookup_ifd@,
                    entry_bytes(lookup_ifd@, first as int, j),
                ),
        decreases n - c,
    {
        assert(c * 12 + 12 <= len - first) by (nonlinear_arith)
            requires
                c < n,
                n <= room,
                room == (len - first) / 12,
                first <= len,
        ;
        let start = first + c * EXIF_ENTRY_SIZE;
        let entry = vstd::slice::slice_subrange(lookup_ifd, start, start + EXIF_ENTRY_SIZE);
        entries.push(parse_entry(endian, lookup_ifd, entry));
        c = c + 1;
    }
    assert(tags_view(entries@) =~= spec_entries(*endian, lookup_ifd@, first_int, ifd0_count as nat));
    entries
}

/// Whether entry `i` is the first of `tags` with tag id `tag`.
pub open spec fn is_first_with_tag(tags: Seq<ExifTagView>, tag: u16, i: int) -> bool {
    &&& 0 <= i < tags.len()
    &&& tags[i].tag == tag
    &&& forall|j: int| 0 <= j < i ==> #[trigger] tags[j].tag != tag
}

/// The index of the first entry of `tags` with tag id `tag`, if any has it.
pub open spec fn first_with_tag(tags: Seq<ExifTagView>, tag: u16) -> Option<int> {
    if exists|i: int| is_first_with_tag(tags, tag, i) {
        Some(choose|i: int| is_first_with_tag(tags, tag, i))
    } else {
        None
    }
}

/// The index of the first of `tags` with tag id `tag`.
fn find_tag(tags: &Vec<ExifTag>, tag: u16) -> (r: Option<usize>)
    ensures
        r matches Some(i) ==> first_with_tag(tags_view(tags@), tag) == Some(i as int),
        r is None ==> first_with_tag(tags_view(tags@), tag) is None,
{
    let ghost view = tags_view(tags@);
    let mut i: usize = 0;
    while i < tags.len()
        invariant
            i <= tags@.len(),
            view == tags_view(tags@),
            forall|j: int| 0 <= j < i ==> #[trigger] view[j].tag != tag,
        decreases tags@.len() - i,
    {
        if tags[i].tag == tag {
            assert(is_first_with_tag(view, tag, i as int));
            proof {
                let k = choose|k: int| is_first_with_tag(view, tag, k);
                if k < i {
                    assert(view[k].tag != tag);
                } else if k > i {
                    assert(view[i as int].tag != tag);
                }
            }
            return Some(i);
        }
        i = i + 1;
    }
    assert(!exists|k: int| is_first_with_tag(view, tag, k)) by {
        assert forall|k: int| !is_first_with_tag(view, tag, k) by {
            if 0 <= k < view.len() {
                assert(view[k].tag != tag);
            }
        }
    }
    None
}

/// The entries of the Sub-IFD that the first pointer entry of `ifd0` names, or
/// none when there is no such entry, its value is not an `UnsignedLong`, or its
/// directory's entry count lies outside `buf`.
pub open spec fn spec_sub_ifd(endian: Endian, buf: Seq<u8>, ifd0: Seq<ExifTagView>) -> Seq<ExifTagView> {
    match first_with_tag(ifd0, SUB_IFD_TAG_ID) {
        Some(i) => match ifd0[i].value {
            Some(ExifValueView::UnsignedLong(p)) => if p as int + 2 <= buf.len() {
                spec_entries(endian, buf, p as int + 2, u16_at(endian, buf, p as int) as nat)
            } else {
                Seq::empty()
            },
            _ => Seq::empty(),
        },
        None => Seq::empty(),
    }
}

/// The entries of the directory whose entry count starts at `offset` in `buf`,
/// followed by those of the Sub-IFD it points to; an error when the count
/// itself lies outside `buf`.
pub open spec fn spec_directory(endian: Endian, buf: Seq<u8>, offset: int) -> Result<Seq<ExifTagView>, FormatError> {
    if offset + 2 > buf.len() {
        Err(FormatError::InsufficientBytes)
    } else {
        let ifd0 = spec_entries(endian, buf, offset + 2, u16_at(endian, buf, offset) as nat);
        Ok(ifd0 + spec_sub_ifd(endian, buf, ifd0))
    }
}

/// The view of a directory decoding result.
pub open spec fn directory_result_view(r: Result<Vec<ExifTag>, FormatError>) -> Result<Seq<ExifTagView>, FormatError> {
    match r {
        Ok(tags) => Ok(tags_view(tags@)),
        Err(e) => Err(e),
    }
}

/// Decodes the Sub-IFD that `ifd0` points to, if any (see [`spec_sub_ifd`]).
fn sub_ifd_entries(endian: &Endian, buffer: &[u8], ifd0: &Vec<ExifTag>) -> (r: Vec<ExifTag>)
    ensures
        tags_view(r@) == spec_sub_ifd(*endian, buffer@, tags_view(ifd0@)),
{
    let ghost view = tags_view(ifd0@);
    let empty: Vec<ExifTag> = Vec::new();
    assert(tags_view(empty@) =~= Seq::<ExifTagView>::empty());
    match find_tag(ifd0, SUB_IFD_TAG_ID) {
        None => empty,
        Some(i) => {
            assert(view[i as int] == ifd0@[i as int]@);
            match &ifd0[i].value {
                Some(ExifValue::UnsignedLong(offset)) => {
                    let offset = *offset as usize;
                    if offset <= buffer.len() && 2 <= buffer.len() - offset {
                        assert(buffer@.skip(offset as int).take(2) =~= buffer@.subrange(
                            offset as int,
                            offset + 2,
                        ));
                    }
                    match u16::from_offset_endian_bytes(endian, buffer, offset) {
                        Some(count) => parse_entries(endian, buffer, offset, 2, count),
                        None => empty,
                    }
                },
                _ => empty,
            }
        },
    }
}

/// `ifd0` followed by the entries of the Sub-IFD it points to, if any.
fn append_sub_ifd(endian: &Endian, buffer: &[u8], ifd0: Vec<ExifTag>) -> (r: Vec<ExifTag>)
    ensures
        tags_view(r@) == tags_view(ifd0@) + spec_sub_ifd(*endian, buffer@, tags_view(ifd0@)),
{
    let mut entries = ifd0;
    let ghost first = entries@;
    let mut sub = sub_ifd_entries(endian, buffer, &entries);
    let ghost second = sub@;
    entries.append(&mut sub);
    assert(tags_view(entries@) =~= tags_view(first) + tags_view(second));
    entries
}

/// Decodes the directory whose entry count starts `directory_offset` bytes into
/// `buffer`, and after its entries those of the Sub-IFD it points to.
pub fn decode_directory(endian: Endian, buffer: &[u8], directory_offset: usize) -> (r: Result<Vec<ExifTag>, FormatError>)
    ensures
        directory_result_view(r) == spec_directory(endian, buffer@, directory_offset as int),
{
    if directory_offset <= buffer.len() && 2 <= buffer.len() - directory_offset {
        assert(buffer@.skip(directory_offset as int).take(2) =~= buffer@.subrange(
            directory_offset as int,
            directory_offset + 2,
        ));
    }
    let count = match u16::from_offset_endian_bytes(&endian, buffer, directory_offset) {
        Some(c) => c,
        None => return Err(FormatError::InsufficientBytes),
    };
    let entries = parse_entries(&endian, buffer, directory_offset, 2, count);
    let entries = append_sub_ifd(&endian, buffer, entries);
    Ok(entries)
}


/// EXIF tag ids of a few common tags.
pub enum ExifTagID {
    /// A `u32`.
    ImageWidth,
    /// A `u32`.
    ImageHeight,
    /// Text.
    Model,
}

impl ExifTagID {
    /// The numeric tag id.
    pub open spec fn spec_id(&self) -> u16 {
        match self {
            ExifTagID::ImageWidth => 0x100,
            ExifTagID::ImageHeight => 0x101,
            ExifTagID::Model => 0x110,
        }
    }

    /// The numeric tag id.
    pub fn id(&self) -> (r: u16)
        ensures
            r == self.spec_id(),
    {
        match self {
            ExifTagID::ImageWidth => 0x100,
            ExifTagID::ImageHeight => 0x101,
            ExifTagID::Model => 0x110,
        }
    }
}

/// The six bytes `Exif\0\0` that open the EXIF data inside a file.
pub open spec fn exif_marker() -> Seq<u8> {
    seq![0x45u8, 0x78u8, 0x69u8, 0x66u8, 0u8, 0u8]
}

/// The byte order that the marker bytes `m0 m1` declare: `MM` big-endian,
/// `II` little-endian.
pub open spec fn endian_of_marker(m0: u8, m1: u8) -> Option<Endian> {
    if m0 == 0x4d && m1 == 0x4d {
        Some(Endian::Big)
    } else if m0 == 0x49 && m1 == 0x49 {
        Some(Endian::Little)
    } else {
        None
    }
}

/// The byte order that the two-byte `marker` declares.
pub fn resolve_endianness(marker: &[u8; 2]) -> (r: Result<Endian, FormatError>)
    ensures
        r == (match endian_of_marker(marker@[0], marker@[1]) {
            Some(e) => Ok(e),
            None => Err(FormatError::UnrecognizedEndianMarker),
        }),
{
    let m0 = marker[0];
    let m1 = marker[1];
    if m0 == 0x4d && m1 == 0x4d {
        Ok(Endian::Big)
    } else if m0 == 0x49 && m1 == 0x49 {
        Ok(Endian::Little)
    } else {
        Err(FormatError::UnrecognizedEndianMarker)
    }
}

/// The byte order of the EXIF data `exif`, which starts with `Exif\0\0`: its
/// marker is the two bytes that follow those six.
fn get_endian(exif: &[u8]) -> (r: Option<Endian>)
    ensures
        r == (if exif@.len() >= 8 {
            endian_of_marker(exif@[6], exif@[7])
        } else {
            None
        }),
{
    if exif.len() < 8 {
        return None;
    }
    let marker: [u8; 2] = [exif[6], exif[7]];
    match resolve_endianness(&marker) {
        Ok(e) => Some(e),
        Err(_) => None,
    }
}

/// Where the EXIF data of `file` starts: the first `Exif\0\0` in it.
fn get_exif_start(file: &[u8]) -> (r: Option<usize>)
    ensures
        r matches Some(s) ==> first_occurrence(file@, exif_marker()) == Some(s as int),
        r is None ==> first_occurrence(file@, exif_marker()) is None,
{
    let marker: [u8; 6] = [0x45, 0x78, 0x69, 0x66, 0, 0];
    let pattern = marker.as_slice();
    assert(pattern@ =~= exif_marker());
    match get_sequence_range(file, pattern) {
        Some(found) => Some(found.start),
        None => None,
    }
}

/// The offset of IFD0, relative to the byte order marker, that the EXIF data
/// `exif` holds in its bytes `10..14`.
fn get_ifd_first_entry_offset(endian: &Endian, exif: &[u8]) -> (r: Option<u32>)
    ensures
        r == (if exif@.len() >= 14 {
            Some(u32_at(*endian, exif@, 10))
        } else {
            None
        }),
{
    if exif.len() >= 14 {
        assert(exif@.skip(10).take(4) =~= exif@.subrange(10, 14));
    }
    u32::from_offset_endian_bytes(endian, exif, 10)
}

/// The bytes of the EXIF data `exif` from its byte order marker on.
fn get_ifd_bytes(exif: &[u8]) -> (r: Option<&[u8]>)
    ensures
        exif@.len() >= 6 ==> (r matches Some(b) && b@ == exif@.skip(6)),
        exif@.len() < 6 ==> r is None,
{
    if exif.len() < 6 {
        None
    } else {
        Some(vstd::slice::slice_subrange(exif, 6, exif.len()))
    }
}

/// The EXIF block of `file`, as (byte order, the bytes from the byte order
/// marker on, offset of IFD0's entry count in those bytes), when `file` holds
/// `Exif\0\0` followed by a valid marker and an IFD0 offset whose entry count
/// lies inside the block.
pub open spec fn spec_exif(file: Seq<u8>) -> Option<(Endian, Seq<u8>, int)> {
    match first_occurrence(file, exif_marker()) {
        None => None,
        Some(start) => {
            let b = file.skip(start);
            if b.len() < 14 {
                None
            } else {
                match endian_of_marker(b[6], b[7]) {
                    None => None,
                    Some(endian) => {
                        let offset = u32_at(endian, b, 10) as int;
                        if offset + 2 <= b.len() - 6 {
                            Some((endian, b.skip(6), offset))
                        } else {
                            None
                        }
                    },
                }
            }
        },
    }
}

/// The EXIF block found in a file: its IFDs start at a byte order marker,
/// and the offsets within them count from that marker.
pub struct Exif<'a> {
    /// The bytes from the byte order marker (`MM` or `II`) on.
    ifd: &'a [u8],
    /// The offset of IFD0, that is of its entry count.
    ifd0_offset: usize,
    /// The offset of IFD0's first entry, just past its entry count.
    ifd0_entry_offset: usize,
    /// The number of entries of IFD0.
    ifd0_count: u16,
    endian: Endian,
}

impl<'a> Exif<'a> {
    #[verifier::type_invariant]
    spec fn well_formed(self) -> bool {
        &&& self.ifd0_offset + 2 <= self.ifd@.len()
        &&& self.ifd0_entry_offset == self.ifd0_offset + 2
        &&& self.ifd0_count == u16_at(self.endian, self.ifd@, self.ifd0_offset as int)
    }

    /// The byte order of the block.
    pub closed spec fn spec_endian(&self) -> Endian {
        self.endian
    }

    /// The bytes of the block, from its byte order marker on.
    pub closed spec fn spec_ifd(&self) -> Seq<u8> {
        self.ifd@
    }

    /// The offset of IFD0's entry count in [`Self::spec_ifd`].
    pub closed spec fn spec_ifd0_offset(&self) -> int {
        self.ifd0_offset as int
    }

    /// The entries of IFD0 followed by those of the Sub-IFD it points to.
    pub fn get_entries(&self) -> (r: Option<Vec<ExifTag>>)
        ensures
            r matches Some(tags) && spec_directory(
                self.spec_endian(),
                self.spec_ifd(),
                self.spec_ifd0_offset(),
            ) == Ok::<Seq<ExifTagView>, FormatError>(tags_view(tags@)),
    {
        proof {
            use_type_invariant(self);
        }
        let ifd0 = parse_entries(&self.endian, self.ifd, 0, self.ifd0_entry_offset, self.ifd0_count);
        Some(append_sub_ifd(&self.endian, self.ifd, ifd0))
    }
}

/// Finds the EXIF block in `file`.
pub fn parse(file: &[u8]) -> (r: Option<Exif<'_>>)
    ensures
        r is Some <==> spec_exif(file@) is Some,
        r matches Some(e) ==> spec_exif(file@) == Some(
            (e.spec_endian(), e.spec_ifd(), e.spec_ifd0_offset()),
        ),
{
    let start = match get_exif_start(file) {
        Some(s) => s,
        None => return None,
    };
    let bytes = vstd::slice::slice_subrange(file, start, file.len());
    assert(bytes@ =~= file@.skip(start as int));
    let endian = match get_endian(bytes) {
        Some(e) => e,
        None => return None,
    };
    let ifd0_offset = match get_ifd_first_entry_offset(&endian, bytes) {
        Some(o) => o as usize,
        None => return None,
    };
    let ifd = match get_ifd_bytes(bytes) {
        Some(b) => b,
        None => return None,
    };
    if ifd0_offset <= ifd.len() && 2 <= ifd.len() - ifd0_offset {
        assert(ifd@.skip(ifd0_offset as int).take(2) =~= ifd@.subrange(
            ifd0_offset as int,
            ifd0_offset + 2,
        ));
    }
    let ifd0_count = match u16::from_offset_endian_bytes(&endian, ifd, ifd0_offset) {
        Some(c) => c,
        None => return None,
    };
    let ifd0_entry_offset = ifd0_offset + 2;
    Some(Exif { ifd, ifd0_offset, ifd0_entry_offset, ifd0_count, endian })
}

} // verus!
