//! Facts about directory decoding as a whole, proved from the specifications
//! that the decoding functions meet.
use vstd::prelude::*;
use vstd::utf8::valid_utf8;

use crate::error::FormatError;
use crate::exif::{
    component_width, directory_result_view, entries_that_fit, entry_bytes, first_with_tag,
    spec_directory, spec_entries, spec_entry, spec_entry_value, spec_sub_ifd, tag_format_of,
    ExifTag, ExifTagView, TagFormat, SUB_IFD_TAG_ID,
};
use crate::parsing::{u16_at, u32_at, ExifValueView};
use crate::traits::Endian;

verus! {

/// Whether the 12-byte entry `e` is no Sub-IFD pointer, has a known format of
/// at most four bytes per component, holds its value inline, and, for text,
/// holds UTF-8 in its value field.
pub open spec fn inline_entry_well_formed(endian: Endian, e: Seq<u8>) -> bool {
    let components = u32_at(endian, e, 4) as int;
    &&& u16_at(endian, e, 0) != SUB_IFD_TAG_ID
    &&& match tag_format_of(u16_at(endian, e, 2)) {
        Some(f) => {
            &&& component_width(f) <= 4
            &&& components * component_width(f) as int <= 4
            &&& f == TagFormat::AsciiString ==> valid_utf8(e.subrange(8, 12))
        },
        None => false,
    }
}

/// A directory of `n` entries that all fit in the buffer and hold well-formed
/// inline values decodes to exactly `n` entries, in their stored order, each
/// with a value.
pub proof fn lemma_inline_directory_complete(endian: Endian, buf: Seq<u8>, offset: int)
    requires
        0 <= offset,
        offset + 2 + 12 * (u16_at(endian, buf, offset) as int) <= buf.len(),
        forall|i: int|
            0 <= i < u16_at(endian, buf, offset) ==> inline_entry_well_formed(
                endian,
                #[trigger] entry_bytes(buf, offset + 2, i),
            ),
    ensures
        spec_directory(endian, buf, offset) matches Ok(s) && {
            &&& s.len() == u16_at(endian, buf, offset)
            &&& forall|i: int|
                0 <= i < s.len() ==> #[trigger] s[i] == spec_entry(
                    endian,
                    buf,
                    entry_bytes(buf, offset + 2, i),
                ) && s[i].value is Some
        },
{
    let n = u16_at(endian, buf, offset) as nat;
    let ifd0 = spec_entries(endian, buf, offset + 2, n);
    assert(entries_that_fit(buf.len() as int, offset + 2, n) == n) by (nonlinear_arith)
        requires
            offset + 2 + 12 * n <= buf.len(),
            0 <= offset,
    ;
    assert forall|i: int| 0 <= i < n implies #[trigger] ifd0[i].value is Some by {
        let e = entry_bytes(buf, offset + 2, i);
        assert(inline_entry_well_formed(endian, e));
        assert(spec_entry_value(endian, buf, e) is Ok);
    }
    assert forall|i: int| 0 <= i < ifd0.len() implies #[trigger] ifd0[i].tag != SUB_IFD_TAG_ID by {
        assert(inline_entry_well_formed(endian, entry_bytes(buf, offset + 2, i)));
    }
    assert(first_with_tag(ifd0, SUB_IFD_TAG_ID) is None);
    assert(ifd0 + spec_sub_ifd(endian, buf, ifd0) =~= ifd0);
}

/// An entry whose component count times component width overflows 32 bits
/// keeps its place with no value, and every entry of the directory is decoded
/// as it would be without it.
pub proof fn lemma_overflowing_entry_kept(endian: Endian, buf: Seq<u8>, offset: int, i: int)
    requires
        0 <= offset,
        offset + 2 <= buf.len(),
        0 <= i < entries_that_fit(buf.len() as int, offset + 2, u16_at(endian, buf, offset) as nat),
        match tag_format_of(u16_at(endian, entry_bytes(buf, offset + 2, i), 2)) {
            Some(f) => u32_at(endian, entry_bytes(buf, offset + 2, i), 4) as int
                * component_width(f) as int > u32::MAX,
            None => false,
        },
    ensures
        spec_directory(endian, buf, offset) matches Ok(s) && {
            &&& s[i].value is None
            &&& s[i].tag == u16_at(endian, entry_bytes(buf, offset + 2, i), 0)
            &&& s.len() >= entries_that_fit(
                buf.len() as int,
                offset + 2,
                u16_at(endian, buf, offset) as nat,
            )
            &&& forall|j: int|
                0 <= j < entries_that_fit(
                    buf.len() as int,
                    offset + 2,
                    u16_at(endian, buf, offset) as nat,
                ) ==> #[trigger] s[j] == spec_entry(endian, buf, entry_bytes(buf, offset + 2, j))
        },
{
    let e = entry_bytes(buf, offset + 2, i);
    assert(spec_entry_value(endian, buf, e) == Err::<ExifValueView, FormatError>(
        FormatError::ComponentCountOverflow,
    ));
}

/// In a directory of `n` entries that all fit in the buffer, where entry `k`
/// has a component count times component width that overflows 32 bits and
/// every other entry holds a well-formed inline value, decoding yields all
/// `n` entries in their stored order: entry `k` without a value, every other
/// entry with one.
pub proof fn lemma_overflow_among_inline_entries(endian: Endian, buf: Seq<u8>, offset: int, k: int)
    requires
        0 <= offset,
        offset + 2 + 12 * (u16_at(endian, buf, offset) as int) <= buf.len(),
        0 <= k < u16_at(endian, buf, offset),
        u16_at(endian, entry_bytes(buf, offset + 2, k), 0) != SUB_IFD_TAG_ID,
        match tag_format_of(u16_at(endian, entry_bytes(buf, offset + 2, k), 2)) {
            Some(f) => u32_at(endian, entry_bytes(buf, offset + 2, k), 4) as int
                * component_width(f) as int > u32::MAX,
            None => false,
        },
        forall|i: int|
            0 <= i < u16_at(endian, buf, offset) && i != k ==> inline_entry_well_formed(
                endian,
                #[trigger] entry_bytes(buf, offset + 2, i),
            ),
    ensures
        spec_directory(endian, buf, offset) matches Ok(s) && {
            &&& s.len() == u16_at(endian, buf, offset)
            &&& s[k].value is None
            &&& forall|j: int|
                0 <= j < s.len() ==> {
                    &&& (#[trigger] s[j]).tag == u16_at(endian, entry_bytes(buf, offset + 2, j), 0)
                    &&& j != k ==> s[j].value is Some
                }
        },
{
    let n = u16_at(endian, buf, offset) as nat;
    let ifd0 = spec_entries(endian, buf, offset + 2, n);
    assert(entries_that_fit(buf.len() as int, offset + 2, n) == n) by (nonlinear_arith)
        requires
            offset + 2 + 12 * n <= buf.len(),
            0 <= offset,
    ;
    assert(spec_entry_value(endian, buf, entry_bytes(buf, offset + 2, k)) == Err::<
        ExifValueView,
        FormatError,
    >(FormatError::ComponentCountOverflow));
    assert forall|j: int| 0 <= j < n && j != k implies #[trigger] ifd0[j].value is Some by {
        let e = entry_bytes(buf, offset + 2, j);
        assert(inline_entry_well_formed(endian, e));
        assert(spec_entry_value(endian, buf, e) is Ok);
    }
    assert forall|j: int| 0 <= j < ifd0.len() implies #[trigger] ifd0[j].tag != SUB_IFD_TAG_ID by {
        if j != k {
            assert(inline_entry_well_formed(endian, entry_bytes(buf, offset + 2, j)));
        }
    }
    assert(first_with_tag(ifd0, SUB_IFD_TAG_ID) is None);
    assert(ifd0 + spec_sub_ifd(endian, buf, ifd0) =~= ifd0);
}

/// The offset that the first Sub-IFD pointer entry of the directory at
/// `offset` holds, when there is such an entry and its value is an `UnsignedLong`.
pub open spec fn sub_ifd_pointer(endian: Endian, buf: Seq<u8>, offset: int) -> Option<u32> {
    let ifd0 = spec_entries(endian, buf, offset + 2, u16_at(endian, buf, offset) as nat);
    match first_with_tag(ifd0, SUB_IFD_TAG_ID) {
        Some(i) => match ifd0[i].value {
            Some(ExifValueView::UnsignedLong(p)) => Some(p),
            _ => None,
        },
        None => None,
    }
}

/// When the first Sub-IFD pointer of a directory of `n` entries is an
/// `UnsignedLong` offset of a directory of `m` entries, all inside the
/// buffer, decoding yields the `n` entries followed by the `m` entries.
pub proof fn lemma_sub_ifd_appended(endian: Endian, buf: Seq<u8>, offset: int, p: u32)
    requires
        0 <= offset,
        offset + 2 + 12 * (u16_at(endian, buf, offset) as int) <= buf.len(),
        sub_ifd_pointer(endian, buf, offset) == Some(p),
        p + 2 + 12 * (u16_at(endian, buf, p as int) as int) <= buf.len(),
    ensures
        spec_directory(endian, buf, offset) matches Ok(s) && {
            let n = u16_at(endian, buf, offset) as int;
            let m = u16_at(endian, buf, p as int) as int;
            &&& s.len() == n + m
            &&& s.subrange(0, n) == spec_entries(endian, buf, offset + 2, n as nat)
            &&& s.subrange(n, n + m) == spec_entries(endian, buf, p + 2, m as nat)
            &&& spec_entries(endian, buf, offset + 2, n as nat).len() == n
            &&& spec_entries(endian, buf, p + 2, m as nat).len() == m
        },
{
    let n = u16_at(endian, buf, offset) as nat;
    let m = u16_at(endian, buf, p as int) as nat;
    let ifd0 = spec_entries(endian, buf, offset + 2, n);
    let sub = spec_entries(endian, buf, p + 2, m);
    assert(entries_that_fit(buf.len() as int, offset + 2, n) == n) by (nonlinear_arith)
        requires
            offset + 2 + 12 * n <= buf.len(),
            0 <= offset,
    ;
    assert(entries_that_fit(buf.len() as int, p + 2, m) == m) by (nonlinear_arith)
        requires
            p + 2 + 12 * m <= buf.len(),
    ;
    assert(spec_sub_ifd(endian, buf, ifd0) == sub);
    assert((ifd0 + sub).subrange(0, n as int) =~= ifd0);
    assert((ifd0 + sub).subrange(n as int, (n + m) as int) =~= sub);
}

/// When the first Sub-IFD pointer of a directory of `n` entries points past the
/// buffer, decoding yields the `n` entries alone, and no error.
pub proof fn lemma_sub_ifd_out_of_range_skipped(endian: Endian, buf: Seq<u8>, offset: int, p: u32)
    requires
        0 <= offset,
        offset + 2 + 12 * (u16_at(endian, buf, offset) as int) <= buf.len(),
        sub_ifd_pointer(endian, buf, offset) == Some(p),
        p + 2 > buf.len(),
    ensures
        spec_directory(endian, buf, offset) == Ok::<Seq<ExifTagView>, FormatError>(
            spec_entries(endian, buf, offset + 2, u16_at(endian, buf, offset) as nat),
        ),
        spec_entries(endian, buf, offset + 2, u16_at(endian, buf, offset) as nat).len() == u16_at(
            endian,
            buf,
            offset,
        ),
{
    let n = u16_at(endian, buf, offset) as nat;
    let ifd0 = spec_entries(endian, buf, offset + 2, n);
    assert(entries_that_fit(buf.len() as int, offset + 2, n) == n) by (nonlinear_arith)
        requires
            offset + 2 + 12 * n <= buf.len(),
            0 <= offset,
    ;
    assert(ifd0 + spec_sub_ifd(endian, buf, ifd0) =~= ifd0);
}

/// Two results that each meet `decode_directory`'s specification for the same
/// buffer and offset agree in every field of every entry.
pub proof fn lemma_decode_directory_deterministic(
    endian: Endian,
    buf: Seq<u8>,
    offset: int,
    first: Result<Vec<ExifTag>, FormatError>,
    second: Result<Vec<ExifTag>, FormatError>,
)
    requires
        directory_result_view(first) == spec_directory(endian, buf, offset),
        directory_result_view(second) == spec_directory(endian, buf, offset),
    ensures
        directory_result_view(first) == directory_result_view(second),
{
}

} // verus!
