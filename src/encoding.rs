//! How directory entries are laid out, stated as an encoder over
//! specifications, and the fact that decoding undoes it.
use vstd::prelude::*;
use vstd::utf8::{decode_utf8, encode_utf8, is_ascii_chars, valid_utf8};

use crate::error::FormatError;
use crate::exif::{
    component_width, entries_that_fit, entry_bytes, first_with_tag, spec_directory, spec_entries,
    spec_entry, spec_sub_ifd, spec_tag_value, tag_format_of, TagFormat, SUB_IFD_TAG_ID,
};
use crate::parsing::{
    be_value, byte_pow, le_value, lemma_byte_pow_facts, signed_value, u16_at, u32_at,
    unsigned_value, without_nul, ExifValueView,
};
use crate::traits::Endian;

verus! {

/// The `width` bytes that hold `n` modulo `256^width`, most significant first.
pub open spec fn be_bytes(n: nat, width: nat) -> Seq<u8>
    decreases width,
{
    if width == 0 {
        seq![]
    } else {
        be_bytes(n / 256, (width - 1) as nat).push((n % 256) as u8)
    }
}

/// The `width` bytes that hold `n` modulo `256^width`, least significant first.
pub open spec fn le_bytes(n: nat, width: nat) -> Seq<u8>
    decreases width,
{
    if width == 0 {
        seq![]
    } else {
        seq![(n % 256) as u8] + le_bytes(n / 256, (width - 1) as nat)
    }
}

/// The `width` bytes that hold `n` in byte order `endian`.
pub open spec fn uint_bytes(endian: Endian, n: nat, width: nat) -> Seq<u8> {
    match endian {
        Endian::Big => be_bytes(n, width),
        Endian::Little => le_bytes(n, width),
    }
}

/// The `width` bytes that hold `v` in two's complement in byte order `endian`.
pub open spec fn sint_bytes(endian: Endian, v: int, width: nat) -> Seq<u8> {
    uint_bytes(
        endian,
        (if v < 0 {
            v + byte_pow(width)
        } else {
            v
        }) as nat,
        width,
    )
}

/// `k` zero bytes.
pub open spec fn zeros(k: nat) -> Seq<u8> {
    Seq::new(k, |i: int| 0u8)
}

/// The format that holds a value like `v`.
pub open spec fn value_format(v: ExifValueView) -> TagFormat {
    match v {
        ExifValueView::UnsignedByte(_) => TagFormat::UnsignedByte,
        ExifValueView::AsciiString(_) => TagFormat::AsciiString,
        ExifValueView::UnsignedShort(_) => TagFormat::UnsignedShort,
        ExifValueView::UnsignedLong(_) => TagFormat::UnsignedLong,
        ExifValueView::UnsignedRational(_, _) => TagFormat::UnsignedRational,
        ExifValueView::SignedByte(_) => TagFormat::SignedByte,
        ExifValueView::Undefined(_) => TagFormat::Undefined,
        ExifValueView::SignedShort(_) => TagFormat::SignedShort,
        ExifValueView::SignedLong(_) => TagFormat::SignedLong,
        ExifValueView::SignedRational(_, _) => TagFormat::SignedRational,
        ExifValueView::SingleFloat(_) => TagFormat::SingleFloat,
        ExifValueView::DoubleFloat(_) => TagFormat::DoubleFloat,
    }
}

/// The format code of `f`.
pub open spec fn format_code(f: TagFormat) -> u16 {
    match f {
        TagFormat::UnsignedByte => 1,
        TagFormat::AsciiString => 2,
        TagFormat::UnsignedShort => 3,
        TagFormat::UnsignedLong => 4,
        TagFormat::UnsignedRational => 5,
        TagFormat::SignedByte => 6,
        TagFormat::Undefined => 7,
        TagFormat::SignedShort => 8,
        TagFormat::SignedLong => 9,
        TagFormat::SignedRational => 10,
        TagFormat::SingleFloat => 11,
        TagFormat::DoubleFloat => 12,
    }
}

/// The component count of an entry that holds `v`.
pub open spec fn value_components(v: ExifValueView) -> nat {
    match v {
        ExifValueView::AsciiString(t) => encode_utf8(t).len() + 1,
        ExifValueView::Undefined(b) => b.len(),
        _ => 1,
    }
}

/// The bytes that hold `v` in byte order `endian`; text is UTF-8 followed by
/// a NUL terminator.
pub open spec fn encode_value(endian: Endian, v: ExifValueView) -> Seq<u8> {
    match v {
        ExifValueView::UnsignedByte(x) => uint_bytes(endian, x as nat, 1),
        ExifValueView::AsciiString(t) => encode_utf8(t) + zeros(1),
        ExifValueView::UnsignedShort(x) => uint_bytes(endian, x as nat, 2),
        ExifValueView::UnsignedLong(x) => uint_bytes(endian, x as nat, 4),
        ExifValueView::UnsignedRational(n, d) => uint_bytes(endian, n as nat, 4) + uint_bytes(
            endian,
            d as nat,
            4,
        ),
        ExifValueView::SignedByte(x) => sint_bytes(endian, x as int, 1),
        ExifValueView::Undefined(b) => b,
        ExifValueView::SignedShort(x) => sint_bytes(endian, x as int, 2),
        ExifValueView::SignedLong(x) => sint_bytes(endian, x as int, 4),
        ExifValueView::SignedRational(n, d) => sint_bytes(endian, n as int, 4) + sint_bytes(
            endian,
            d as int,
            4,
        ),
        ExifValueView::SingleFloat(x) => uint_bytes(endian, x as nat, 4),
        ExifValueView::DoubleFloat(x) => uint_bytes(endian, x as nat, 8),
    }
}

/// Whether `v` survives encoding and decoding: text holds no NUL characters,
/// since decoding takes NULs out; an `Undefined` value has at least four
/// bytes, since an inline value is read as the whole four-byte field; and a
/// component count fits in 32 bits.
pub open spec fn encodable(v: ExifValueView) -> bool {
    match v {
        ExifValueView::AsciiString(t) => {
            &&& forall|i: int| 0 <= i < t.len() ==> t[i] != '\0'
            &&& encode_utf8(t).len() + 1 <= u32::MAX
        },
        ExifValueView::Undefined(b) => 4 <= b.len() <= u32::MAX,
        _ => true,
    }
}

/// The value field of an entry that holds `v`: the value followed by zero
/// bytes when it fits in four bytes, else `data_offset`.
pub open spec fn value_field(endian: Endian, v: ExifValueView, data_offset: u32) -> Seq<u8> {
    let enc = encode_value(endian, v);
    if enc.len() <= 4 {
        enc + zeros((4 - enc.len()) as nat)
    } else {
        uint_bytes(endian, data_offset as nat, 4)
    }
}

/// The 12-byte directory entry that holds `v` under tag id `tag`.
pub open spec fn encode_entry(endian: Endian, tag: u16, v: ExifValueView, data_offset: u32) -> Seq<u8> {
    uint_bytes(endian, tag as nat, 2) + uint_bytes(endian, format_code(value_format(v)) as nat, 2)
        + uint_bytes(endian, value_components(v), 4) + value_field(endian, v, data_offset)
}

/// Whether `buf` holds the bytes of `v` at `data_offset` when they do not fit
/// in an entry's value field.
pub open spec fn value_in_place(endian: Endian, buf: Seq<u8>, v: ExifValueView, data_offset: u32) -> bool {
    let enc = encode_value(endian, v);
    enc.len() > 4 ==> data_offset + enc.len() <= buf.len() && buf.subrange(
        data_offset as int,
        data_offset + enc.len(),
    ) == enc
}

proof fn lemma_div_256_bound(n: nat, p: nat)
    requires
        n < 256 * p,
    ensures
        n / 256 < p,
        n == 256 * (n / 256) + n % 256,
{
    assert(n == 256 * (n / 256) + n % 256);
    let q = n / 256;
    assert(q < p) by (nonlinear_arith)
        requires
            256 * q <= n,
            n < 256 * p,
    ;
}

proof fn lemma_be_bytes(n: nat, width: nat)
    requires
        n < byte_pow(width),
    ensures
        be_bytes(n, width).len() == width,
        be_value(be_bytes(n, width)) == n,
    decreases width,
{
    if width > 0 {
        let q = n / 256;
        lemma_div_256_bound(n, byte_pow((width - 1) as nat));
        lemma_be_bytes(q, (width - 1) as nat);
        let s = be_bytes(n, width);
        assert(s.drop_last() =~= be_bytes(q, (width - 1) as nat));
    }
}

proof fn lemma_le_bytes(n: nat, width: nat)
    requires
        n < byte_pow(width),
    ensures
        le_bytes(n, width).len() == width,
        le_value(le_bytes(n, width)) == n,
    decreases width,
{
    if width > 0 {
        let q = n / 256;
        lemma_div_256_bound(n, byte_pow((width - 1) as nat));
        lemma_le_bytes(q, (width - 1) as nat);
        let s = le_bytes(n, width);
        assert(s.drop_first() =~= le_bytes(q, (width - 1) as nat));
    }
}

/// Reading the bytes that hold `n` gives `n` back.
proof fn lemma_uint_bytes(endian: Endian, n: nat, width: nat)
    requires
        n < byte_pow(width),
    ensures
        uint_bytes(endian, n, width).len() == width,
        unsigned_value(endian, uint_bytes(endian, n, width)) == n,
{
    lemma_be_bytes(n, width);
    lemma_le_bytes(n, width);
}

/// Reading the two's complement bytes that hold `v` gives `v` back.
proof fn lemma_sint_bytes(endian: Endian, v: int, width: nat)
    requires
        width > 0,
        -(byte_pow(width) / 2) <= v < byte_pow(width) / 2,
    ensures
        sint_bytes(endian, v, width).len() == width,
        signed_value(endian, sint_bytes(endian, v, width)) == v,
{
    let p = byte_pow(width);
    assert(p == 256 * byte_pow((width - 1) as nat));
    let u: nat = (if v < 0 {
        v + p
    } else {
        v
    }) as nat;
    lemma_uint_bytes(endian, u, width);
}

/// Encoding a concatenation encodes each part in turn.
proof fn lemma_encode_utf8_concat(a: Seq<char>, b: Seq<char>)
    ensures
        encode_utf8(a + b) == encode_utf8(a) + encode_utf8(b),
    decreases a.len(),
{
    if a.len() == 0 {
        assert(a + b =~= b);
        assert(encode_utf8(a) + encode_utf8(b) =~= encode_utf8(b));
    } else {
        assert((a + b).drop_first() =~= a.drop_first() + b);
        lemma_encode_utf8_concat(a.drop_first(), b);
        assert(encode_utf8(a + b) =~= encode_utf8(a) + encode_utf8(b));
    }
}

/// Filtering out NULs keeps a text that has none.
proof fn lemma_without_nul_keeps(t: Seq<char>)
    requires
        forall|i: int| 0 <= i < t.len() ==> t[i] != '\0',
    ensures
        without_nul(t) == t,
    decreases t.len(),
{
    let keep = |c: char| c != '\0';
    reveal(Seq::filter);
    if t.len() > 0 {
        lemma_without_nul_keeps(t.drop_last());
        assert(keep(t.last()));
        assert(t.filter(keep) == t.drop_last().filter(keep).push(t.last()));
        assert(t.drop_last().push(t.last()) =~= t);
    }
    assert(without_nul(t) == t.filter(keep));
}

/// Filtering out NULs empties a text of NULs alone.
proof fn lemma_without_nul_drops(t: Seq<char>)
    requires
        forall|i: int| 0 <= i < t.len() ==> t[i] == '\0',
    ensures
        without_nul(t) == Seq::<char>::empty(),
    decreases t.len(),
{
    let keep = |c: char| c != '\0';
    reveal(Seq::filter);
    if t.len() > 0 {
        lemma_without_nul_drops(t.drop_last());
        assert(!keep(t.last()));
        assert(t.filter(keep) == t.drop_last().filter(keep));
    }
    assert(without_nul(t) == t.filter(keep));
}

/// A text without NULs, followed by zero bytes, decodes to itself.
proof fn lemma_text_round_trip(t: Seq<char>, k: nat)
    requires
        forall|i: int| 0 <= i < t.len() ==> t[i] != '\0',
    ensures
        valid_utf8(encode_utf8(t) + zeros(k)),
        without_nul(decode_utf8(encode_utf8(t) + zeros(k))) == t,
{
    let nuls = Seq::new(k, |i: int| '\0');
    assert(is_ascii_chars(nuls));
    vstd::utf8::is_ascii_chars_encode_utf8(nuls);
    assert(encode_utf8(nuls) =~= zeros(k));
    lemma_encode_utf8_concat(t, nuls);
    vstd::utf8::encode_utf8_valid_utf8(t + nuls);
    vstd::utf8::encode_utf8_decode_utf8(t + nuls);
    lemma_without_nul_keeps(t);
    lemma_without_nul_drops(nuls);
    Seq::filter_distributes_over_add(t, nuls, |c: char| c != '\0');
    assert(t + Seq::<char>::empty() =~= t);
}

/// The encoding of `v` has one component's width per component.
proof fn lemma_encoded_len(endian: Endian, v: ExifValueView)
    requires
        encodable(v),
    ensures
        encode_value(endian, v).len() == value_components(v) as int * component_width(value_format(v)) as int,
{
    lemma_byte_pow_facts();
    let enc = encode_value(endian, v);
    match v {
        ExifValueView::UnsignedByte(x) => {
            lemma_uint_bytes(endian, x as nat, 1);
            assert(enc.len() == 1);
            assert(component_width(value_format(v)) == 1);
            assert(value_components(v) == 1);
            assert(value_components(v) as int * component_width(value_format(v)) as int == 1);
        },
        ExifValueView::AsciiString(t) => {
            assert(enc.len() == encode_utf8(t).len() + 1);
            assert(component_width(value_format(v)) == 1);
            assert(value_components(v) == encode_utf8(t).len() + 1);
            assert(value_components(v) as int * component_width(value_format(v)) as int == encode_utf8(t).len() + 1);
        },
        ExifValueView::UnsignedShort(x) => {
            lemma_uint_bytes(endian, x as nat, 2);
            assert(enc.len() == 2);
            assert(component_width(value_format(v)) == 2);
            assert(value_components(v) == 1);
            assert(value_components(v) as int * component_width(value_format(v)) as int == 2);
        },
        ExifValueView::UnsignedLong(x) => {
            lemma_uint_bytes(endian, x as nat, 4);
            assert(enc.len() == 4);
            assert(component_width(value_format(v)) == 4);
            assert(value_components(v) == 1);
            assert(value_components(v) as int * component_width(value_format(v)) as int == 4);
        },
        ExifValueView::UnsignedRational(n, d) => {
            lemma_uint_bytes(endian, n as nat, 4);
            lemma_uint_bytes(endian, d as nat, 4);
            assert(enc.len() == 8);
            assert(component_width(value_format(v)) == 8);
            assert(value_components(v) == 1);
            assert(value_components(v) as int * component_width(value_format(v)) as int == 8);
        },
        ExifValueView::SignedByte(x) => {
            lemma_sint_bytes(endian, x as int, 1);
            assert(enc.len() == 1);
            assert(component_width(value_format(v)) == 1);
            assert(value_components(v) == 1);
            assert(value_components(v) as int * component_width(value_format(v)) as int == 1);
        },
        ExifValueView::Undefined(b) => {
            assert(enc.len() == b.len());
            assert(component_width(value_format(v)) == 1);
            assert(value_components(v) == b.len());
            assert(value_components(v) as int * component_width(value_format(v)) as int == b.len());
        },
        ExifValueView::SignedShort(x) => {
            lemma_sint_bytes(endian, x as int, 2);
            assert(enc.len() == 2);
            assert(component_width(value_format(v)) == 2);
            assert(value_components(v) == 1);
            assert(value_components(v) as int * component_width(value_format(v)) as int == 2);
        },
        ExifValueView::SignedLong(x) => {
            lemma_sint_bytes(endian, x as int, 4);
            assert(enc.len() == 4);
            assert(component_width(value_format(v)) == 4);
            assert(value_components(v) == 1);
            assert(value_components(v) as int * component_width(value_format(v)) as int == 4);
        },
        ExifValueView::SignedRational(n, d) => {
            lemma_sint_bytes(endian, n as int, 4);
            lemma_sint_bytes(endian, d as int, 4);
            assert(enc.len() == 8);
            assert(component_width(value_format(v)) == 8);
            assert(value_components(v) == 1);
            assert(value_components(v) as int * component_width(value_format(v)) as int == 8);
        },
        ExifValueView::SingleFloat(x) => {
            lemma_uint_bytes(endian, x as nat, 4);
            assert(enc.len() == 4);
            assert(component_width(value_format(v)) == 4);
            assert(value_components(v) == 1);
            assert(value_components(v) as int * component_width(value_format(v)) as int == 4);
        },
        ExifValueView::DoubleFloat(x) => {
            lemma_uint_bytes(endian, x as nat, 8);
            assert(enc.len() == 8);
            assert(component_width(value_format(v)) == 8);
            assert(value_components(v) == 1);
            assert(value_components(v) as int * component_width(value_format(v)) as int == 8);
        },
    }
}

/// Decoding the bytes of `v`, followed by `k` zero bytes, gives `v` back.
proof fn lemma_value_round_trip(endian: Endian, v: ExifValueView, k: nat)
    requires
        encodable(v),
        v is Undefined ==> k == 0,
    ensures
        spec_tag_value(value_format(v), endian, encode_value(endian, v) + zeros(k)) == Ok::<
            ExifValueView,
            FormatError,
        >(v),
{
    lemma_byte_pow_facts();
    lemma_encoded_len(endian, v);
    let enc = encode_value(endian, v);
    let span = enc + zeros(k);
    assert(span.subrange(0, enc.len() as int) =~= enc);
    match v {
        ExifValueView::UnsignedByte(x) => lemma_uint_bytes(endian, x as nat, 1),
        ExifValueView::AsciiString(t) => {
            assert(span =~= encode_utf8(t) + zeros(1 + k));
            lemma_text_round_trip(t, 1 + k);
        },
        ExifValueView::UnsignedShort(x) => lemma_uint_bytes(endian, x as nat, 2),
        ExifValueView::UnsignedLong(x) => lemma_uint_bytes(endian, x as nat, 4),
        ExifValueView::UnsignedRational(n, d) => {
            lemma_uint_bytes(endian, n as nat, 4);
            lemma_uint_bytes(endian, d as nat, 4);
            assert(span.subrange(0, 4) =~= uint_bytes(endian, n as nat, 4));
            assert(span.subrange(4, 8) =~= uint_bytes(endian, d as nat, 4));
        },
        ExifValueView::SignedByte(x) => lemma_sint_bytes(endian, x as int, 1),
        ExifValueView::Undefined(b) => {
            assert(span =~= b);
        },
        ExifValueView::SignedShort(x) => lemma_sint_bytes(endian, x as int, 2),
        ExifValueView::SignedLong(x) => lemma_sint_bytes(endian, x as int, 4),
        ExifValueView::SignedRational(n, d) => {
            lemma_sint_bytes(endian, n as int, 4);
            lemma_sint_bytes(endian, d as int, 4);
            assert(span.subrange(0, 4) =~= sint_bytes(endian, n as int, 4));
            assert(span.subrange(4, 8) =~= sint_bytes(endian, d as int, 4));
        },
        ExifValueView::SingleFloat(x) => lemma_uint_bytes(endian, x as nat, 4),
        ExifValueView::DoubleFloat(x) => lemma_uint_bytes(endian, x as nat, 8),
    }
}


/// Decoding the entry that holds `v` under tag id `tag`, with the bytes of a
/// value too long for the entry placed at `data_offset` of `buf`, gives back
/// the tag id, the format and the value.
pub proof fn lemma_entry_round_trip(endian: Endian, buf: Seq<u8>, tag: u16, v: ExifValueView, data_offset: u32)
    requires
        encodable(v),
        value_in_place(endian, buf, v, data_offset),
    ensures
        encode_entry(endian, tag, v, data_offset).len() == 12,
        spec_entry(endian, buf, encode_entry(endian, tag, v, data_offset)).tag == tag,
        spec_entry(endian, buf, encode_entry(endian, tag, v, data_offset)).format == Some(
            value_format(v),
        ),
        spec_entry(endian, buf, encode_entry(endian, tag, v, data_offset)).value == Some(v),
{
    lemma_byte_pow_facts();
    lemma_encoded_len(endian, v);
    let f = value_format(v);
    let enc = encode_value(endian, v);
    let components = value_components(v);
    let e = encode_entry(endian, tag, v, data_offset);
    let field = value_field(endian, v, data_offset);
    lemma_uint_bytes(endian, tag as nat, 2);
    lemma_uint_bytes(endian, format_code(f) as nat, 2);
    lemma_uint_bytes(endian, components, 4);
    lemma_uint_bytes(endian, data_offset as nat, 4);
    assert(field.len() == 4);
    assert(e.subrange(0, 2) =~= uint_bytes(endian, tag as nat, 2));
    assert(e.subrange(2, 4) =~= uint_bytes(endian, format_code(f) as nat, 2));
    assert(e.subrange(4, 8) =~= uint_bytes(endian, components, 4));
    assert(e.subrange(8, 12) =~= field);
    assert(tag_format_of(format_code(f)) == Some(f));
    assert(u32_at(endian, e, 4) == components);
    if enc.len() <= 4 {
        lemma_value_round_trip(endian, v, (4 - enc.len()) as nat);
    } else {
        assert(field.subrange(0, 4) =~= field);
        assert(enc + zeros(0) =~= enc);
        lemma_value_round_trip(endian, v, 0);
    }
}

/// A directory whose entries hold the values `values` under the tag ids
/// `tags`, none of them a Sub-IFD pointer, decodes to those tag ids, formats
/// and values, in order.
pub proof fn lemma_directory_round_trip(
    endian: Endian,
    buf: Seq<u8>,
    offset: int,
    tags: Seq<u16>,
    values: Seq<ExifValueView>,
    data_offsets: Seq<u32>,
)
    requires
        0 <= offset,
        tags.len() == values.len() == data_offsets.len(),
        u16_at(endian, buf, offset) as int == tags.len(),
        offset + 2 + 12 * tags.len() <= buf.len(),
        forall|i: int|
            0 <= i < tags.len() ==> #[trigger] entry_bytes(buf, offset + 2, i) == encode_entry(
                endian,
                tags[i],
                values[i],
                data_offsets[i],
            ),
        forall|i: int|
            0 <= i < tags.len() ==> encodable(#[trigger] values[i]) && value_in_place(
                endian,
                buf,
                values[i],
                data_offsets[i],
            ),
        forall|i: int| 0 <= i < tags.len() ==> #[trigger] tags[i] != SUB_IFD_TAG_ID,
    ensures
        spec_directory(endian, buf, offset) matches Ok(s) && {
            &&& s.len() == tags.len()
            &&& forall|i: int|
                0 <= i < s.len() ==> {
                    &&& (#[trigger] s[i]).tag == tags[i]
                    &&& s[i].format == Some(value_format(values[i]))
                    &&& s[i].value == Some(values[i])
                }
        },
{
    let n = tags.len();
    let ifd0 = spec_entries(endian, buf, offset + 2, n);
    assert(entries_that_fit(buf.len() as int, offset + 2, n) == n) by (nonlinear_arith)
        requires
            offset + 2 + 12 * n <= buf.len(),
            0 <= offset,
    ;
    assert forall|i: int| 0 <= i < n implies {
        &&& (#[trigger] ifd0[i]).tag == tags[i]
        &&& ifd0[i].format == Some(value_format(values[i]))
        &&& ifd0[i].value == Some(values[i])
    } by {
        assert(entry_bytes(buf, offset + 2, i) == encode_entry(
            endian,
            tags[i],
            values[i],
            data_offsets[i],
        ));
        assert(encodable(values[i]));
        lemma_entry_round_trip(endian, buf, tags[i], values[i], data_offsets[i]);
    }
    assert(first_with_tag(ifd0, SUB_IFD_TAG_ID) is None) by {
        assert forall|i: int| 0 <= i < ifd0.len() implies #[trigger] ifd0[i].tag != SUB_IFD_TAG_ID by {
            assert(tags[i] != SUB_IFD_TAG_ID);
        }
    }
    assert(ifd0 + spec_sub_ifd(endian, buf, ifd0) =~= ifd0);
}

} // verus!
