use vstd::prelude::*;

use vstd::slice::slice_to_vec;
use vstd::utf8::{decode_utf8, valid_utf8};

use crate::error::FormatError;
use crate::traits::{Endian, EndianRead};

verus! {

/// `256` raised to the power `n`: one more than the largest number `n` bytes hold.
pub open spec fn byte_pow(n: nat) -> nat
    decreases n,
{
    if n == 0 {
        1
    } else {
        256 * byte_pow((n - 1) as nat)
    }
}

/// The unsigned number that `b` holds, most significant byte first.
pub open spec fn be_value(b: Seq<u8>) -> nat
    decreases b.len(),
{
    if b.len() == 0 {
        0
    } else {
        be_value(b.drop_last()) * 256 + b.last() as nat
    }
}

/// The unsigned number that `b` holds, least significant byte first.
pub open spec fn le_value(b: Seq<u8>) -> nat
    decreases b.len(),
{
    if b.len() == 0 {
        0
    } else {
        b[0] as nat + 256 * le_value(b.drop_first())
    }
}

/// The unsigned number that `b` holds in byte order `endian`.
pub open spec fn unsigned_value(endian: Endian, b: Seq<u8>) -> nat {
    match endian {
        Endian::Big => be_value(b),
        Endian::Little => le_value(b),
    }
}

/// The two's complement number that `b` holds in byte order `endian`.
pub open spec fn signed_value(endian: Endian, b: Seq<u8>) -> int {
    let u = unsigned_value(endian, b);
    if u >= byte_pow(b.len()) / 2 {
        u - byte_pow(b.len())
    } else {
        u as int
    }
}

/// The unsigned number held by the `width` bytes at the start of `b`,
/// or `None` when `b` is shorter than that.
pub open spec fn unsigned_prefix(endian: Endian, b: Seq<u8>, width: nat) -> Option<nat> {
    if width <= b.len() {
        Some(unsigned_value(endian, b.take(width as int)))
    } else {
        None
    }
}

/// The two's complement number held by the `width` bytes at the start of `b`,
/// or `None` when `b` is shorter than that.
pub open spec fn signed_prefix(endian: Endian, b: Seq<u8>, width: nat) -> Option<int> {
    if width <= b.len() {
        Some(signed_value(endian, b.take(width as int)))
    } else {
        None
    }
}

pub(crate) proof fn lemma_byte_pow_facts()
    ensures
        byte_pow(1) == 0x100,
        byte_pow(2) == 0x1_0000,
        byte_pow(4) == 0x1_0000_0000,
        byte_pow(8) == 0x1_0000_0000_0000_0000,
{
    reveal_with_fuel(byte_pow, 9);
}

proof fn lemma_byte_pow_monotone(m: nat, n: nat)
    requires
        m <= n,
    ensures
        byte_pow(m) <= byte_pow(n),
    decreases n,
{
    if m < n {
        lemma_byte_pow_monotone(m, (n - 1) as nat);
    }
}

/// Appending byte `x` to a big-endian number shifts it one byte up.
proof fn lemma_be_value_push(b: Seq<u8>, x: u8)
    ensures
        be_value(b.push(x)) == be_value(b) * 256 + x as nat,
{
    assert(b.push(x).drop_last() =~= b);
}

/// Prepending byte `x` to a little-endian number shifts it one byte up.
proof fn lemma_le_value_prepend(b: Seq<u8>, x: u8)
    ensures
        le_value(seq![x] + b) == x as nat + 256 * le_value(b),
{
    assert((seq![x] + b).drop_first() =~= b);
}

/// One more byte below a number under `byte_pow(i)` stays under `byte_pow(i + 1)`.
proof fn lemma_shift_in_byte_bound(acc: nat, x: u8, i: nat)
    requires
        acc < byte_pow(i),
    ensures
        acc * 256 + (x as nat) < byte_pow(i + 1),
        (x as nat) + 256 * acc < byte_pow(i + 1),
{
    let p = byte_pow(i);
    assert(byte_pow(i + 1) == 256 * p);
    assert(acc * 256 + (x as nat) < 256 * p) by (nonlinear_arith)
        requires
            acc < p,
            x < 256,
    ;
}

/// Reads the `width` bytes of `bytes` that start at `offset` as an unsigned
/// number in byte order `endian`; `None` when they run past the end.
pub fn read_unsigned(endian: &Endian, bytes: &[u8], offset: usize, width: usize) -> (r: Option<u64>)
    requires
        width <= 8,
    ensures
        r is Some <==> offset <= bytes@.len() && unsigned_prefix(
            *endian,
            bytes@.skip(offset as int),
            width as nat,
        ) is Some,
        r matches Some(v) ==> unsigned_prefix(*endian, bytes@.skip(offset as int), width as nat)
            == Some(v as nat),
        r matches Some(v) ==> (v as nat) < byte_pow(width as nat),
{
    let n = bytes.len();
    if offset > n || width > n - offset {
        return None;
    }
    let ghost s = bytes@.subrange(offset as int, offset + width);
    assert(bytes@.skip(offset as int).take(width as int) =~= s);
    proof {
        lemma_byte_pow_facts();
        lemma_byte_pow_monotone(width as nat, 8);
    }
    let mut acc: u64 = 0;
    match endian {
        Endian::Big => {
            let mut i: usize = 0;
            while i < width
                invariant
                    i <= width <= 8,
                    offset + width <= n == bytes@.len(),
                    s == bytes@.subrange(offset as int, offset + width),
                    acc as nat == be_value(s.take(i as int)),
                    (acc as nat) < byte_pow(i as nat),
                    byte_pow(width as nat) <= 0x1_0000_0000_0000_0000,
                decreases width - i,
            {
                let x = bytes[offset + i];
                proof {
                    assert(s.take(i + 1) =~= s.take(i as int).push(x));
                    lemma_be_value_push(s.take(i as int), x);
                    lemma_shift_in_byte_bound(acc as nat, x, i as nat);
                    lemma_byte_pow_monotone((i + 1) as nat, width as nat);
                }
                acc = acc * 256 + x as u64;
                i = i + 1;
            }
            assert(s.take(width as int) =~= s);
        },
        Endian::Little => {
            let mut j: usize = width;
            while j > 0
                invariant
                    j <= width <= 8,
                    offset + width <= n == bytes@.len(),
                    s == bytes@.subrange(offset as int, offset + width),
                    acc as nat == le_value(s.subrange(j as int, width as int)),
                    (acc as nat) < byte_pow((width - j) as nat),
                    byte_pow(width as nat) <= 0x1_0000_0000_0000_0000,
                decreases j,
            {
                let x = bytes[offset + j - 1];
                proof {
                    let rest = s.subrange(j as int, width as int);
                    assert(s.subrange(j - 1, width as int) =~= seq![x] + rest);
                    lemma_le_value_prepend(rest, x);
                    lemma_shift_in_byte_bound(acc as nat, x, (width - j) as nat);
                    lemma_byte_pow_monotone((width - j + 1) as nat, width as nat);
                }
                acc = acc * 256 + x as u64;
                j = j - 1;
            }
            assert(s.subrange(0, width as int) =~= s);
        },
    }
    Some(acc)
}


/// The two's complement reading of `u`, a number of `width` bytes.
fn twos_complement(u: u64, width: usize) -> (r: i64)
    requires
        width == 1 || width == 2 || width == 4 || width == 8,
        (u as nat) < byte_pow(width as nat),
    ensures
        r == (if u >= byte_pow(width as nat) / 2 {
            u - byte_pow(width as nat)
        } else {
            u as int
        }),
{
    proof {
        lemma_byte_pow_facts();
    }
    if width == 8 {
        if u >= 0x8000_0000_0000_0000 {
            ((u - 0x8000_0000_0000_0000) as i64) + i64::MIN
        } else {
            u as i64
        }
    } else {
        let full: i64 = if width == 1 {
            0x100
        } else if width == 2 {
            0x1_0000
        } else {
            0x1_0000_0000
        };
        if (u as i64) >= full / 2 {
            u as i64 - full
        } else {
            u as i64
        }
    }
}

impl EndianRead for u8 {
    open spec fn spec_from_endian_bytes(endian: Endian, bytes: Seq<u8>) -> Option<u8> {
        match unsigned_prefix(endian, bytes, 1) {
            Some(v) => Some(v as u8),
            None => None,
        }
    }

    fn from_endian_bytes(endian: &Endian, bytes: &[u8]) -> (r: Option<u8>) {
        assert(bytes@.skip(0) =~= bytes@);
        Self::from_offset_endian_bytes(endian, bytes, 0)
    }

    fn from_offset_endian_bytes(endian: &Endian, bytes: &[u8], offset: usize) -> (r: Option<u8>) {
        match read_unsigned(endian, bytes, offset, 1) {
            Some(v) => {
                proof {
                    lemma_byte_pow_facts();
                }
                Some(v as u8)
            },
            None => None,
        }
    }
}

impl EndianRead for u16 {
    open spec fn spec_from_endian_bytes(endian: Endian, bytes: Seq<u8>) -> Option<u16> {
        match unsigned_prefix(endian, bytes, 2) {
            Some(v) => Some(v as u16),
            None => None,
        }
    }

    fn from_endian_bytes(endian: &Endian, bytes: &[u8]) -> (r: Option<u16>) {
        assert(bytes@.skip(0) =~= bytes@);
        Self::from_offset_endian_bytes(endian, bytes, 0)
    }

    fn from_offset_endian_bytes(endian: &Endian, bytes: &[u8], offset: usize) -> (r: Option<u16>) {
        match read_unsigned(endian, bytes, offset, 2) {
            Some(v) => {
                proof {
                    lemma_byte_pow_facts();
                }
                Some(v as u16)
            },
            None => None,
        }
    }
}

impl EndianRead for u32 {
    open spec fn spec_from_endian_bytes(endian: Endian, bytes: Seq<u8>) -> Option<u32> {
        match unsigned_prefix(endian, bytes, 4) {
            Some(v) => Some(v as u32),
            None => None,
        }
    }

    fn from_endian_bytes(endian: &Endian, bytes: &[u8]) -> (r: Option<u32>) {
        assert(bytes@.skip(0) =~= bytes@);
        Self::from_offset_endian_bytes(endian, bytes, 0)
    }

    fn from_offset_endian_bytes(endian: &Endian, bytes: &[u8], offset: usize) -> (r: Option<u32>) {
        match read_unsigned(endian, bytes, offset, 4) {
            Some(v) => {
                proof {
                    lemma_byte_pow_facts();
                }
                Some(v as u32)
            },
            None => None,
        }
    }
}

impl EndianRead for u64 {
    open spec fn spec_from_endian_bytes(endian: Endian, bytes: Seq<u8>) -> Option<u64> {
        match unsigned_prefix(endian, bytes, 8) {
            Some(v) => Some(v as u64),
            None => None,
        }
    }

    fn from_endian_bytes(endian: &Endian, bytes: &[u8]) -> (r: Option<u64>) {
        assert(bytes@.skip(0) =~= bytes@);
        Self::from_offset_endian_bytes(endian, bytes, 0)
    }

    fn from_offset_endian_bytes(endian: &Endian, bytes: &[u8], offset: usize) -> (r: Option<u64>) {
        match read_unsigned(endian, bytes, offset, 8) {
            Some(v) => {
                proof {
                    lemma_byte_pow_facts();
                }
                Some(v as u64)
            },
            None => None,
        }
    }
}

impl EndianRead for i8 {
    open spec fn spec_from_endian_bytes(endian: Endian, bytes: Seq<u8>) -> Option<i8> {
        match signed_prefix(endian, bytes, 1) {
            Some(v) => Some(v as i8),
            None => None,
        }
    }

    fn from_endian_bytes(endian: &Endian, bytes: &[u8]) -> (r: Option<i8>) {
        assert(bytes@.skip(0) =~= bytes@);
        Self::from_offset_endian_bytes(endian, bytes, 0)
    }

    fn from_offset_endian_bytes(endian: &Endian, bytes: &[u8], offset: usize) -> (r: Option<i8>) {
        match read_unsigned(endian, bytes, offset, 1) {
            Some(u) => {
                proof {
                    lemma_byte_pow_facts();
                }
                Some(twos_complement(u, 1) as i8)
            },
            None => None,
        }
    }
}

impl EndianRead for i16 {
    open spec fn spec_from_endian_bytes(endian: Endian, bytes: Seq<u8>) -> Option<i16> {
        match signed_prefix(endian, bytes, 2) {
            Some(v) => Some(v as i16),
            None => None,
        }
    }

    fn from_endian_bytes(endian: &Endian, bytes: &[u8]) -> (r: Option<i16>) {
        assert(bytes@.skip(0) =~= bytes@);
        Self::from_offset_endian_bytes(endian, bytes, 0)
    }

    fn from_offset_endian_bytes(endian: &Endian, bytes: &[u8], offset: usize) -> (r: Option<i16>) {
        match read_unsigned(endian, bytes, offset, 2) {
            Some(u) => {
                proof {
                    lemma_byte_pow_facts();
                }
                Some(twos_complement(u, 2) as i16)
            },
            None => None,
        }
    }
}

impl EndianRead for i32 {
    open spec fn spec_from_endian_bytes(endian: Endian, bytes: Seq<u8>) -> Option<i32> {
        match signed_prefix(endian, bytes, 4) {
            Some(v) => Some(v as i32),
            None => None,
        }
    }

    fn from_endian_bytes(endian: &Endian, bytes: &[u8]) -> (r: Option<i32>) {
        assert(bytes@.skip(0) =~= bytes@);
        Self::from_offset_endian_bytes(endian, bytes, 0)
    }

    fn from_offset_endian_bytes(endian: &Endian, bytes: &[u8], offset: usize) -> (r: Option<i32>) {
        match read_unsigned(endian, bytes, offset, 4) {
            Some(u) => {
                proof {
                    lemma_byte_pow_facts();
                }
                Some(twos_complement(u, 4) as i32)
            },
            None => None,
        }
    }
}

impl EndianRead for i64 {
    open spec fn spec_from_endian_bytes(endian: Endian, bytes: Seq<u8>) -> Option<i64> {
        match signed_prefix(endian, bytes, 8) {
            Some(v) => Some(v as i64),
            None => None,
        }
    }

    fn from_endian_bytes(endian: &Endian, bytes: &[u8]) -> (r: Option<i64>) {
        assert(bytes@.skip(0) =~= bytes@);
        Self::from_offset_endian_bytes(endian, bytes, 0)
    }

    fn from_offset_endian_bytes(endian: &Endian, bytes: &[u8], offset: usize) -> (r: Option<i64>) {
        match read_unsigned(endian, bytes, offset, 8) {
            Some(u) => {
                proof {
                    lemma_byte_pow_facts();
                }
                Some(twos_complement(u, 8) as i64)
            },
            None => None,
        }
    }
}

/// The value of type `T` that starts `offset` bytes into `bytes`, or `None`
/// when `bytes` end before it does.
pub open spec fn spec_numeric_at<T: EndianRead>(endian: Endian, bytes: Seq<u8>, offset: int) -> Option<T> {
    if 0 <= offset <= bytes.len() {
        T::spec_from_endian_bytes(endian, bytes.skip(offset))
    } else {
        None
    }
}

/// Reads a number of type `T` that starts `offset` bytes into `bytes`, in
/// byte order `endian`.
pub fn decode_numeric<T: EndianRead>(endian: Endian, bytes: &[u8], offset: usize) -> (r: Result<T, FormatError>)
    ensures
        r == (match spec_numeric_at::<T>(endian, bytes@, offset as int) {
            Some(v) => Ok(v),
            None => Err(FormatError::InsufficientBytes),
        }),
{
    match T::from_offset_endian_bytes(&endian, bytes, offset) {
        Some(v) => Ok(v),
        None => Err(FormatError::InsufficientBytes),
    }
}


/// A decoded tag value. The two float formats are carried as their IEEE 754
/// bit patterns (`f32::from_bits` and `f64::from_bits` give the floats).
#[derive(Debug, Clone, PartialEq)]
pub enum ExifValue {
    UnsignedByte(u8),
    AsciiString(String),
    UnsignedShort(u16),
    UnsignedLong(u32),
    UnsignedRational(u32, u32),
    SignedByte(i8),
    Undefined(Vec<u8>),
    SignedShort(i16),
    SignedLong(i32),
    SignedRational(i32, i32),
    SingleFloat(u32),
    DoubleFloat(u64),
}

/// The mathematical content of an [`ExifValue`].
pub enum ExifValueView {
    UnsignedByte(u8),
    AsciiString(Seq<char>),
    UnsignedShort(u16),
    UnsignedLong(u32),
    UnsignedRational(u32, u32),
    SignedByte(i8),
    Undefined(Seq<u8>),
    SignedShort(i16),
    SignedLong(i32),
    SignedRational(i32, i32),
    SingleFloat(u32),
    DoubleFloat(u64),
}

impl View for ExifValue {
    type V = ExifValueView;

    open spec fn view(&self) -> ExifValueView {
        match self {
            ExifValue::UnsignedByte(v) => ExifValueView::UnsignedByte(*v),
            ExifValue::AsciiString(s) => ExifValueView::AsciiString(s@),
            ExifValue::UnsignedShort(v) => ExifValueView::UnsignedShort(*v),
            ExifValue::UnsignedLong(v) => ExifValueView::UnsignedLong(*v),
            ExifValue::UnsignedRational(n, d) => ExifValueView::UnsignedRational(*n, *d),
            ExifValue::SignedByte(v) => ExifValueView::SignedByte(*v),
            ExifValue::Undefined(b) => ExifValueView::Undefined(b@),
            ExifValue::SignedShort(v) => ExifValueView::SignedShort(*v),
            ExifValue::SignedLong(v) => ExifValueView::SignedLong(*v),
            ExifValue::SignedRational(n, d) => ExifValueView::SignedRational(*n, *d),
            ExifValue::SingleFloat(v) => ExifValueView::SingleFloat(*v),
            ExifValue::DoubleFloat(v) => ExifValueView::DoubleFloat(*v),
        }
    }
}

/// The unsigned number held by the `width` bytes of `b` from index `k`.
pub open spec fn uint_at(endian: Endian, b: Seq<u8>, k: int, width: nat) -> nat {
    unsigned_value(endian, b.subrange(k, k + width))
}

/// The two's complement number held by the `width` bytes of `b` from index `k`.
pub open spec fn sint_at(endian: Endian, b: Seq<u8>, k: int, width: nat) -> int {
    signed_value(endian, b.subrange(k, k + width))
}

/// The 16-bit number in `b` at index `k`.
pub open spec fn u16_at(endian: Endian, b: Seq<u8>, k: int) -> u16 {
    uint_at(endian, b, k, 2) as u16
}

/// The 32-bit number in `b` at index `k`.
pub open spec fn u32_at(endian: Endian, b: Seq<u8>, k: int) -> u32 {
    uint_at(endian, b, k, 4) as u32
}

/// `s` with every NUL character taken out.
pub open spec fn without_nul(s: Seq<char>) -> Seq<char> {
    s.filter(|c: char| c != '\0')
}

/// The text that `b` holds, NUL characters taken out, when `b` is UTF-8.
pub open spec fn ascii_text(b: Seq<u8>) -> Option<Seq<char>> {
    if valid_utf8(b) {
        Some(without_nul(decode_utf8(b)))
    } else {
        None
    }
}

/// Relies on `String::from_utf8`: it accepts exactly the well-formed UTF-8
/// byte strings, and the string it returns holds the characters they encode.
#[verifier::external_body]
fn string_from_utf8(bytes: Vec<u8>) -> (r: Option<String>)
    ensures
        r is Some <==> valid_utf8(bytes@),
        r matches Some(s) ==> s@ == decode_utf8(bytes@),
{
    String::from_utf8(bytes).ok()
}

/// Relies on `str::replace`: replacing every NUL character by the empty string
/// keeps the other characters in their order.
#[verifier::external_body]
pub(crate) fn remove_nul(s: &str) -> (r: String)
    ensures
        r@ == without_nul(s@),
{
    s.replace('\0', "")
}

/// The `count` bytes of `bytes` from `start`, when they are all there.
fn range(bytes: &[u8], start: usize, count: usize) -> (r: Option<&[u8]>)
    ensures
        start + count <= bytes@.len() ==> (r matches Some(b) && b@ == bytes@.subrange(
            start as int,
            start + count,
        )),
        start + count > bytes@.len() ==> r is None,
{
    if start > bytes.len() || count > bytes.len() - start {
        None
    } else {
        Some(vstd::slice::slice_subrange(bytes, start, start + count))
    }
}

/// All of `bytes` as text, when they are UTF-8.
pub fn full_bytes_string(bytes: &[u8]) -> (r: Option<String>)
    ensures
        r is Some <==> valid_utf8(bytes@),
        r matches Some(s) ==> s@ == decode_utf8(bytes@),
{
    string_from_utf8(slice_to_vec(bytes))
}

/// The bytes of `bytes` in `r` as text, when they are all there and UTF-8.
pub fn bytes_to_string(bytes: &[u8], r: std::ops::Range<usize>) -> (s: Option<String>)
    ensures
        s is Some <==> r.start <= r.end <= bytes@.len() && valid_utf8(
            bytes@.subrange(r.start as int, r.end as int),
        ),
        s matches Some(t) ==> t@ == decode_utf8(bytes@.subrange(r.start as int, r.end as int)),
{
    if r.start > r.end {
        return None;
    }
    match range(bytes, r.start, r.end - r.start) {
        Some(b) => full_bytes_string(b),
        None => None,
    }
}

/// The `u8` at the start of `bytes`.
pub fn bytes_to_unsigned_byte(endian: &Endian, bytes: &[u8]) -> (r: Option<ExifValue>)
    ensures
        r == (if bytes@.len() >= 1 {
            Some(ExifValue::UnsignedByte(uint_at(*endian, bytes@, 0, 1) as u8))
        } else {
            None
        }),
{
    match u8::from_endian_bytes(endian, bytes) {
        Some(v) => Some(ExifValue::UnsignedByte(v)),
        None => None,
    }
}

/// All of `bytes` as text with its NUL characters taken out, when they are UTF-8.
pub fn bytes_to_ascii_string(bytes: &[u8]) -> (r: Option<ExifValue>)
    ensures
        r is Some <==> ascii_text(bytes@) is Some,
        r matches Some(v) ==> v@ == ExifValueView::AsciiString(ascii_text(bytes@)->0),
{
    match full_bytes_string(bytes) {
        Some(s) => Some(ExifValue::AsciiString(remove_nul(s.as_str()))),
        None => None,
    }
}

/// The `u16` at the start of `bytes`.
pub fn bytes_to_unsigned_short(endian: &Endian, bytes: &[u8]) -> (r: Option<ExifValue>)
    ensures
        r == (if bytes@.len() >= 2 {
            Some(ExifValue::UnsignedShort(uint_at(*endian, bytes@, 0, 2) as u16))
        } else {
            None
        }),
{
    match u16::from_endian_bytes(endian, bytes) {
        Some(v) => Some(ExifValue::UnsignedShort(v)),
        None => None,
    }
}

/// The `u32` at the start of `bytes`.
pub fn bytes_to_unsigned_long(endian: &Endian, bytes: &[u8]) -> (r: Option<ExifValue>)
    ensures
        r == (if bytes@.len() >= 4 {
            Some(ExifValue::UnsignedLong(uint_at(*endian, bytes@, 0, 4) as u32))
        } else {
            None
        }),
{
    match u32::from_endian_bytes(endian, bytes) {
        Some(v) => Some(ExifValue::UnsignedLong(v)),
        None => None,
    }
}

/// The two `u32`s, numerator then denominator, in the first eight bytes of `bytes`.
pub fn bytes_to_unsigned_rational(endian: &Endian, bytes: &[u8]) -> (r: Option<ExifValue>)
    ensures
        r == (if bytes@.len() >= 8 {
            Some(
                ExifValue::UnsignedRational(
                    uint_at(*endian, bytes@, 0, 4) as u32,
                    uint_at(*endian, bytes@, 4, 4) as u32,
                ),
            )
        } else {
            None
        }),
{
    if bytes.len() < 8 {
        return None;
    }
    assert(bytes@.skip(4).take(4) =~= bytes@.subrange(4, 8));
    match (u32::from_endian_bytes(endian, bytes), u32::from_offset_endian_bytes(endian, bytes, 4)) {
        (Some(n), Some(d)) => Some(ExifValue::UnsignedRational(n, d)),
        _ => None,
    }
}

/// The `i8` at the start of `bytes`.
pub fn bytes_to_signed_byte(endian: &Endian, bytes: &[u8]) -> (r: Option<ExifValue>)
    ensures
        r == (if bytes@.len() >= 1 {
            Some(ExifValue::SignedByte(sint_at(*endian, bytes@, 0, 1) as i8))
        } else {
            None
        }),
{
    match i8::from_endian_bytes(endian, bytes) {
        Some(v) => Some(ExifValue::SignedByte(v)),
        None => None,
    }
}

/// All of `bytes`, uninterpreted.
pub fn bytes_to_undefined(bytes: &[u8]) -> (r: Option<ExifValue>)
    ensures
        r matches Some(v) && v@ == ExifValueView::Undefined(bytes@),
{
    Some(ExifValue::Undefined(slice_to_vec(bytes)))
}

/// The `i16` at the start of `bytes`.
pub fn bytes_to_signed_short(endian: &Endian, bytes: &[u8]) -> (r: Option<ExifValue>)
    ensures
        r == (if bytes@.len() >= 2 {
            Some(ExifValue::SignedShort(sint_at(*endian, bytes@, 0, 2) as i16))
        } else {
            None
        }),
{
    match i16::from_endian_bytes(endian, bytes) {
        Some(v) => Some(ExifValue::SignedShort(v)),
        None => None,
    }
}

/// The `i32` at the start of `bytes`.
pub fn bytes_to_signed_long(endian: &Endian, bytes: &[u8]) -> (r: Option<ExifValue>)
    ensures
        r == (if bytes@.len() >= 4 {
            Some(ExifValue::SignedLong(sint_at(*endian, bytes@, 0, 4) as i32))
        } else {
            None
        }),
{
    match i32::from_endian_bytes(endian, bytes) {
        Some(v) => Some(ExifValue::SignedLong(v)),
        None => None,
    }
}

/// The two `i32`s, numerator then denominator, in the first eight bytes of `bytes`.
pub fn bytes_to_signed_rational(endian: &Endian, bytes: &[u8]) -> (r: Option<ExifValue>)
    ensures
        r == (if bytes@.len() >= 8 {
            Some(
                ExifValue::SignedRational(
                    sint_at(*endian, bytes@, 0, 4) as i32,
                    sint_at(*endian, bytes@, 4, 4) as i32,
                ),
            )
        } else {
            None
        }),
{
    if bytes.len() < 8 {
        return None;
    }
    assert(bytes@.skip(4).take(4) =~= bytes@.subrange(4, 8));
    match (i32::from_endian_bytes(endian, bytes), i32::from_offset_endian_bytes(endian, bytes, 4)) {
        (Some(n), Some(d)) => Some(ExifValue::SignedRational(n, d)),
        _ => None,
    }
}

/// The bit pattern of the `f32` at the start of `bytes`.
pub fn bytes_to_single_float(endian: &Endian, bytes: &[u8]) -> (r: Option<ExifValue>)
    ensures
        r == (if bytes@.len() >= 4 {
            Some(ExifValue::SingleFloat(uint_at(*endian, bytes@, 0, 4) as u32))
        } else {
            None
        }),
{
    match u32::from_endian_bytes(endian, bytes) {
        Some(v) => Some(ExifValue::SingleFloat(v)),
        None => None,
    }
}

/// The bit pattern of the `f64` at the start of `bytes`.
pub fn bytes_to_double_float(endian: &Endian, bytes: &[u8]) -> (r: Option<ExifValue>)
    ensures
        r == (if bytes@.len() >= 8 {
            Some(ExifValue::DoubleFloat(uint_at(*endian, bytes@, 0, 8) as u64))
        } else {
            None
        }),
{
    match u64::from_endian_bytes(endian, bytes) {
        Some(v) => Some(ExifValue::DoubleFloat(v)),
        None => None,
    }
}

} // verus!
