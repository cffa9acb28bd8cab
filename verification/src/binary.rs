//! Big-endian readers for the primitive values that the file formats store.
use vstd::prelude::*;
use vstd::utf8::valid_utf8;
use vstd::utf8::decode_utf8;
use crate::error::Error;

verus! {

// ---------------------------------------------------------------------------
// The model: what the bytes at an offset mean.
// ---------------------------------------------------------------------------

/// The `n` bytes from `offset` on lie inside `data`.
pub open spec fn within(data: Seq<u8>, offset: int, n: int) -> bool {
    0 <= offset && 0 <= n && offset + n <= data.len()
}

/// The big-endian `u16` stored at `offset`.
pub open spec fn be_u16(data: Seq<u8>, offset: int) -> u16 {
    (data[offset] as int * 0x100 + data[offset + 1] as int) as u16
}

/// The big-endian `u32` stored at `offset`.
pub open spec fn be_u32(data: Seq<u8>, offset: int) -> u32 {
    (data[offset] as int * 0x100_0000 + data[offset + 1] as int * 0x1_0000
        + data[offset + 2] as int * 0x100 + data[offset + 3] as int) as u32
}

/// The big-endian `u64` stored at `offset`.
pub open spec fn be_u64(data: Seq<u8>, offset: int) -> u64 {
    (be_u32(data, offset) as int * 0x1_0000_0000 + be_u32(data, offset + 4) as int) as u64
}

/// The text that the bytes `start..end` decode to, if they are UTF-8.
pub open spec fn utf8_text(data: Seq<u8>, start: int, end: int) -> Option<Seq<char>> {
    let bytes = data.subrange(start, end);
    if valid_utf8(bytes) {
        Some(decode_utf8(bytes))
    } else {
        None
    }
}

/// Whether `d1` and `d2` have the same length and the same bytes from `from` on.
pub open spec fn same_from(d1: Seq<u8>, d2: Seq<u8>, from: int) -> bool {
    &&& d1.len() == d2.len()
    &&& forall|k: int| from <= k < d1.len() ==> #[trigger] d1[k] == d2[k]
}

/// Two byte sequences that agree from `from` on read the same numbers and texts
/// there.
pub proof fn lemma_same_from(d1: Seq<u8>, d2: Seq<u8>, from: int)
    requires
        same_from(d1, d2, from),
        0 <= from,
    ensures
        forall|x: int| from <= x && x + 2 <= d1.len() ==> #[trigger] be_u16(d1, x) == be_u16(d2, x),
        forall|x: int| from <= x && x + 4 <= d1.len() ==> #[trigger] be_u32(d1, x) == be_u32(d2, x),
        forall|a: int, b: int| from <= a <= b <= d1.len() ==> #[trigger] d1.subrange(a, b) == d2.subrange(a, b),
        forall|a: int, b: int| from <= a <= b <= d1.len() ==> #[trigger] utf8_text(d1, a, b) == utf8_text(d2, a, b),
        forall|x: int| from <= x && x + 12 <= d1.len() ==> #[trigger] vec3_at(d1, x) == vec3_at(d2, x),
        forall|x: int| from <= x && x + 8 <= d1.len() ==> #[trigger] vec2_at(d1, x) == vec2_at(d2, x),
{
    assert forall|x: int| from <= x && x + 2 <= d1.len() implies #[trigger] be_u16(d1, x) == be_u16(d2, x) by {
        assert(d1[x] == d2[x] && d1[x + 1] == d2[x + 1]);
    }
    assert forall|x: int| from <= x && x + 4 <= d1.len() implies #[trigger] be_u32(d1, x) == be_u32(d2, x) by {
        assert(d1[x] == d2[x] && d1[x + 1] == d2[x + 1] && d1[x + 2] == d2[x + 2] && d1[x + 3] == d2[x + 3]);
    }
    assert forall|a: int, b: int| from <= a <= b <= d1.len() implies #[trigger] d1.subrange(a, b) == d2.subrange(a, b) by {
        assert(d1.subrange(a, b) =~= d2.subrange(a, b));
    }
    assert forall|a: int, b: int| from <= a <= b <= d1.len() implies #[trigger] utf8_text(d1, a, b) == utf8_text(d2, a, b) by {
        assert(d1.subrange(a, b) =~= d2.subrange(a, b));
    }
    assert forall|x: int| from <= x && x + 12 <= d1.len() implies #[trigger] vec3_at(d1, x) == vec3_at(d2, x) by {
        assert(be_u32(d1, x) == be_u32(d2, x));
        assert(be_u32(d1, x + 4) == be_u32(d2, x + 4));
        assert(be_u32(d1, x + 8) == be_u32(d2, x + 8));
    }
    assert forall|x: int| from <= x && x + 8 <= d1.len() implies #[trigger] vec2_at(d1, x) == vec2_at(d2, x) by {
        assert(be_u32(d1, x) == be_u32(d2, x));
        assert(be_u32(d1, x + 4) == be_u32(d2, x + 4));
    }
}

// ---------------------------------------------------------------------------
// Unchecked readers, for offsets already known to lie inside the data.
// ---------------------------------------------------------------------------

/// The byte at `offset`.
pub fn get_u8(data: &[u8], offset: usize) -> (r: u8)
    requires
        within(data@, offset as int, 1),
    ensures
        r == data@[offset as int],
{
    data[offset]
}

/// The big-endian `u16` at `offset`.
pub fn get_u16(data: &[u8], offset: usize) -> (r: u16)
    requires
        within(data@, offset as int, 2),
    ensures
        r == be_u16(data@, offset as int),
{
    (data[offset] as u16) * 0x100 + (data[offset + 1] as u16)
}

/// The big-endian `u32` at `offset`.
pub fn get_u32(data: &[u8], offset: usize) -> (r: u32)
    requires
        within(data@, offset as int, 4),
    ensures
        r == be_u32(data@, offset as int),
{
    (data[offset] as u32) * 0x100_0000 + (data[offset + 1] as u32) * 0x1_0000
        + (data[offset + 2] as u32) * 0x100 + (data[offset + 3] as u32)
}

/// The big-endian `u64` at `offset`.
pub fn get_u64(data: &[u8], offset: usize) -> (r: u64)
    requires
        within(data@, offset as int, 8),
    ensures
        r == be_u64(data@, offset as int),
{
    let hi = get_u32(data, offset);
    assert(offset + 8 <= data.len());
    let lo = get_u32(data, offset + 4);
    (hi as u64) * 0x1_0000_0000 + (lo as u64)
}

/// The `N` bytes at `offset`, copied into an array.
pub fn get_array<const N: usize>(data: &[u8], offset: usize) -> (r: [u8; N])
    requires
        within(data@, offset as int, N as int),
    ensures
        r@ == data@.subrange(offset as int, offset + N),
{
    assert(offset + N <= data.len());
    let mut a = [0u8; N];
    let mut i: usize = 0;
    while i < N
        invariant
            i <= N,
            offset + N <= data.len(),
            a@.len() == N,
            forall|j: int| 0 <= j < i ==> a@[j] == data@[offset + j],
        decreases N - i,
    {
        a[i] = data[offset + i];
        i = i + 1;
    }
    assert(a@ =~= data@.subrange(offset as int, offset + N));
    a
}

/// Whether the `n` bytes from `offset` on lie inside `data`; never overflows.
pub fn fits(data: &[u8], offset: usize, n: usize) -> (r: bool)
    ensures
        r == within(data@, offset as int, n as int),
        r ==> offset + n <= data.len(),
{
    offset <= data.len() && n <= data.len() - offset
}

/// Decodes `bytes` as UTF-8 by `String::from_utf8`. Assumed of it, as std documents:
/// it succeeds exactly when the bytes are well-formed UTF-8, and the string then
/// holds the characters that they encode.
#[verifier::external_body]
fn string_from_utf8(bytes: &[u8]) -> (r: Option<String>)
    ensures
        r is Some <==> valid_utf8(bytes@),
        r matches Some(s) ==> s@ == decode_utf8(bytes@),
{
    String::from_utf8(bytes.to_vec()).ok()
}

/// The text of the bytes `start..end` of `data`, or `InvalidUtf8`.
pub fn text_at(data: &[u8], start: usize, end: usize) -> (r: Result<String, Error>)
    requires
        start <= end <= data@.len(),
    ensures
        match utf8_text(data@, start as int, end as int) {
            Some(t) => r matches Ok(s) && s@ == t,
            None => r == Err::<String, Error>(Error::InvalidUtf8),
        },
{
    let bytes = &data[start..end];
    match string_from_utf8(bytes) {
        Some(s) => Ok(s),
        None => Err(Error::InvalidUtf8),
    }
}

/// Whether two strings hold the same characters.
pub(crate) fn str_eq(a: &str, b: &str) -> (r: bool)
    ensures
        r == (a@ == b@),
{
    let n = a.unicode_len();
    if n != b.unicode_len() {
        return false;
    }
    let mut i: usize = 0;
    while i < n
        invariant
            n == a@.len(),
            n == b@.len(),
            i <= n,
            forall|j: int| 0 <= j < i ==> a@[j] == b@[j],
        decreases n - i,
    {
        if a.get_char(i) != b.get_char(i) {
            return false;
        }
        i = i + 1;
    }
    assert(a@ =~= b@);
    true
}

// ---------------------------------------------------------------------------
// Values read from bytes.
// ---------------------------------------------------------------------------

/// The three big-endian bytes that hold the low 24 bits of `value`.
#[verifier::opaque]
pub open spec fn u24_bytes(value: u32) -> Seq<u8> {
    seq![(value / 0x1_0000 % 0x100) as u8, (value / 0x100 % 0x100) as u8, (value % 0x100) as u8]
}

/// The number that three big-endian bytes stand for.
#[verifier::opaque]
pub open spec fn u24_value(bytes: Seq<u8>) -> int {
    bytes[0] as int * 0x1_0000 + bytes[1] as int * 0x100 + bytes[2] as int
}

/// A 24-bit unsigned integer, kept as its three big-endian bytes.
#[allow(non_camel_case_types)]
#[derive(Copy, Clone, Debug)]
pub struct u24([u8; 3]);

impl u24 {
    /// The three bytes, most significant first.
    pub closed spec fn bytes(self) -> Seq<u8> {
        self.0@
    }

    /// There are always three bytes.
    pub proof fn lemma_len(self)
        ensures
            self.bytes().len() == 3,
    {
    }

    /// Keeps the low 24 bits of `value`.
    pub fn from_u32(value: u32) -> (r: Self)
        ensures
            r.bytes() == u24_bytes(value),
    {
        reveal(u24_bytes);
        let r = u24([(value / 0x1_0000 % 0x100) as u8, (value / 0x100 % 0x100) as u8, (value % 0x100) as u8]);
        assert(r.0@ =~= u24_bytes(value));
        r
    }

    /// The number, widened to 32 bits.
    pub fn to_u32(&self) -> (r: u32)
        ensures
            r == u24_value(self.bytes()),
    {
        reveal(u24_value);
        (self.0[0] as u32) * 0x1_0000 + (self.0[1] as u32) * 0x100 + (self.0[2] as u32)
    }
}

/// Widening a 24-bit integer made by `u24::from_u32` gives back the low 24 bits
/// of the number it was made from.
pub proof fn lemma_u24_keeps_low_bits(value: u32)
    ensures
        u24_value(u24_bytes(value)) == value % 0x100_0000,
{
    reveal(u24_value);
    reveal(u24_bytes);
    assert((value / 0x1_0000 % 0x100) * 0x1_0000 + (value / 0x100 % 0x100) * 0x100 + value % 0x100
        == value % 0x100_0000) by (bit_vector);
}

/// Narrowing the number that `u24::to_u32` gives yields the same three bytes again.
pub proof fn lemma_u24_round_trip(x: u24)
    ensures
        0 <= u24_value(x.bytes()) < 0x100_0000,
        u24_bytes(u24_value(x.bytes()) as u32) == x.bytes(),
{
    reveal(u24_value);
    reveal(u24_bytes);
    x.lemma_len();
    let b = x.bytes();
    let b0 = b[0] as int;
    let b1 = b[1] as int;
    let b2 = b[2] as int;
    let v = u24_value(b);
    assert(v == b0 * 0x1_0000 + b1 * 0x100 + b2);
    assert(v / 0x1_0000 % 0x100 == b0 && v / 0x100 % 0x100 == b1 && v % 0x100 == b2
        && 0 <= v < 0x100_0000) by (nonlinear_arith)
        requires
            v == b0 * 0x1_0000 + b1 * 0x100 + b2,
            0 <= b0 < 256,
            0 <= b1 < 256,
            0 <= b2 < 256,
    ;
    assert(u24_bytes(v as u32) =~= b);
}

// ---------------------------------------------------------------------------
// Reading typed values.
// ---------------------------------------------------------------------------

/// What a fixed-size read of `n` bytes at `offset` gives: `v` when the bytes lie
/// inside the data, `OutOfBounds` otherwise.
pub open spec fn fixed_read<T>(data: Seq<u8>, offset: int, n: int, v: T) -> Result<T, Error> {
    if within(data, offset, n) {
        Ok(v)
    } else {
        Err(Error::OutOfBounds)
    }
}

/// A value that can be read from bytes at an offset.
pub trait FromBytes: Sized {
    /// Whether `r` is the outcome of reading a value at `offset` of `data`.
    spec fn read_result(data: Seq<u8>, offset: int, r: Result<Self, Error>) -> bool;

    /// Reads a value at `offset` of `data`.
    fn from_bytes(data: &[u8], offset: usize) -> (r: Result<Self, Error>)
        ensures
            Self::read_result(data@, offset as int, r),
    ;
}

/// Reads a value of type `T` at `offset` of `data`.
pub fn read<T: FromBytes>(data: &[u8], offset: usize) -> (r: Result<T, Error>)
    ensures
        T::read_result(data@, offset as int, r),
{
    T::from_bytes(data, offset)
}

impl FromBytes for u8 {
    open spec fn read_result(data: Seq<u8>, offset: int, r: Result<u8, Error>) -> bool {
        r == fixed_read(data, offset, 1, data[offset])
    }

    fn from_bytes(data: &[u8], offset: usize) -> (r: Result<u8, Error>) {
        if fits(data, offset, 1) {
            Ok(get_u8(data, offset))
        } else {
            Err(Error::OutOfBounds)
        }
    }
}

impl FromBytes for i8 {
    open spec fn read_result(data: Seq<u8>, offset: int, r: Result<i8, Error>) -> bool {
        r == fixed_read(data, offset, 1, data[offset] as i8)
    }

    fn from_bytes(data: &[u8], offset: usize) -> (r: Result<i8, Error>) {
        if fits(data, offset, 1) {
            Ok(get_u8(data, offset) as i8)
        } else {
            Err(Error::OutOfBounds)
        }
    }
}

impl FromBytes for bool {
    open spec fn read_result(data: Seq<u8>, offset: int, r: Result<bool, Error>) -> bool {
        r == fixed_read(data, offset, 1, data[offset] != 0)
    }

    fn from_bytes(data: &[u8], offset: usize) -> (r: Result<bool, Error>) {
        if fits(data, offset, 1) {
            Ok(get_u8(data, offset) != 0)
        } else {
            Err(Error::OutOfBounds)
        }
    }
}

impl FromBytes for u16 {
    open spec fn read_result(data: Seq<u8>, offset: int, r: Result<u16, Error>) -> bool {
        r == fixed_read(data, offset, 2, be_u16(data, offset))
    }

    fn from_bytes(data: &[u8], offset: usize) -> (r: Result<u16, Error>) {
        if fits(data, offset, 2) {
            Ok(get_u16(data, offset))
        } else {
            Err(Error::OutOfBounds)
        }
    }
}

impl FromBytes for i16 {
    open spec fn read_result(data: Seq<u8>, offset: int, r: Result<i16, Error>) -> bool {
        r == fixed_read(data, offset, 2, be_u16(data, offset) as i16)
    }

    fn from_bytes(data: &[u8], offset: usize) -> (r: Result<i16, Error>) {
        if fits(data, offset, 2) {
            Ok(get_u16(data, offset) as i16)
        } else {
            Err(Error::OutOfBounds)
        }
    }
}

impl FromBytes for u32 {
    open spec fn read_result(data: Seq<u8>, offset: int, r: Result<u32, Error>) -> bool {
        r == fixed_read(data, offset, 4, be_u32(data, offset))
    }

    fn from_bytes(data: &[u8], offset: usize) -> (r: Result<u32, Error>) {
        if fits(data, offset, 4) {
            Ok(get_u32(data, offset))
        } else {
            Err(Error::OutOfBounds)
        }
    }
}

impl FromBytes for i32 {
    open spec fn read_result(data: Seq<u8>, offset: int, r: Result<i32, Error>) -> bool {
        r == fixed_read(data, offset, 4, be_u32(data, offset) as i32)
    }

    fn from_bytes(data: &[u8], offset: usize) -> (r: Result<i32, Error>) {
        if fits(data, offset, 4) {
            Ok(get_u32(data, offset) as i32)
        } else {
            Err(Error::OutOfBounds)
        }
    }
}

impl FromBytes for u64 {
    open spec fn read_result(data: Seq<u8>, offset: int, r: Result<u64, Error>) -> bool {
        r == fixed_read(data, offset, 8, be_u64(data, offset))
    }

    fn from_bytes(data: &[u8], offset: usize) -> (r: Result<u64, Error>) {
        if fits(data, offset, 8) {
            Ok(get_u64(data, offset))
        } else {
            Err(Error::OutOfBounds)
        }
    }
}

impl FromBytes for i64 {
    open spec fn read_result(data: Seq<u8>, offset: int, r: Result<i64, Error>) -> bool {
        r == fixed_read(data, offset, 8, be_u64(data, offset) as i64)
    }

    fn from_bytes(data: &[u8], offset: usize) -> (r: Result<i64, Error>) {
        if fits(data, offset, 8) {
            Ok(get_u64(data, offset) as i64)
        } else {
            Err(Error::OutOfBounds)
        }
    }
}

/// A four-byte magic, decoded as UTF-8.
impl FromBytes for String {
    open spec fn read_result(data: Seq<u8>, offset: int, r: Result<String, Error>) -> bool {
        if !within(data, offset, 4) {
            r == Err::<String, Error>(Error::OutOfBounds)
        } else {
            match utf8_text(data, offset, offset + 4) {
                Some(t) => r matches Ok(s) && s@ == t,
                None => r == Err::<String, Error>(Error::InvalidUtf8),
            }
        }
    }

    fn from_bytes(data: &[u8], offset: usize) -> (r: Result<String, Error>) {
        if !fits(data, offset, 4) {
            return Err(Error::OutOfBounds);
        }
        text_at(data, offset, offset + 4)
    }
}

/// `N` bytes, copied as they stand.
impl<const N: usize> FromBytes for [u8; N] {
    open spec fn read_result(data: Seq<u8>, offset: int, r: Result<[u8; N], Error>) -> bool {
        if within(data, offset, N as int) {
            r matches Ok(a) && a@ == data.subrange(offset, offset + N)
        } else {
            r == Err::<[u8; N], Error>(Error::OutOfBounds)
        }
    }

    fn from_bytes(data: &[u8], offset: usize) -> (r: Result<[u8; N], Error>) {
        if !fits(data, offset, N) {
            return Err(Error::OutOfBounds);
        }
        Ok(get_array(data, offset))
    }
}

/// `N` big-endian `u32` values, one after the other.
impl<const N: usize> FromBytes for [u32; N] {
    open spec fn read_result(data: Seq<u8>, offset: int, r: Result<[u32; N], Error>) -> bool {
        if N == 0 || within(data, offset, 4 * N) {
            r matches Ok(a) && a@.len() == N && forall|j: int|
                0 <= j < N ==> #[trigger] a@[j] == be_u32(data, offset + 4 * j)
        } else {
            r == Err::<[u32; N], Error>(Error::OutOfBounds)
        }
    }

    fn from_bytes(data: &[u8], offset: usize) -> (r: Result<[u32; N], Error>) {
        let mut a = [0u32; N];
        if N == 0 {
            return Ok(a);
        }
        if offset > data.len() || N > (data.len() - offset) / 4 {
            return Err(Error::OutOfBounds);
        }
        let mut i: usize = 0;
        while i < N
            invariant
                i <= N,
                within(data@, offset as int, 4 * N),
                offset + 4 * N <= data.len(),
                a@.len() == N,
                forall|j: int| 0 <= j < i ==> #[trigger] a@[j] == be_u32(data@, offset + 4 * j),
            decreases N - i,
        {
            a[i] = get_u32(data, offset + 4 * i);
            i = i + 1;
        }
        Ok(a)
    }
}

/// What reading a length-prefixed string at `offset` gives: its text, or the
/// error. The length is the big-endian `u32` in the four bytes before `offset`.
pub open spec fn varstring_outcome(data: Seq<u8>, offset: int) -> Result<Seq<char>, Error> {
    if offset < 4 || !within(data, offset - 4, 4) {
        Err(Error::OutOfBounds)
    } else if !within(data, offset, be_u32(data, offset - 4) as int) {
        Err(Error::OutOfBounds)
    } else {
        match utf8_text(data, offset, offset + be_u32(data, offset - 4)) {
            Some(t) => Ok(t),
            None => Err(Error::InvalidUtf8),
        }
    }
}

/// A string stored with its length as a big-endian `u32` in the four bytes just
/// before it.
pub struct VariableString {
    pub string: String,
    pub length: usize,
}

impl FromBytes for VariableString {
    open spec fn read_result(data: Seq<u8>, offset: int, r: Result<VariableString, Error>) -> bool {
        match varstring_outcome(data, offset) {
            Ok(t) => r matches Ok(v) && v.string@ == t && v.length == be_u32(data, offset - 4),
            Err(e) => r == Err::<VariableString, Error>(e),
        }
    }

    fn from_bytes(data: &[u8], offset: usize) -> (r: Result<VariableString, Error>) {
        if offset < 4 || !fits(data, offset - 4, 4) {
            return Err(Error::OutOfBounds);
        }
        let len = get_u32(data, offset - 4) as usize;
        if !fits(data, offset, len) {
            return Err(Error::OutOfBounds);
        }
        let string = text_at(data, offset, offset + len)?;
        Ok(VariableString { string, length: len })
    }
}

/// The index of the first zero byte at or after `from`, or the length of the
/// data when there is none.
pub open spec fn first_zero(data: Seq<u8>, from: int) -> int
    decreases data.len() - from,
{
    if from < 0 || from >= data.len() {
        data.len() as int
    } else if data[from] == 0 {
        from
    } else {
        first_zero(data, from + 1)
    }
}

/// What reading a zero-terminated string at `offset` gives: its text, or the
/// error. The offset must lie inside the data and a zero byte must follow it.
pub open spec fn cstring_outcome(data: Seq<u8>, offset: int) -> Result<Seq<char>, Error> {
    if !(0 <= offset < data.len()) {
        Err(Error::OutOfBounds)
    } else if first_zero(data, offset) == data.len() {
        Err(Error::NoNullTerminator(offset as usize))
    } else {
        match utf8_text(data, offset, first_zero(data, offset)) {
            Some(t) => Ok(t),
            None => Err(Error::InvalidUtf8),
        }
    }
}

/// A zero-terminated string.
pub struct AsciiString {
    pub string: String,
    pub length: usize,
}

impl FromBytes for AsciiString {
    open spec fn read_result(data: Seq<u8>, offset: int, r: Result<AsciiString, Error>) -> bool {
        match cstring_outcome(data, offset) {
            Ok(t) => r matches Ok(v) && v.string@ == t && v.length == first_zero(data, offset) - offset,
            Err(e) => r == Err::<AsciiString, Error>(e),
        }
    }

    fn from_bytes(data: &[u8], offset: usize) -> (r: Result<AsciiString, Error>) {
        if offset >= data.len() {
            return Err(Error::OutOfBounds);
        }
        let mut end = offset;
        while end < data.len() && data[end] != 0
            invariant
                offset <= end <= data@.len(),
                first_zero(data@, offset as int) == first_zero(data@, end as int),
            decreases data@.len() - end,
        {
            end = end + 1;
        }
        if end == data.len() {
            return Err(Error::NoNullTerminator(offset));
        }
        let string = text_at(data, offset, end)?;
        Ok(AsciiString { length: end - offset, string })
    }
}

/// Three single-precision numbers, each kept as the bit pattern of its IEEE 754
/// encoding (`f32::from_bits` turns it into the number).
#[derive(Debug, Clone, Copy, PartialEq, Eq, Structural)]
pub struct Vec3 {
    pub x: u32,
    pub y: u32,
    pub z: u32,
}

/// The three bit patterns stored big-endian at `offset`.
pub open spec fn vec3_at(data: Seq<u8>, offset: int) -> Vec3 {
    Vec3 { x: be_u32(data, offset), y: be_u32(data, offset + 4), z: be_u32(data, offset + 8) }
}

/// The vector stored at `offset`.
pub fn get_vec3(data: &[u8], offset: usize) -> (r: Vec3)
    requires
        within(data@, offset as int, 12),
    ensures
        r == vec3_at(data@, offset as int),
{
    assert(offset + 12 <= data.len());
    Vec3 { x: get_u32(data, offset), y: get_u32(data, offset + 4), z: get_u32(data, offset + 8) }
}

impl Vec3 {
    /// The vector that twelve big-endian bytes hold.
    pub fn raw_new(data: &[u8; 12]) -> (r: Result<Self, Error>)
        ensures
            r == Ok::<Vec3, Error>(vec3_at(data@, 0)),
    {
        let s = data.as_slice();
        Ok(Vec3 { x: get_u32(s, 0), y: get_u32(s, 4), z: get_u32(s, 8) })
    }
}

impl FromBytes for Vec3 {
    open spec fn read_result(data: Seq<u8>, offset: int, r: Result<Vec3, Error>) -> bool {
        r == fixed_read(data, offset, 12, vec3_at(data, offset))
    }

    fn from_bytes(data: &[u8], offset: usize) -> (r: Result<Vec3, Error>) {
        if !fits(data, offset, 12) {
            return Err(Error::OutOfBounds);
        }
        Ok(Vec3 { x: get_u32(data, offset), y: get_u32(data, offset + 4), z: get_u32(data, offset + 8) })
    }
}

/// Two single-precision numbers, each kept as the bit pattern of its IEEE 754
/// encoding.
#[derive(Debug, Clone, Copy, PartialEq, Eq, Structural)]
pub struct Vec2 {
    pub x: u32,
    pub y: u32,
}

/// The two bit patterns stored big-endian at `offset`.
pub open spec fn vec2_at(data: Seq<u8>, offset: int) -> Vec2 {
    Vec2 { x: be_u32(data, offset), y: be_u32(data, offset + 4) }
}

/// The vector stored at `offset`.
pub fn get_vec2(data: &[u8], offset: usize) -> (r: Vec2)
    requires
        within(data@, offset as int, 8),
    ensures
        r == vec2_at(data@, offset as int),
{
    assert(offset + 8 <= data.len());
    Vec2 { x: get_u32(data, offset), y: get_u32(data, offset + 4) }
}

impl Vec2 {
    /// The vector that eight big-endian bytes hold.
    pub fn raw_new(data: &[u8; 8]) -> (r: Result<Self, Error>)
        ensures
            r == Ok::<Vec2, Error>(vec2_at(data@, 0)),
    {
        let s = data.as_slice();
        Ok(Vec2 { x: get_u32(s, 0), y: get_u32(s, 4) })
    }
}

impl FromBytes for Vec2 {
    open spec fn read_result(data: Seq<u8>, offset: int, r: Result<Vec2, Error>) -> bool {
        r == fixed_read(data, offset, 8, vec2_at(data, offset))
    }

    fn from_bytes(data: &[u8], offset: usize) -> (r: Result<Vec2, Error>) {
        if !fits(data, offset, 8) {
            return Err(Error::OutOfBounds);
        }
        Ok(Vec2 { x: get_u32(data, offset), y: get_u32(data, offset + 4) })
    }
}

/// The byte order of a file.
#[derive(Debug, Clone, Copy, PartialEq, Eq, Structural)]
pub enum Endian {
    Big,
    Little,
}

impl Endian {
    /// The name of the byte order: `Big` or `Little`.
    pub fn name(&self) -> (r: &'static str)
        ensures
            r@ == (match self {
                Endian::Big => "Big"@,
                Endian::Little => "Little"@,
            }),
    {
        match self {
            Endian::Big => "Big",
            Endian::Little => "Little",
        }
    }
}

} // verus!
