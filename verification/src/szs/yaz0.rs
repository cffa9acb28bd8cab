//! Yaz0 decompression.
use vstd::prelude::*;
use crate::binary::{within, be_u32, read, fits, get_u32};
use crate::error::Error;

verus! {

/// The four bytes `Yaz0` that open every stream.
pub open spec fn yaz0_magic() -> Seq<u8> {
    seq![0x59u8, 0x61u8, 0x7au8, 0x30u8]
}

/// What reading a Yaz0 header at `offset` gives: the decompressed size, or the
/// error. The magic is checked before the rest of the sixteen bytes is read.
pub open spec fn header_outcome(data: Seq<u8>, offset: int) -> Result<u32, Error> {
    if !within(data, offset, 4) {
        Err(Error::OutOfBounds)
    } else if data.subrange(offset, offset + 4) != yaz0_magic() {
        Err(Error::InvalidMagic)
    } else if !within(data, offset, 16) {
        Err(Error::OutOfBounds)
    } else {
        Ok(be_u32(data, offset + 4))
    }
}

/// `out` followed by `n` bytes copied from `dist` bytes back. The copy may run
/// into the bytes it appends, so a distance shorter than `n` repeats a pattern.
pub open spec fn copy_back(out: Seq<u8>, dist: int, n: int) -> Seq<u8> {
    out + Seq::new(n as nat, |i: int| out[out.len() - dist + i % dist])
}

/// Decodes chunks until the output holds at least `size` bytes. The decoder is at
/// input `offset`; the group header `group` describes `ops_left` more chunks, its
/// top bit the next one (set: one literal byte; clear: a back-reference of two
/// bytes, or three when the length nibble is zero). With no chunks left, the next
/// input byte is a new group header describing eight chunks.
pub open spec fn decode_from(
    data: Seq<u8>,
    size: int,
    offset: int,
    ops_left: int,
    group: u8,
    out: Seq<u8>,
) -> Result<Seq<u8>, Error>
    decreases (if out.len() < size { size - out.len() } else { 0 }),
{
    if out.len() >= size {
        Ok(out)
    } else if ops_left == 0 && !within(data, offset, 1) {
        Err(Error::OutOfBounds)
    } else {
        let (offset, ops_left, group) = if ops_left == 0 {
            (offset + 1, 8int, data[offset])
        } else {
            (offset, ops_left, group)
        };
        if group & 0x80 != 0 {
            if !within(data, offset, 1) {
                Err(Error::OutOfBounds)
            } else {
                decode_from(data, size, offset + 1, ops_left - 1, group << 1, out.push(data[offset]))
            }
        } else if !within(data, offset, 2) {
            Err(Error::OutOfBounds)
        } else {
            let b1 = data[offset];
            let dist = (b1 & 0xf) as int * 0x100 + data[offset + 1] as int + 1;
            if dist > out.len() {
                Err(Error::InvalidDistance)
            } else if b1 >> 4 == 0 {
                if !within(data, offset + 2, 1) {
                    Err(Error::OutOfBounds)
                } else {
                    decode_from(data, size, offset + 3, ops_left - 1, group << 1,
                        copy_back(out, dist, data[offset + 2] as int + 0x12))
                }
            } else {
                decode_from(data, size, offset + 2, ops_left - 1, group << 1,
                    copy_back(out, dist, (b1 >> 4) as int + 2))
            }
        }
    }
}

/// Decoding only appends: a successful result starts with the output decoded so
/// far, holds at least `size` bytes, and, when more had to be decoded, overshoots
/// `size` by less than one chunk (a chunk yields at most 0x111 bytes).
pub proof fn lemma_decode_bounds(
    data: Seq<u8>,
    size: int,
    offset: int,
    ops_left: int,
    group: u8,
    out: Seq<u8>,
)
    ensures
        decode_from(data, size, offset, ops_left, group, out) matches Ok(res) ==> {
            &&& res.len() >= size
            &&& res.subrange(0, out.len() as int) == out
            &&& (out.len() < size ==> res.len() < size + 0x111)
            &&& (out.len() >= size ==> res == out)
        },
    decreases (if out.len() < size { size - out.len() } else { 0 }),
{
    if out.len() >= size {
    } else if ops_left == 0 && !within(data, offset, 1) {
    } else {
        let (offset, ops_left, group) = if ops_left == 0 {
            (offset + 1, 8int, data[offset])
        } else {
            (offset, ops_left, group)
        };
        if group & 0x80 != 0 {
            if within(data, offset, 1) {
                let next = out.push(data[offset]);
                lemma_decode_bounds(data, size, offset + 1, ops_left - 1, group << 1, next);
                if let Ok(res) = decode_from(data, size, offset + 1, ops_left - 1, group << 1, next) {
                    assert(res.subrange(0, out.len() as int) =~= next.subrange(0, out.len() as int));
                }
            }
        } else if within(data, offset, 2) {
            let b1 = data[offset];
            let dist = (b1 & 0xf) as int * 0x100 + data[offset + 1] as int + 1;
            if dist <= out.len() {
                let (next_offset, n) = if b1 >> 4 == 0 {
                    (offset + 3, data[offset + 2] as int + 0x12)
                } else {
                    (offset + 2, (b1 >> 4) as int + 2)
                };
                assert(b1 >> 4 == 0 ==> 0x12 <= n <= 0x111);
                assert(b1 >> 4 <= 15u8) by (bit_vector);
                if b1 >> 4 != 0 || within(data, offset + 2, 1) {
                    let next = copy_back(out, dist, n);
                    lemma_decode_bounds(data, size, next_offset, ops_left - 1, group << 1, next);
                    if let Ok(res) = decode_from(data, size, next_offset, ops_left - 1, group << 1, next) {
                        assert(res.subrange(0, out.len() as int) =~= next.subrange(0, out.len() as int));
                        assert(next.subrange(0, out.len() as int) =~= out);
                    }
                }
            }
        }
    }
}

/// A Yaz0 header is accepted exactly when the data starts with the letters
/// `Yaz0` and holds sixteen bytes; the decompressed size is then the big-endian
/// word at 4.
pub proof fn lemma_header_layout(data: Seq<u8>)
    ensures
        (header_outcome(data, 0) is Ok) == (data.len() >= 16 && data[0] == 0x59 && data[1] == 0x61
            && data[2] == 0x7a && data[3] == 0x30),
        header_outcome(data, 0) matches Ok(size) ==> size as int == data[4] as int * 0x100_0000 + data[5] as int
            * 0x1_0000 + data[6] as int * 0x100 + data[7] as int,
{
    if data.len() >= 4 {
        let m = data.subrange(0, 4);
        if m == yaz0_magic() {
            assert(m[0] == 0x59 && m[1] == 0x61 && m[2] == 0x7a && m[3] == 0x30);
        } else if data[0] == 0x59 && data[1] == 0x61 && data[2] == 0x7a && data[3] == 0x30 {
            assert(m =~= yaz0_magic());
        }
    }
}

/// A literal chunk (a set bit in the group header) appends the next input byte
/// to the output as it is.
pub proof fn lemma_literal_copies(
    data: Seq<u8>,
    size: int,
    offset: int,
    ops_left: int,
    group: u8,
    out: Seq<u8>,
)
    requires
        out.len() < size,
        0 < ops_left,
        group >= 0x80,
        within(data, offset, 1),
    ensures
        decode_from(data, size, offset, ops_left, group, out) matches Ok(res) ==> res.len() > out.len()
            && res[out.len() as int] == data[offset] && res.subrange(0, out.len() as int) == out,
{
    assert(group & 0x80 != 0) by (bit_vector)
        requires
            group >= 0x80,
    ;
    let next = out.push(data[offset]);
    lemma_decode_bounds(data, size, offset + 1, ops_left - 1, group << 1, next);
    if let Ok(res) = decode_from(data, size, offset, ops_left, group, out) {
        assert(res.len() >= next.len());
        assert(res[out.len() as int] == res.subrange(0, next.len() as int)[out.len() as int]);
        assert(res.subrange(0, out.len() as int) =~= next.subrange(0, out.len() as int));
    }
}

/// A back-reference chunk copies from `((b1 & 0xF) << 8 | b2) + 1` bytes back,
/// where `b1` and `b2` are its first two bytes: the low nibble of `b1` and all of
/// `b2` make the distance, the high nibble of `b1` the length less two (or, when
/// it is zero, a third byte the length less 0x12). Decoding it succeeds only when
/// the distance reaches no further back than the output so far, and then every
/// copied byte equals the byte that distance before it.
pub proof fn lemma_back_reference_copies(
    data: Seq<u8>,
    size: int,
    offset: int,
    ops_left: int,
    group: u8,
    out: Seq<u8>,
)
    requires
        out.len() < size,
        0 < ops_left,
        group < 0x80,
        within(data, offset, 2),
    ensures
        decode_from(data, size, offset, ops_left, group, out) matches Ok(res) ==> {
            let b1 = data[offset] as int;
            let b2 = data[offset + 1] as int;
            let dist = (b1 % 16) * 256 + b2 + 1;
            let n = if b1 / 16 == 0 { data[offset + 2] as int + 18 } else { b1 / 16 + 2 };
            &&& dist <= out.len()
            &&& res.len() >= out.len() + n
            &&& forall|k: int| 0 <= k < n ==> #[trigger] res[out.len() + k] == res[out.len() + k - dist]
        },
{
    let b1 = data[offset];
    assert(group & 0x80 == 0) by (bit_vector)
        requires
            group < 0x80,
    ;
    assert((b1 & 0xf) as int == b1 % 16 && (b1 >> 4) as int == b1 / 16) by (bit_vector);
    let dist = (b1 % 16) as int * 256 + data[offset + 1] as int + 1;
    if let Ok(res) = decode_from(data, size, offset, ops_left, group, out) {
        let (next_offset, n) = if b1 / 16 == 0 {
            (offset + 3, data[offset + 2] as int + 18)
        } else {
            (offset + 2, (b1 / 16) as int + 2)
        };
        let next = copy_back(out, dist, n);
        assert(decode_from(data, size, offset, ops_left, group, out) == decode_from(
            data,
            size,
            next_offset,
            ops_left - 1,
            group << 1,
            next,
        ));
        lemma_decode_bounds(data, size, next_offset, ops_left - 1, group << 1, next);
        assert(res.len() >= next.len());
        assert(res.subrange(0, next.len() as int) == next);
        assert forall|k: int| 0 <= k < n implies #[trigger] res[out.len() + k] == res[out.len() + k - dist] by {
            assert(res[out.len() + k] == res.subrange(0, next.len() as int)[out.len() + k]);
            assert(res[out.len() + k - dist] == res.subrange(0, next.len() as int)[out.len() + k - dist]);
            assert(next[out.len() + k] == out[out.len() - dist + k % dist]);
            if k < dist {
                assert(k % dist == k) by (nonlinear_arith)
                    requires
                        0 <= k < dist,
                ;
                assert(next[out.len() + k - dist] == out[out.len() + k - dist]);
            } else {
                assert((k - dist) % dist == k % dist) by (nonlinear_arith)
                    requires
                        0 < dist <= k,
                ;
                assert(next[out.len() + k - dist] == next[out.len() + (k - dist)]);
            }
        }
    }
}

/// What decompressing a whole Yaz0 stream gives: the decoded bytes, or the error.
pub open spec fn decompress_outcome(data: Seq<u8>) -> Result<Seq<u8>, Error> {
    match header_outcome(data, 0) {
        Err(e) => Err(e),
        Ok(size) => decode_from(data, size as int, 0x10, 0, 0, Seq::empty()),
    }
}

/// The sixteen-byte header of a Yaz0 stream.
pub struct Header {
    pub magic: [u8; 4],
    pub decompressed_size: u32,
    pub _reserved: [u32; 2],
}

impl Header {
    /// The fields of `self` are those stored at `offset` of `data`.
    pub open spec fn read_from(self, data: Seq<u8>, offset: int) -> bool {
        &&& self.magic@ == data.subrange(offset, offset + 4)
        &&& self.decompressed_size == be_u32(data, offset + 4)
        &&& self._reserved@ == seq![be_u32(data, offset + 8), be_u32(data, offset + 12)]
    }

    /// Reads the header at `offset`.
    pub fn new(data: &[u8], offset: usize) -> (r: Result<Self, Error>)
        ensures
            match header_outcome(data@, offset as int) {
                Ok(_) => r matches Ok(h) && h.read_from(data@, offset as int),
                Err(e) => r == Err::<Header, Error>(e),
            },
    {
        let magic: [u8; 4] = read(data, offset)?;
        if !(magic[0] == 0x59 && magic[1] == 0x61 && magic[2] == 0x7a && magic[3] == 0x30) {
            assert(data@.subrange(offset as int, offset + 4) != yaz0_magic()) by {
                if data@.subrange(offset as int, offset + 4) == yaz0_magic() {
                    assert(magic@[0] == yaz0_magic()[0]);
                    assert(magic@[1] == yaz0_magic()[1]);
                    assert(magic@[2] == yaz0_magic()[2]);
                    assert(magic@[3] == yaz0_magic()[3]);
                }
            }
            return Err(Error::InvalidMagic);
        }
        assert(data@.subrange(offset as int, offset + 4) =~= yaz0_magic());
        if !fits(data, offset, 16) {
            return Err(Error::OutOfBounds);
        }
        let decompressed_size = get_u32(data, offset + 4);
        let r0 = get_u32(data, offset + 8);
        let r1 = get_u32(data, offset + 12);
        let _reserved = [r0, r1];
        assert(_reserved@ =~= seq![r0, r1]);
        Ok(Header { magic, decompressed_size, _reserved })
    }
}

/// A decompressed Yaz0 stream.
pub struct Yaz0 {
    pub header: Header,
    pub decompressed_data: Vec<u8>,
}

impl Yaz0 {
    /// Decompresses the Yaz0 stream `data`.
    pub fn decompress(data: &[u8]) -> (r: Result<Self, Error>)
        ensures
            match decompress_outcome(data@) {
                Ok(out) => r matches Ok(y) && y.header.read_from(data@, 0)
                    && y.decompressed_data@ == out,
                Err(e) => r == Err::<Yaz0, Error>(e),
            },
            r matches Ok(y) ==> {
                &&& y.header.decompressed_size <= y.decompressed_data@.len()
                &&& y.decompressed_data@.len() <= y.header.decompressed_size + 0x110
            },
    {
        let header = Header::new(data, 0)?;
        proof {
            lemma_decode_bounds(data@, header.decompressed_size as int, 0x10, 0, 0, Seq::empty());
        }
        let ghost size = header.decompressed_size as int;
        let ghost total = decode_from(data@, size, 0x10, 0, 0, Seq::empty());
        let mut offset: usize = 0x10;
        let dest_end = header.decompressed_size as usize;
        let mut dest: Vec<u8> = Vec::with_capacity(dest_end);
        let mut ops_left: u8 = 0;
        let mut group_header: u8 = 0;
        assert(dest@ =~= Seq::<u8>::empty());
        while dest.len() < dest_end
            invariant
                dest_end == size,
                offset <= data.len(),
                ops_left <= 8,
                decode_from(data@, size, offset as int, ops_left as int, group_header, dest@) == total,
                header.read_from(data@, 0),
                decompress_outcome(data@) == total,
            decreases (if dest@.len() < dest_end { dest_end - dest@.len() } else { 0 }),
        {
            if ops_left == 0 {
                if offset >= data.len() {
                    return Err(Error::OutOfBounds);
                }
                group_header = data[offset];
                offset = offset + 1;
                ops_left = 8;
            }
            if (group_header & 0x80) != 0 {
                if offset >= data.len() {
                    return Err(Error::OutOfBounds);
                }
                dest.push(data[offset]);
                offset = offset + 1;
            } else {
                if !fits(data, offset, 2) {
                    return Err(Error::OutOfBounds);
                }
                let b1 = data[offset];
                let b2 = data[offset + 1];
                offset = offset + 2;
                let distance = ((b1 & 0xf) as usize) * 0x100 + (b2 as usize) + 1;
                if distance > dest.len() {
                    return Err(Error::InvalidDistance);
                }
                let n: usize = if (b1 >> 4) == 0 {
                    if offset >= data.len() {
                        return Err(Error::OutOfBounds);
                    }
                    let third = data[offset];
                    offset = offset + 1;
                    (third as usize) + 0x12
                } else {
                    ((b1 >> 4) as usize) + 2
                };
                let ghost before = dest@;
                let start = dest.len();
                let mut copy_src = start - distance;
                let mut k: usize = 0;
                assert(dest@ =~= copy_back(before, distance as int, 0));
                while k < n
                    invariant
                        start == before.len(),
                        1 <= distance <= start,
                        copy_src == start - distance + k,
                        k <= n,
                        dest@ == copy_back(before, distance as int, k as int),
                    decreases n - k,
                {
                    proof {
                        let d = distance as int;
                        let ki = k as int;
                        if ki < d {
                            vstd::arithmetic::div_mod::lemma_small_mod(ki as nat, d as nat);
                        } else {
                            vstd::arithmetic::div_mod::lemma_mod_add_multiples_vanish(ki - d, d);
                        }
                    }
                    let b = dest[copy_src];
                    assert(copy_src < dest.len());
                    copy_src = copy_src + 1;
                    dest.push(b);
                    k = k + 1;
                    assert(dest@ =~= copy_back(before, distance as int, k as int));
                }
            }
            group_header = group_header << 1;
            ops_left = ops_left - 1;
        }
        Ok(Yaz0 { header, decompressed_data: dest })
    }
}

} // verus!
