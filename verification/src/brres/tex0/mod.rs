//! Textures (`TEX0` subfiles).
use vstd::prelude::*;
use crate::binary::{within, be_u16, be_u32, get_u16, get_u32};
use crate::brres::RawBrres;
use crate::error::Error;

verus! {

/// A texture: its header, and its image data (not read yet).
pub struct TEX0 {
    pub header: Header,
    pub data: Vec<u8>,
}

/// The header of a texture. The two mipmap levels are single-precision numbers,
/// kept as the bit patterns of their encoding.
pub struct Header {
    pub flag: u32,
    pub width: u16,
    pub height: u16,
    pub format: u32,
    pub mipmap_num: u32,
    pub min_mipmap: u32,
    pub max_mipmap: u32,
}

impl Header {
    /// Whether `self` holds the fields stored at `offset` of `data`.
    pub open spec fn read_from(self, data: Seq<u8>, offset: int) -> bool {
        &&& self.flag == be_u32(data, offset)
        &&& self.width == be_u16(data, offset + 4)
        &&& self.height == be_u16(data, offset + 6)
        &&& self.format == be_u32(data, offset + 8)
        &&& self.mipmap_num == be_u32(data, offset + 0xc)
        &&& self.min_mipmap == be_u32(data, offset + 0x10)
        &&& self.max_mipmap == be_u32(data, offset + 0x14)
    }

    /// Reads the texture header at `offset`: it takes 0x1C bytes.
    pub fn new(brres: RawBrres, offset: usize) -> (r: Result<Self, Error>)
        ensures
            within(brres.bytes(), offset as int, 0x1c) ==> (r matches Ok(h) && h.read_from(
                brres.bytes(),
                offset as int,
            )),
            !within(brres.bytes(), offset as int, 0x1c) ==> r == Err::<Header, Error>(Error::OutOfBounds),
    {
        let data = match brres.slice(offset, 0x1c) {
            Some(d) => d,
            None => {
                return Err(Error::OutOfBounds);
            },
        };
        let ghost bytes = brres.bytes();
        assert(be_u32(data@, 0) == be_u32(bytes, offset as int));
        assert(be_u16(data@, 4) == be_u16(bytes, offset + 4));
        assert(be_u16(data@, 6) == be_u16(bytes, offset + 6));
        assert(be_u32(data@, 8) == be_u32(bytes, offset + 8));
        assert(be_u32(data@, 0xc) == be_u32(bytes, offset + 0xc));
        assert(be_u32(data@, 0x10) == be_u32(bytes, offset + 0x10));
        assert(be_u32(data@, 0x14) == be_u32(bytes, offset + 0x14));
        Ok(Header {
            flag: get_u32(data, 0x0),
            width: get_u16(data, 0x4),
            height: get_u16(data, 0x6),
            format: get_u32(data, 0x8),
            mipmap_num: get_u32(data, 0xC),
            min_mipmap: get_u32(data, 0x10),
            max_mipmap: get_u32(data, 0x14),
        })
    }
}

/// A texture header stores, big-endian, its flags at 0, its width and height as
/// half-words at 4 and 6, its format at 8, its mipmap count at 0x0C and its two
/// mipmap levels at 0x10 and 0x14.
pub proof fn lemma_tex0_header_layout(h: Header, data: Seq<u8>, offset: int)
    requires
        h.read_from(data, offset),
    ensures
        h.flag == be_u32(data, offset),
        h.width == be_u16(data, offset + 4),
        h.height == be_u16(data, offset + 6),
        h.format == be_u32(data, offset + 8),
        h.mipmap_num == be_u32(data, offset + 0x0C),
        h.min_mipmap == be_u32(data, offset + 0x10),
        h.max_mipmap == be_u32(data, offset + 0x14),
{
}

impl TEX0 {
    /// Reads the texture whose subfile starts at `offset` and whose subfile
    /// header takes `header_length` bytes: the texture header follows it.
    pub fn new(brres: RawBrres, offset: usize, header_length: usize) -> (r: Result<Self, Error>)
        ensures
            within(brres.bytes(), offset + header_length, 0x1c) ==> (r matches Ok(t)
                && t.header.read_from(brres.bytes(), offset + header_length) && t.data@.len() == 0),
            !within(brres.bytes(), offset + header_length, 0x1c) ==> r == Err::<TEX0, Error>(
                Error::OutOfBounds,
            ),
    {
        let at = match offset.checked_add(header_length) {
            Some(a) => a,
            None => {
                proof {
                    brres.lemma_len_fits();
                }
                return Err(Error::OutOfBounds);
            },
        };
        let header = Header::new(brres, at)?;
        Ok(TEX0 { header, data: Vec::new() })
    }
}

} // verus!
