//! Models (`MDL0` subfiles): the model header, and the groups of vertices and
//! normals that an index group of the model lists.
pub mod normals;
pub mod vertices;

use vstd::prelude::*;
use crate::binary::{within, be_u32, vec3_at, varstring_outcome, get_u8, get_u32, get_vec3, read, FromBytes, Vec3, VariableString};
use crate::brres::RawBrres;
use crate::error::Error;

verus! {

/// A model. Only its header is read so far.
pub struct MDL0 {
    pub header: Header,
}

/// The header of a model. Its first four bytes give its length, which must
/// cover the 0x40 bytes of the fields below.
pub struct Header {
    pub length: u32,
    pub file_header_offset: i32,
    pub scale_mode: u32,
    pub tex_mode: u32,
    pub vertex_count: u32,
    pub face_count: u32,
    pub matrices_count: u32,
    pub normalize_matrices: bool,
    pub need_tex_matrices: bool,
    pub bounding_volume: bool,
    pub matrices_offset: usize,
    pub bounding_volume_min: Vec3,
    pub bounding_volume_max: Vec3,
}

/// Whether a model header can be read at `offset`: its length lies inside the
/// data, the bytes it covers do too, and they hold all the fields.
pub open spec fn mdl0_header_ok(data: Seq<u8>, offset: int) -> bool {
    &&& within(data, offset, 4)
    &&& within(data, offset, be_u32(data, offset) as int)
    &&& be_u32(data, offset) >= 0x40
}

impl Header {
    /// Whether `self` holds the fields stored at `offset` of `data`.
    pub open spec fn read_from(self, data: Seq<u8>, offset: int) -> bool {
        &&& self.length == be_u32(data, offset)
        &&& self.file_header_offset == be_u32(data, offset + 4) as i32
        &&& self.scale_mode == be_u32(data, offset + 8)
        &&& self.tex_mode == be_u32(data, offset + 0xc)
        &&& self.vertex_count == be_u32(data, offset + 0x10)
        &&& self.face_count == be_u32(data, offset + 0x14)
        &&& self.matrices_count == be_u32(data, offset + 0x1c)
        &&& self.normalize_matrices == (data[offset + 0x20] != 0)
        &&& self.need_tex_matrices == (data[offset + 0x21] != 0)
        &&& self.bounding_volume == (data[offset + 0x22] != 0)
        &&& self.matrices_offset == be_u32(data, offset + 0x24)
        &&& self.bounding_volume_min == vec3_at(data, offset + 0x28)
        &&& self.bounding_volume_max == vec3_at(data, offset + 0x34)
    }

    /// Reads the model header at `offset`.
    pub fn new(brres: RawBrres, offset: usize) -> (r: Result<Self, Error>)
        ensures
            mdl0_header_ok(brres.bytes(), offset as int) ==> (r matches Ok(h) && h.read_from(
                brres.bytes(),
                offset as int,
            )),
            !mdl0_header_ok(brres.bytes(), offset as int) ==> r == Err::<Header, Error>(Error::OutOfBounds),
    {
        let length: u32 = read(brres.data(), offset)?;
        let data = match brres.slice(offset, length as usize) {
            Some(d) => d,
            None => {
                return Err(Error::OutOfBounds);
            },
        };
        if length < 0x40 {
            return Err(Error::OutOfBounds);
        }
        let ghost bytes = brres.bytes();
        assert(be_u32(data@, 4) == be_u32(bytes, offset + 4));
        assert(be_u32(data@, 8) == be_u32(bytes, offset + 8));
        assert(be_u32(data@, 0xc) == be_u32(bytes, offset + 0xc));
        assert(be_u32(data@, 0x10) == be_u32(bytes, offset + 0x10));
        assert(be_u32(data@, 0x14) == be_u32(bytes, offset + 0x14));
        assert(be_u32(data@, 0x1c) == be_u32(bytes, offset + 0x1c));
        assert(be_u32(data@, 0x24) == be_u32(bytes, offset + 0x24));
        assert(vec3_at(data@, 0x28) == vec3_at(bytes, offset + 0x28));
        assert(vec3_at(data@, 0x34) == vec3_at(bytes, offset + 0x34));
        Ok(Header {
            length,
            file_header_offset: get_u32(data, 0x04) as i32,
            scale_mode: get_u32(data, 0x08),
            tex_mode: get_u32(data, 0x0C),
            vertex_count: get_u32(data, 0x10),
            face_count: get_u32(data, 0x14),
            matrices_count: get_u32(data, 0x1C),
            normalize_matrices: get_u8(data, 0x20) != 0,
            need_tex_matrices: get_u8(data, 0x21) != 0,
            bounding_volume: get_u8(data, 0x22) != 0,
            matrices_offset: get_u32(data, 0x24) as usize,
            bounding_volume_min: get_vec3(data, 0x28),
            bounding_volume_max: get_vec3(data, 0x34),
        })
    }
}

impl MDL0 {
    /// Reads the model whose subfile starts at `offset` and whose subfile header
    /// takes `header_length` bytes: the model header follows it.
    pub fn new(brres: RawBrres, offset: usize, header_length: usize) -> (r: Result<Self, Error>)
        ensures
            mdl0_header_ok(brres.bytes(), offset + header_length) ==> (r matches Ok(m)
                && m.header.read_from(brres.bytes(), offset + header_length)),
            !mdl0_header_ok(brres.bytes(), offset + header_length) ==> r == Err::<MDL0, Error>(
                Error::OutOfBounds,
            ),
    {
        let at = match offset.checked_add(header_length) {
            Some(a) => a,
            None => {
                proof {
                    brres.lemma_len_fits();
                }
                return Err(Error::OutOfBounds);
            },
        };
        let header = Header::new(brres, at)?;
        Ok(MDL0 { header })
    }
}

/// Reads the length-prefixed name at `offset` plus the signed `rel`; a
/// position before the start of the data reads as out of bounds.
pub(crate) fn name_at_rel(brres: RawBrres, offset: usize, rel: i32) -> (r: Result<VariableString, Error>)
    ensures
        VariableString::read_result(brres.bytes(), offset + rel, r),
{
    proof {
        brres.lemma_len_fits();
    }
    let pos = if rel >= 0 {
        match offset.checked_add(rel as usize) {
            Some(p) => p,
            None => {
                return Err(Error::OutOfBounds);
            },
        }
    } else {
        let back = (0i64 - rel as i64) as usize;
        if back > offset {
            return Err(Error::OutOfBounds);
        }
        offset - back
    };
    read(brres.data(), pos)
}

} // verus!
