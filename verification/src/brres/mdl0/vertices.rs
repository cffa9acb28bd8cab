//! The groups of vertices of a model.
use vstd::prelude::*;
use crate::binary::{within, be_u16, be_u32, vec3_at, varstring_outcome, get_u8, get_u16, get_u32, get_vec3, Vec3, VariableString};
use crate::brres::RawBrres;
use crate::brres::index_group::FromIndexGroup;
use crate::brres::mdl0::name_at_rel;
use crate::error::Error;

verus! {

/// The groups of vertices of a model, one slot per index of its index group
/// (index `i` in slot `i - 1`).
pub struct Vertices {
    pub vertices: Vec<Option<Header>>,
    pub num_vertex_groups: u32,
}

impl Vertices {
    /// Room for `num_vertex_groups` groups, none read yet.
    pub fn new(num_vertex_groups: u32) -> (r: Self)
        ensures
            r.num_vertex_groups == num_vertex_groups,
            r.vertices@.len() == num_vertex_groups,
            forall|i: int| 0 <= i < num_vertex_groups ==> #[trigger] r.vertices@[i] is None,
    {
        let mut vertices: Vec<Option<Header>> = Vec::new();
        let mut i: u32 = 0;
        while i < num_vertex_groups
            invariant
                i <= num_vertex_groups,
                vertices@.len() == i,
                forall|j: int| 0 <= j < i ==> #[trigger] vertices@[j] is None,
            decreases num_vertex_groups - i,
        {
            vertices.push(None);
            i = i + 1;
        }
        Vertices { vertices, num_vertex_groups }
    }
}

/// The header of a group of vertices. Its name lies at its own offset plus the
/// signed name offset; the group is three-dimensional when the word at 0x14 is 1.
pub struct Header {
    pub length: u32,
    pub mdl0_offset: i32,
    pub data_offset: i32,
    pub name_offset: i32,
    pub name: VariableString,
    pub index: u32,
    pub is_3d: bool,
    pub format: u32,
    pub divisor: u8,
    pub stride: u8,
    pub vertex_count: u16,
    pub bounding_volume_min: Vec3,
    pub bounding_volume_max: Vec3,
}

/// Whether reading the header of a group of vertices at `offset` fails, and with
/// which error: its 0x38 bytes must lie inside the data, then its name is read.
pub open spec fn vertices_header_outcome(data: Seq<u8>, offset: int) -> Result<(), Error> {
    if !within(data, offset, 0x38) {
        Err(Error::OutOfBounds)
    } else {
        match varstring_outcome(data, offset + be_u32(data, offset + 0xc) as i32) {
            Err(e) => Err(e),
            Ok(_) => Ok(()),
        }
    }
}

impl Header {
    /// Whether `self` holds the fields stored at `offset` of `data`.
    pub open spec fn read_from(self, data: Seq<u8>, offset: int) -> bool {
        let name_at = offset + self.name_offset;
        &&& self.length == be_u32(data, offset)
        &&& self.mdl0_offset == be_u32(data, offset + 4) as i32
        &&& self.data_offset == be_u32(data, offset + 8) as i32
        &&& self.name_offset == be_u32(data, offset + 0xc) as i32
        &&& varstring_outcome(data, name_at) == Ok::<Seq<char>, Error>(self.name.string@)
        &&& self.name.length == be_u32(data, name_at - 4)
        &&& self.index == be_u32(data, offset + 0x10)
        &&& self.is_3d == (be_u32(data, offset + 0x14) == 1)
        &&& self.format == be_u32(data, offset + 0x18)
        &&& self.divisor == data[offset + 0x1c]
        &&& self.stride == data[offset + 0x1d]
        &&& self.vertex_count == be_u16(data, offset + 0x1e)
        &&& self.bounding_volume_min == vec3_at(data, offset + 0x20)
        &&& self.bounding_volume_max == vec3_at(data, offset + 0x2c)
    }

    /// Reads the header of the group of vertices at `offset`.
    pub fn new(brres: RawBrres, offset: usize) -> (r: Result<Self, Error>)
        ensures
            match vertices_header_outcome(brres.bytes(), offset as int) {
                Ok(()) => r matches Ok(h) && h.read_from(brres.bytes(), offset as int),
                Err(e) => r == Err::<Header, Error>(e),
            },
    {
        let data = match brres.slice(offset, 0x38) {
            Some(d) => d,
            None => {
                return Err(Error::OutOfBounds);
            },
        };
        let ghost bytes = brres.bytes();
        assert(be_u32(data@, 0) == be_u32(bytes, offset as int));
        assert(be_u32(data@, 4) == be_u32(bytes, offset + 4));
        assert(be_u32(data@, 8) == be_u32(bytes, offset + 8));
        assert(be_u32(data@, 0xc) == be_u32(bytes, offset + 0xc));
        assert(be_u32(data@, 0x10) == be_u32(bytes, offset + 0x10));
        assert(be_u32(data@, 0x14) == be_u32(bytes, offset + 0x14));
        assert(be_u32(data@, 0x18) == be_u32(bytes, offset + 0x18));
        assert(be_u16(data@, 0x1e) == be_u16(bytes, offset + 0x1e));
        assert(vec3_at(data@, 0x20) == vec3_at(bytes, offset + 0x20));
        assert(vec3_at(data@, 0x2c) == vec3_at(bytes, offset + 0x2c));
        let name_offset = get_u32(data, 0xC) as i32;
        let name = name_at_rel(brres, offset, name_offset)?;
        Ok(Header {
            length: get_u32(data, 0x0),
            mdl0_offset: get_u32(data, 0x4) as i32,
            data_offset: get_u32(data, 0x8) as i32,
            name_offset,
            name,
            index: get_u32(data, 0x10),
            is_3d: get_u32(data, 0x14) == 0x1,
            format: get_u32(data, 0x18),
            divisor: get_u8(data, 0x1C),
            stride: get_u8(data, 0x1D),
            vertex_count: get_u16(data, 0x1E),
            bounding_volume_min: get_vec3(data, 0x20),
            bounding_volume_max: get_vec3(data, 0x2C),
        })
    }
}

impl FromIndexGroup for Vertices {
    /// Reading the group header at `offset` and keeping it in slot `index - 1`;
    /// an index of 0, or past the slots, is refused and nothing changes.
    open spec fn stores(prev: Self, next: Self, data: Seq<u8>, offset: u32, index: u16, r: Result<(), Error>) -> bool {
        match vertices_header_outcome(data, offset as int) {
            Err(e) => r == Err::<(), Error>(e) && next == prev,
            Ok(()) => if index == 0 || index > prev.vertices@.len() {
                r == Err::<(), Error>(Error::InvalidEntryIndex) && next == prev
            } else {
                &&& r is Ok
                &&& next.num_vertex_groups == prev.num_vertex_groups
                &&& next.vertices@.len() == prev.vertices@.len()
                &&& forall|k: int| 0 <= k < prev.vertices@.len() && k != index - 1 ==> #[trigger] next.vertices@[k] == prev.vertices@[k]
                &&& next.vertices@[index - 1] matches Some(h) && h.read_from(data, offset as int)
            },
        }
    }

    open spec fn spec_is_subfile() -> bool {
        true
    }

    fn set_data(&mut self, brres: RawBrres, offset: u32, index: u16) -> (r: Result<(), Error>) {
        let header = Header::new(brres, offset as usize)?;
        if index == 0 || index as usize > self.vertices.len() {
            return Err(Error::InvalidEntryIndex);
        }
        self.vertices.set(index as usize - 1, Some(header));
        Ok(())
    }

    fn is_subfile() -> (r: bool) {
        true
    }
}

} // verus!
