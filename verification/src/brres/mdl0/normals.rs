//! The groups of normals of a model.
use vstd::prelude::*;
use crate::binary::{within, be_u16, be_u32, varstring_outcome, get_u8, get_u16, get_u32, VariableString};
use crate::brres::RawBrres;
use crate::brres::index_group::FromIndexGroup;
use crate::brres::mdl0::name_at_rel;
use crate::error::Error;

verus! {

/// The groups of normals of a model, one slot per index of its index group
/// (index `i` in slot `i - 1`).
pub struct Normals {
    pub normals: Vec<Option<Header>>,
    pub num_vertex_groups: u32,
}

impl Normals {
    /// Room for `num_vertex_groups` groups, none read yet.
    pub fn new(num_vertex_groups: u32) -> (r: Self)
        ensures
            r.num_vertex_groups == num_vertex_groups,
            r.normals@.len() == num_vertex_groups,
            forall|i: int| 0 <= i < num_vertex_groups ==> #[trigger] r.normals@[i] is None,
    {
        let mut normals: Vec<Option<Header>> = Vec::new();
        let mut i: u32 = 0;
        while i < num_vertex_groups
            invariant
                i <= num_vertex_groups,
                normals@.len() == i,
                forall|j: int| 0 <= j < i ==> #[trigger] normals@[j] is None,
            decreases num_vertex_groups - i,
        {
            normals.push(None);
            i = i + 1;
        }
        Normals { normals, num_vertex_groups }
    }
}

/// The header of a group of normals. Its name lies at its own offset plus the
/// signed name offset.
pub struct Header {
    pub length: u32,
    pub mdl0_offset: i32,
    pub data_offset: i32,
    pub name_offset: i32,
    pub name: VariableString,
    pub index: u32,
    pub component_count: u32,
    pub format: u32,
    pub divisor: u8,
    pub stride: u8,
    pub normal_count: u16,
}

/// Whether reading the header of a group of normals at `offset` fails, and with
/// which error: its 0x20 bytes must lie inside the data, then its name is read.
pub open spec fn normals_header_outcome(data: Seq<u8>, offset: int) -> Result<(), Error> {
    if !within(data, offset, 0x20) {
        Err(Error::OutOfBounds)
    } else {
        match varstring_outcome(data, offset + be_u32(data, offset + 0xc) as i32) {
            Err(e) => Err(e),
            Ok(_) => Ok(()),
        }
    }
}

impl Header {
    /// Whether `self` holds the fields stored at `offset` of `data`.
    pub open spec fn read_from(self, data: Seq<u8>, offset: int) -> bool {
        let name_at = offset + self.name_offset;
        &&& self.length == be_u32(data, offset)
        &&& self.mdl0_offset == be_u32(data, offset + 4) as i32
        &&& self.data_offset == be_u32(data, offset + 8) as i32
        &&& self.name_offset == be_u32(data, offset + 0xc) as i32
        &&& varstring_outcome(data, name_at) == Ok::<Seq<char>, Error>(self.name.string@)
        &&& self.name.length == be_u32(data, name_at - 4)
        &&& self.index == be_u32(data, offset + 0x10)
        &&& self.component_count == be_u32(data, offset + 0x14)
        &&& self.format == be_u32(data, offset + 0x18)
        &&& self.divisor == data[offset + 0x1c]
        &&& self.stride == data[offset + 0x1d]
        &&& self.normal_count == be_u16(data, offset + 0x1e)
    }

    /// Reads the header of the group of normals at `offset`.
    pub fn new(brres: RawBrres, offset: usize) -> (r: Result<Self, Error>)
        ensures
            match normals_header_outcome(brres.bytes(), offset as int) {
                Ok(()) => r matches Ok(h) && h.read_from(brres.bytes(), offset as int),
                Err(e) => r == Err::<Header, Error>(e),
            },
    {
        let data = match brres.slice(offset, 0x20) {
            Some(d) => d,
            None => {
                return Err(Error::OutOfBounds);
            },
        };
        let ghost bytes = brres.bytes();
        assert(be_u32(data@, 0) == be_u32(bytes, offset as int));
        assert(be_u32(data@, 4) == be_u32(bytes, offset + 4));
        assert(be_u32(data@, 8) == be_u32(bytes, offset + 8));
        assert(be_u32(data@, 0xc) == be_u32(bytes, offset + 0xc));
        assert(be_u32(data@, 0x10) == be_u32(bytes, offset + 0x10));
        assert(be_u32(data@, 0x14) == be_u32(bytes, offset + 0x14));
        assert(be_u32(data@, 0x18) == be_u32(bytes, offset + 0x18));
        assert(be_u16(data@, 0x1e) == be_u16(bytes, offset + 0x1e));
        let name_offset = get_u32(data, 0xC) as i32;
        let name = name_at_rel(brres, offset, name_offset)?;
        Ok(Header {
            length: get_u32(data, 0x0),
            mdl0_offset: get_u32(data, 0x4) as i32,
            data_offset: get_u32(data, 0x8) as i32,
            name_offset,
            name,
            index: get_u32(data, 0x10),
            component_count: get_u32(data, 0x14),
            format: get_u32(data, 0x18),
            divisor: get_u8(data, 0x1C),
            stride: get_u8(data, 0x1D),
            normal_count: get_u16(data, 0x1E),
        })
    }
}

impl FromIndexGroup for Normals {
    /// Reading the group header at `offset` and keeping it in slot `index - 1`;
    /// an index of 0, or past the slots, is refused and nothing changes.
    open spec fn stores(prev: Self, next: Self, data: Seq<u8>, offset: u32, index: u16, r: Result<(), Error>) -> bool {
        match normals_header_outcome(data, offset as int) {
            Err(e) => r == Err::<(), Error>(e) && next == prev,
            Ok(()) => if index == 0 || index > prev.normals@.len() {
                r == Err::<(), Error>(Error::InvalidEntryIndex) && next == prev
            } else {
                &&& r is Ok
                &&& next.num_vertex_groups == prev.num_vertex_groups
                &&& next.normals@.len() == prev.normals@.len()
                &&& forall|k: int| 0 <= k < prev.normals@.len() && k != index - 1 ==> #[trigger] next.normals@[k] == prev.normals@[k]
                &&& next.normals@[index - 1] matches Some(h) && h.read_from(data, offset as int)
            },
        }
    }

    open spec fn spec_is_subfile() -> bool {
        true
    }

    fn set_data(&mut self, brres: RawBrres, offset: u32, index: u16) -> (r: Result<(), Error>) {
        let header = Header::new(brres, offset as usize)?;
        if index == 0 || index as usize > self.normals.len() {
            return Err(Error::InvalidEntryIndex);
        }
        self.normals.set(index as usize - 1, Some(header));
        Ok(())
    }

    fn is_subfile() -> (r: bool) {
        true
    }
}

} // verus!
