//! The subfiles of a `.brres` file: their common header and the kinds of data
//! they hold.
use vstd::prelude::*;
use crate::binary::{within, be_u32, utf8_text, varstring_outcome, get_u32, read, str_eq, VariableString};
use crate::brres::RawBrres;
use crate::brres::index_group::{applied, group_at, walk_entry, GroupView, IndexHeader};
use crate::brres::mdl0::{mdl0_header_ok, MDL0};
use crate::brres::mdl0::normals::Normals;
use crate::brres::mdl0::vertices::Vertices;
use crate::brres::tex0::TEX0;
use crate::error::Error;

verus! {

/// The kind of a subfile, named by its four-byte magic.
#[allow(non_camel_case_types)]
#[derive(Clone, Copy, Debug, PartialEq, Eq, Structural)]
pub enum SectionType {
    MDL0,
    TEX0,
    SRT0,
    CHR0,
    PAT0,
    CLR0,
    SHP0,
    SCN0,
    PLT0,
    VIS0,
}

/// The kind of subfile that a magic names, if any.
pub open spec fn section_type_named(magic: Seq<char>) -> Option<SectionType> {
    if magic == "MDL0"@ {
        Some(SectionType::MDL0)
    } else if magic == "TEX0"@ {
        Some(SectionType::TEX0)
    } else if magic == "SRT0"@ {
        Some(SectionType::SRT0)
    } else if magic == "CHR0"@ {
        Some(SectionType::CHR0)
    } else if magic == "PAT0"@ {
        Some(SectionType::PAT0)
    } else if magic == "CLR0"@ {
        Some(SectionType::CLR0)
    } else if magic == "SHP0"@ {
        Some(SectionType::SHP0)
    } else if magic == "SCN0"@ {
        Some(SectionType::SCN0)
    } else if magic == "PLT0"@ {
        Some(SectionType::PLT0)
    } else if magic == "VIS0"@ {
        Some(SectionType::VIS0)
    } else {
        None
    }
}

/// Byte `i` of `bytes`, or zero past its end.
pub open spec fn byte_or_zero(bytes: Seq<u8>, i: int) -> int {
    if 0 <= i < bytes.len() {
        bytes[i] as int
    } else {
        0
    }
}

/// The first four of `bytes` (zero where there are fewer), read as a big-endian
/// number.
pub open spec fn magic_code(bytes: Seq<u8>) -> u32 {
    (byte_or_zero(bytes, 0) * 0x100_0000 + byte_or_zero(bytes, 1) * 0x1_0000 + byte_or_zero(bytes, 2) * 0x100
        + byte_or_zero(bytes, 3)) as u32
}

impl SectionType {
    /// The kind of subfile that the magic `magic` names.
    pub fn str_to_type(magic: String) -> (r: Result<SectionType, Error>)
        ensures
            match section_type_named(magic@) {
                Some(t) => r == Ok::<SectionType, Error>(t),
                None => r == Err::<SectionType, Error>(
                    Error::InvalidSectionMagic(magic_code(vstd::utf8::encode_utf8(magic@))),
                ),
            },
    {
        let m = magic.as_str();
        if str_eq(m, "MDL0") {
            Ok(SectionType::MDL0)
        } else if str_eq(m, "TEX0") {
            Ok(SectionType::TEX0)
        } else if str_eq(m, "SRT0") {
            Ok(SectionType::SRT0)
        } else if str_eq(m, "CHR0") {
            Ok(SectionType::CHR0)
        } else if str_eq(m, "PAT0") {
            Ok(SectionType::PAT0)
        } else if str_eq(m, "CLR0") {
            Ok(SectionType::CLR0)
        } else if str_eq(m, "SHP0") {
            Ok(SectionType::SHP0)
        } else if str_eq(m, "SCN0") {
            Ok(SectionType::SCN0)
        } else if str_eq(m, "PLT0") {
            Ok(SectionType::PLT0)
        } else if str_eq(m, "VIS0") {
            Ok(SectionType::VIS0)
        } else {
            let bytes = m.as_bytes();
            let b0: u32 = if bytes.len() > 0 { bytes[0] as u32 } else { 0 };
            let b1: u32 = if bytes.len() > 1 { bytes[1] as u32 } else { 0 };
            let b2: u32 = if bytes.len() > 2 { bytes[2] as u32 } else { 0 };
            let b3: u32 = if bytes.len() > 3 { bytes[3] as u32 } else { 0 };
            Err(Error::InvalidSectionMagic(b0 * 0x100_0000 + b1 * 0x1_0000 + b2 * 0x100 + b3))
        }
    }

    /// How many section offsets a subfile of this kind and version lists: the
    /// known versions of each kind, and 0 for any other.
    pub open spec fn section_count(self, version: u32) -> u32 {
        match self {
            SectionType::MDL0 => if version == 8 { 11 } else if version == 11 { 14 } else { 0 },
            SectionType::TEX0 => if version == 1 { 1 } else if version == 2 { 2 } else if version == 3 { 1 } else { 0 },
            SectionType::SRT0 => if version == 4 { 1 } else if version == 5 { 2 } else { 0 },
            SectionType::CHR0 => if version == 3 { 1 } else if version == 5 { 2 } else { 0 },
            SectionType::PAT0 => if version == 4 { 6 } else { 0 },
            SectionType::CLR0 => if version == 4 { 2 } else { 0 },
            SectionType::SHP0 => if version == 4 { 3 } else { 0 },
            SectionType::SCN0 => if version == 4 { 6 } else if version == 5 { 7 } else { 0 },
            SectionType::PLT0 => 0,
            SectionType::VIS0 => 0,
        }
    }

    /// How many section offsets a subfile of this kind and version lists.
    pub fn get_section_count(&self, version: u32) -> (r: u32)
        ensures
            r == self.section_count(version),
    {
        match self {
            SectionType::MDL0 => match version {
                8 => 11,
                11 => 14,
                _ => 0,
            },
            SectionType::TEX0 => match version {
                1 => 1,
                2 => 2,
                3 => 1,
                _ => 0,
            },
            SectionType::SRT0 => match version {
                4 => 1,
                5 => 2,
                _ => 0,
            },
            SectionType::CHR0 => match version {
                3 => 1,
                5 => 2,
                _ => 0,
            },
            SectionType::PAT0 => match version {
                4 => 6,
                _ => 0,
            },
            SectionType::CLR0 => match version {
                4 => 2,
                _ => 0,
            },
            SectionType::SHP0 => match version {
                4 => 3,
                _ => 0,
            },
            SectionType::SCN0 => match version {
                4 => 6,
                5 => 7,
                _ => 0,
            },
            SectionType::PLT0 => match version {
                _ => 0,
            },
            SectionType::VIS0 => match version {
                _ => 0,
            },
        }
    }

    /// The magic of the kind.
    pub open spec fn spec_name(self) -> Seq<char> {
        match self {
            SectionType::MDL0 => "MDL0"@,
            SectionType::TEX0 => "TEX0"@,
            SectionType::SRT0 => "SRT0"@,
            SectionType::CHR0 => "CHR0"@,
            SectionType::PAT0 => "PAT0"@,
            SectionType::CLR0 => "CLR0"@,
            SectionType::SHP0 => "SHP0"@,
            SectionType::SCN0 => "SCN0"@,
            SectionType::PLT0 => "PLT0"@,
            SectionType::VIS0 => "VIS0"@,
        }
    }

    /// The magic of the kind.
    pub fn name(&self) -> (r: &'static str)
        ensures
            r@ == self.spec_name(),
    {
        match self {
            SectionType::MDL0 => "MDL0",
            SectionType::TEX0 => "TEX0",
            SectionType::SRT0 => "SRT0",
            SectionType::CHR0 => "CHR0",
            SectionType::PAT0 => "PAT0",
            SectionType::CLR0 => "CLR0",
            SectionType::SHP0 => "SHP0",
            SectionType::SCN0 => "SCN0",
            SectionType::PLT0 => "PLT0",
            SectionType::VIS0 => "VIS0",
        }
    }
}

/// Every kind is named back by its own magic.
pub proof fn lemma_section_type_name_round_trip(t: SectionType)
    ensures
        section_type_named(t.spec_name()) == Some(t),
{
    reveal_strlit("MDL0");
    reveal_strlit("TEX0");
    reveal_strlit("SRT0");
    reveal_strlit("CHR0");
    reveal_strlit("PAT0");
    reveal_strlit("CLR0");
    reveal_strlit("SHP0");
    reveal_strlit("SCN0");
    reveal_strlit("PLT0");
    reveal_strlit("VIS0");
    let names = seq!["MDL0"@, "TEX0"@, "SRT0"@, "CHR0"@, "PAT0"@, "CLR0"@, "SHP0"@, "SCN0"@, "PLT0"@, "VIS0"@];
    assert forall|a: int, b: int| 0 <= a < b < 10 implies names[a] != names[b] by {
        assert(names[a][0] != names[b][0] || names[a][1] != names[b][1] || names[a][2] != names[b][2]
            || names[a][3] != names[b][3]);
    }
}

/// Whether reading the header of the subfile at `offset` fails, and with which
/// error: the sixteen-byte head, a known magic, the section offsets and the
/// relative offset of the name that follow it, then the name.
pub open spec fn subfile_header_outcome(data: Seq<u8>, offset: int) -> Result<(), Error> {
    if !within(data, offset, 0x10) {
        Err(Error::OutOfBounds)
    } else if utf8_text(data, offset, offset + 4) is None {
        Err(Error::InvalidUtf8)
    } else {
        match section_type_named(utf8_text(data, offset, offset + 4)->Some_0) {
            None => Err(Error::InvalidSectionMagic(be_u32(data, offset))),
            Some(t) => {
                let n = t.section_count(be_u32(data, offset + 8)) as int;
                if !within(data, offset + 0x10, 4 * n + 4) {
                    Err(Error::OutOfBounds)
                } else {
                    match varstring_outcome(data, offset + be_u32(data, offset + 0x10 + 4 * n)) {
                        Err(e) => Err(e),
                        Ok(_) => Ok(()),
                    }
                }
            },
        }
    }
}

/// The header of a subfile.
pub struct Header {
    pub header_length: usize,
    pub section_type: SectionType,
    pub length: u32,
    pub version: u32,
    pub out_brres_off: u32,
    pub num_section_offsets: u32,
    /// These offsets point to an index group.
    pub section_offsets: Vec<u32>,
    pub name: VariableString,
    pub file_off: usize,
}

impl Header {
    /// Whether `self` is the header of the subfile stored at `offset` of `data`.
    pub open spec fn read_from(self, data: Seq<u8>, offset: int) -> bool {
        let n = self.num_section_offsets as int;
        let name_at = offset + be_u32(data, offset + 0x10 + 4 * n);
        &&& section_type_named(utf8_text(data, offset, offset + 4)->Some_0) == Some(self.section_type)
        &&& self.length == be_u32(data, offset + 4)
        &&& self.version == be_u32(data, offset + 8)
        &&& self.out_brres_off == be_u32(data, offset + 0xc)
        &&& self.num_section_offsets == self.section_type.section_count(self.version)
        &&& self.section_offsets@.len() == n
        &&& forall|k: int| 0 <= k < n ==> #[trigger] self.section_offsets@[k] == be_u32(data, offset + 0x10 + 4 * k)
        &&& varstring_outcome(data, name_at) == Ok::<Seq<char>, Error>(self.name.string@)
        &&& self.name.length == be_u32(data, name_at - 4)
        &&& self.header_length == 4 * n + 0x14
        &&& self.file_off == offset
    }

    /// Reads the header of the subfile at `offset`.
    pub fn new(brres: RawBrres, offset: usize) -> (r: Result<Self, Error>)
        ensures
            match subfile_header_outcome(brres.bytes(), offset as int) {
                Ok(()) => r matches Ok(h) && h.read_from(brres.bytes(), offset as int),
                Err(e) => r == Err::<Header, Error>(e),
            },
    {
        let head = match brres.slice(offset, 0x10) {
            Some(d) => d,
            None => {
                return Err(Error::OutOfBounds);
            },
        };
        assert(head@.subrange(0, 4) =~= brres.bytes().subrange(offset as int, offset + 4));
        let magic: String = read(head, 0x0)?;
        proof {
            let raw = head@.subrange(0, 4);
            vstd::utf8::decode_utf8_encode_utf8(raw);
            assert(magic_code(vstd::utf8::encode_utf8(magic@)) == be_u32(brres.bytes(), offset as int)) by {
                assert(vstd::utf8::encode_utf8(magic@) == raw);
                assert(raw[0] == brres.bytes()[offset as int] && raw[1] == brres.bytes()[offset + 1]
                    && raw[2] == brres.bytes()[offset + 2] && raw[3] == brres.bytes()[offset + 3]);
            }
        }
        let section_type = SectionType::str_to_type(magic)?;
        let length = get_u32(head, 0x4);
        let version = get_u32(head, 0x8);
        let out_brres_off = get_u32(head, 0xC);
        let num_section_offsets = section_type.get_section_count(version);
        assert(num_section_offsets <= 14);
        let section_data_size: usize = (num_section_offsets as usize * 4) + 4;
        let table = match brres.slice(offset + 0x10, section_data_size) {
            Some(d) => d,
            None => {
                return Err(Error::OutOfBounds);
            },
        };
        let mut section_offsets: Vec<u32> = Vec::new();
        let mut n: u32 = 0;
        while n < num_section_offsets
            invariant
                n <= num_section_offsets <= 14,
                table@.len() == 4 * num_section_offsets + 4,
                offset + 0x10 + 4 * num_section_offsets + 4 <= brres.bytes().len(),
                table@ == brres.bytes().subrange(offset + 0x10, offset + 0x10 + 4 * num_section_offsets + 4),
                section_offsets@.len() == n,
                forall|k: int| 0 <= k < n ==> #[trigger] section_offsets@[k] == be_u32(
                    brres.bytes(),
                    offset + 0x10 + 4 * k,
                ),
            decreases num_section_offsets - n,
        {
            let off = get_u32(table, (n * 4) as usize);
            assert(be_u32(table@, 4 * n) == be_u32(brres.bytes(), offset + 0x10 + 4 * n));
            section_offsets.push(off);
            n = n + 1;
        }
        let rel_name_off = get_u32(table, (num_section_offsets * 4) as usize);
        assert(be_u32(table@, 4 * num_section_offsets) == be_u32(
            brres.bytes(),
            offset + 0x10 + 4 * num_section_offsets,
        ));
        let data = brres.data();
        let name: VariableString = match offset.checked_add(rel_name_off as usize) {
            Some(name_off) => read(data, name_off)?,
            None => {
                assert(data@.len() == data.len());
                return Err(Error::OutOfBounds);
            },
        };
        Ok(Header {
            header_length: (num_section_offsets as usize * 4) + 0x14,
            section_type,
            length,
            version,
            out_brres_off,
            num_section_offsets,
            section_offsets,
            name,
            file_off: offset,
        })
    }
}

/// How many section offsets each kind lists, by version: a model lists 11 at
/// version 8 and 14 at version 11; a texture 1, 2 and 1 at versions 1, 2 and 3;
/// a texture animation 1 and 2 at versions 4 and 5; a bone animation 1 and 2 at
/// versions 3 and 5; a pattern animation 6 at version 4; a colour animation 2 at
/// version 4; a shape animation 3 at version 4; a scene 6 and 7 at versions 4
/// and 5; every other kind and version none.
pub proof fn lemma_section_count_table(t: SectionType, v: u32)
    ensures
        t.section_count(v) == (if t == SectionType::MDL0 && v == 8 {
            11
        } else if t == SectionType::MDL0 && v == 11 {
            14
        } else if t == SectionType::TEX0 && (v == 1 || v == 3) {
            1
        } else if t == SectionType::TEX0 && v == 2 {
            2
        } else if (t == SectionType::SRT0 && v == 4) || (t == SectionType::CHR0 && v == 3) {
            1
        } else if (t == SectionType::SRT0 || t == SectionType::CHR0) && v == 5 {
            2
        } else if t == SectionType::PAT0 && v == 4 {
            6
        } else if t == SectionType::CLR0 && v == 4 {
            2
        } else if t == SectionType::SHP0 && v == 4 {
            3
        } else if t == SectionType::SCN0 && v == 4 {
            6
        } else if t == SectionType::SCN0 && v == 5 {
            7
        } else {
            0u32
        }),
{
}

/// The animation kinds list their section offsets per version: a texture
/// animation (SRT0) and a bone animation (CHR0) of version 5 list two, one more
/// than at their earlier versions (4 and 3); any version not listed below gives
/// none.
pub proof fn lemma_animation_section_counts(v: u32)
    ensures
        SectionType::SRT0.section_count(5) == 2,
        SectionType::CHR0.section_count(5) == 2,
        SectionType::SRT0.section_count(4) + 1 == SectionType::SRT0.section_count(5),
        SectionType::CHR0.section_count(3) + 1 == SectionType::CHR0.section_count(5),
        v != 4 && v != 5 ==> SectionType::SRT0.section_count(v) == 0,
        v != 3 && v != 5 ==> SectionType::CHR0.section_count(v) == 0,
{
}

/// The header of a version-5 texture animation lists two section offsets, the
/// words at 0x10 and 0x14; the word at 0x18 leads to its name, and the header
/// takes 0x1C bytes.
pub proof fn lemma_srt0_v5_header(h: Header, data: Seq<u8>, offset: int)
    requires
        h.read_from(data, offset),
        h.section_type == SectionType::SRT0,
        h.version == 5,
    ensures
        h.num_section_offsets == 2,
        h.section_offsets@ == seq![be_u32(data, offset + 0x10), be_u32(data, offset + 0x14)],
        h.header_length == 0x1C,
        varstring_outcome(data, offset + be_u32(data, offset + 0x18)) == Ok::<Seq<char>, Error>(h.name.string@),
{
    assert(h.section_offsets@[0] == be_u32(data, offset + 0x10));
    assert(h.section_offsets@[1] == be_u32(data, offset + 0x14));
    assert(h.section_offsets@ =~= seq![be_u32(data, offset + 0x10), be_u32(data, offset + 0x14)]);
}

/// What a subfile holds, once it has been read.
pub enum SubFileData {
    Mdl0(MDL0),
    Tex0(TEX0),
    Unsupported,
}

/// A subfile: its header, and its contents once they have been read.
pub struct SubFile {
    pub header: Header,
    pub file: Option<SubFileData>,
}

/// The error of a result, if any.
pub open spec fn err_of(r: Result<(), Error>) -> Option<Error> {
    match r {
        Ok(_) => None,
        Err(e) => Some(e),
    }
}

/// Whether `v` is a fresh set of `n` vertex group slots.
pub open spec fn fresh_vertices(v: Vertices, n: u32) -> bool {
    &&& v.num_vertex_groups == n
    &&& v.vertices@.len() == n
    &&& forall|i: int| 0 <= i < n ==> #[trigger] v.vertices@[i] is None
}

/// Whether `v` is a fresh set of `n` normal group slots.
pub open spec fn fresh_normals(v: Normals, n: u32) -> bool {
    &&& v.num_vertex_groups == n
    &&& v.normals@.len() == n
    &&& forall|i: int| 0 <= i < n ==> #[trigger] v.normals@[i] is None
}

/// Whether `e` is what reading the vertex and normal groups of a model gives:
/// the model's third and fourth section offsets, from the start of the subfile,
/// lead to the index groups of its vertices and of its normals; each group is
/// walked into fresh slots, one per entry it counts. A model that lists fewer
/// than four section offsets has no such outcome.
#[verifier::opaque]
pub open spec fn model_groups_read(data: Seq<u8>, file_off: int, offs: Seq<u32>, e: Option<Error>) -> bool {
    if offs.len() < 4 {
        false
    } else {
        match group_at(data, file_off + offs[2]) {
            Err(x) => e == Some(x),
            Ok(gv) => match group_at(data, file_off + offs[3]) {
                Err(x) => e == Some(x),
                Ok(gn) => {
                    let wv = walk_entry(gv.root, data, true, data.len());
                    let wn = walk_entry(gn.root, data, true, data.len());
                    exists|v0: Vertices, v1: Vertices, rv: Result<(), Error>|
                        #![trigger applied(v0, v1, data, wv.calls, wv.stop, rv)]
                        fresh_vertices(v0, gv.num_group) && applied(v0, v1, data, wv.calls, wv.stop, rv) && match rv {
                            Err(x) => e == Some(x),
                            Ok(_) => exists|n0: Normals, n1: Normals, rn: Result<(), Error>|
                                #![trigger applied(n0, n1, data, wn.calls, wn.stop, rn)]
                                fresh_normals(n0, gn.num_group) && applied(n0, n1, data, wn.calls, wn.stop, rn) && e == err_of(rn),
                        }
                },
            },
        }
    }
}

/// Whether `s` is a model whose header can be read but which lists fewer than
/// the four section offsets that lead to its vertex and normal groups.
pub open spec fn model_short(s: SubFile, data: Seq<u8>) -> bool {
    &&& s.header.section_type == SectionType::MDL0
    &&& mdl0_header_ok(data, s.header.file_off + s.header.header_length)
    &&& s.header.section_offsets@.len() < 4
}

/// Whether `next`, with error `e`, is what reading the contents of the subfile
/// `prev` gives. A model: its header follows the subfile header (a model header
/// that cannot be read fails with nothing kept), then its groups are read. A
/// texture: its header follows the subfile header. Any other kind is marked
/// unsupported.
pub open spec fn generated(prev: SubFile, next: SubFile, data: Seq<u8>, e: Option<Error>) -> bool {
    let at = prev.header.file_off + prev.header.header_length;
    &&& next.header == prev.header
    &&& match prev.header.section_type {
        SectionType::MDL0 => if mdl0_header_ok(data, at) {
            &&& next.file matches Some(SubFileData::Mdl0(m)) && m.header.read_from(data, at)
            &&& model_groups_read(data, prev.header.file_off as int, prev.header.section_offsets@, e)
        } else {
            e == Some(Error::OutOfBounds) && next.file == prev.file
        },
        SectionType::TEX0 => if within(data, at, 0x1c) {
            &&& e is None
            &&& next.file matches Some(SubFileData::Tex0(t)) && t.header.read_from(data, at) && t.data@.len() == 0
        } else {
            e == Some(Error::OutOfBounds) && next.file == prev.file
        },
        _ => e is None && next.file matches Some(SubFileData::Unsupported),
    }
}


/// Both groups of a model were read and walked: the outcome is that of the
/// second walk, or the error of the first.
proof fn lemma_groups_walked(
    data: Seq<u8>,
    file_off: int,
    offs: Seq<u32>,
    gv: GroupView,
    gn: GroupView,
    v0: Vertices,
    v1: Vertices,
    rv: Result<(), Error>,
    n0: Normals,
    n1: Normals,
    rn: Result<(), Error>,
    e: Option<Error>,
)
    requires
        offs.len() >= 4,
        group_at(data, file_off + offs[2]) == Ok::<GroupView, Error>(gv),
        group_at(data, file_off + offs[3]) == Ok::<GroupView, Error>(gn),
        fresh_vertices(v0, gv.num_group),
        applied(v0, v1, data, walk_entry(gv.root, data, true, data.len()).calls, walk_entry(gv.root, data, true, data.len()).stop, rv),
        rv is Err ==> e == err_of(rv),
        rv is Ok ==> {
            &&& fresh_normals(n0, gn.num_group)
            &&& applied(n0, n1, data, walk_entry(gn.root, data, true, data.len()).calls, walk_entry(gn.root, data, true, data.len()).stop, rn)
            &&& e == err_of(rn)
        },
    ensures
        model_groups_read(data, file_off, offs, e),
{
    reveal(model_groups_read);
    let wv = walk_entry(gv.root, data, true, data.len());
    let wn = walk_entry(gn.root, data, true, data.len());
    let inner = exists|a: Normals, b: Normals, x: Result<(), Error>|
        #![trigger applied(a, b, data, wn.calls, wn.stop, x)]
        fresh_normals(a, gn.num_group) && applied(a, b, data, wn.calls, wn.stop, x) && e == err_of(x);
    if rv is Ok {
        assert(fresh_normals(n0, gn.num_group) && applied(n0, n1, data, wn.calls, wn.stop, rn) && e == err_of(rn));
        assert(inner);
    }
    assert(fresh_vertices(v0, gv.num_group) && applied(v0, v1, data, wv.calls, wv.stop, rv) && match rv {
        Err(x) => e == Some(x),
        Ok(_) => inner,
    });
}

/// A group of a model that cannot be read is the outcome.
proof fn lemma_group_failed(data: Seq<u8>, file_off: int, offs: Seq<u32>, second: bool, e: Error)
    requires
        offs.len() >= 4,
        !second ==> group_at(data, file_off + offs[2]) == Err::<GroupView, Error>(e),
        second ==> group_at(data, file_off + offs[2]) is Ok && group_at(data, file_off + offs[3]) == Err::<GroupView, Error>(e),
    ensures
        model_groups_read(data, file_off, offs, Some(e)),
{
    reveal(model_groups_read);
}

impl SubFile {
    /// Reads the header of the subfile at `offset`; its contents are read later.
    pub fn new(brres: RawBrres, offset: usize) -> (r: Result<Self, Error>)
        ensures
            match subfile_header_outcome(brres.bytes(), offset as int) {
                Ok(()) => r matches Ok(s) && s.header.read_from(brres.bytes(), offset as int) && s.file is None,
                Err(e) => r == Err::<SubFile, Error>(e),
            },
    {
        let header = Header::new(brres, offset)?;
        Ok(SubFile { header, file: None })
    }

    /// Reads the model, then its vertex and normal groups.
    #[verifier::spinoff_prover]
    fn create_mdl0(&mut self, brres: RawBrres) -> (r: Result<(), Error>)
        requires
            old(self).header.section_type == SectionType::MDL0,
            !model_short(*old(self), brres.bytes()),
        ensures
            generated(*old(self), *final(self), brres.bytes(), err_of(r)),
    {
        let ghost data = brres.bytes();
        let mdl0 = MDL0::new(brres, self.header.file_off, self.header.header_length)?;
        self.file = Some(SubFileData::Mdl0(mdl0));
        let ghost offs = self.header.section_offsets@;
        let ghost file_off = self.header.file_off as int;
        proof {
            brres.lemma_len_fits();
        }
        let verts_at = match self.header.file_off.checked_add(self.header.section_offsets[2] as usize) {
            Some(a) => a,
            None => {
                proof {
                    lemma_group_failed(data, file_off, offs, false, Error::OutOfBounds);
                }
                return Err(Error::OutOfBounds);
            },
        };
        let mut verts_index_group = match IndexHeader::new(brres, verts_at) {
            Ok(g) => g,
            Err(e) => {
                proof {
                    lemma_group_failed(data, file_off, offs, false, e);
                }
                return Err(e);
            },
        };
        let norms_at = match self.header.file_off.checked_add(self.header.section_offsets[3] as usize) {
            Some(a) => a,
            None => {
                proof {
                    lemma_group_failed(data, file_off, offs, true, Error::OutOfBounds);
                }
                return Err(Error::OutOfBounds);
            },
        };
        let mut norms_index_group = match IndexHeader::new(brres, norms_at) {
            Ok(g) => g,
            Err(e) => {
                proof {
                    lemma_group_failed(data, file_off, offs, true, e);
                }
                return Err(e);
            },
        };
        let ghost gv = verts_index_group.view_group();
        let ghost gn = norms_index_group.view_group();
        let mut vertices = Vertices::new(verts_index_group.num_group);
        let mut normals = Normals::new(norms_index_group.num_group);
        let ghost v0 = vertices;
        let ghost n0 = normals;
        let rv = verts_index_group.root.get_data(brres, &mut vertices);
        let ghost v1 = vertices;
        if rv.is_err() {
            proof {
                lemma_groups_walked(data, file_off, offs, gv, gn, v0, v1, rv, n0, n0, rv, err_of(rv));
            }
            return rv;
        }
        let rn = norms_index_group.root.get_data(brres, &mut normals);
        proof {
            lemma_groups_walked(data, file_off, offs, gv, gn, v0, v1, rv, n0, normals, rn, err_of(rn));
        }
        rn
    }

    /// Reads the texture.
    fn create_tex0(&mut self, brres: RawBrres) -> (r: Result<(), Error>)
        requires
            old(self).header.section_type == SectionType::TEX0,
        ensures
            generated(*old(self), *final(self), brres.bytes(), err_of(r)),
    {
        let tex0 = TEX0::new(brres, self.header.file_off, self.header.header_length)?;
        self.file = Some(SubFileData::Tex0(tex0));
        Ok(())
    }

    /// Reads the contents of the subfile, by its kind. A model whose header can
    /// be read must list the offsets of its vertex and normal groups.
    pub fn generate_subfile(&mut self, brres: RawBrres) -> (r: Result<(), Error>)
        requires
            !model_short(*old(self), brres.bytes()),
        ensures
            generated(*old(self), *final(self), brres.bytes(), err_of(r)),
    {
        match self.header.section_type {
            SectionType::MDL0 => self.create_mdl0(brres),
            SectionType::TEX0 => self.create_tex0(brres),
            _ => {
                self.file = Some(SubFileData::Unsupported);
                Ok(())
            },
        }
    }

    /// `generate_subfile` on any subfile: `None`, with nothing changed, exactly
    /// for a model whose header can be read but which lists fewer than four
    /// section offsets, which `generate_subfile` may not be given.
    pub fn try_generate_subfile(&mut self, brres: RawBrres) -> (r: Option<Result<(), Error>>)
        ensures
            r is None <==> model_short(*old(self), brres.bytes()),
            r is None ==> *final(self) == *old(self),
            r matches Some(x) ==> generated(*old(self), *final(self), brres.bytes(), err_of(x)),
    {
        if self.header.section_type == SectionType::MDL0 && self.header.section_offsets.len() < 4 {
            if MDL0::new(brres, self.header.file_off, self.header.header_length).is_ok() {
                return None;
            }
        }
        Some(self.generate_subfile(brres))
    }
}

} // verus!
