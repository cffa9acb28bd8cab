use szs_utils::binary::Endian;
use szs_utils::brres::index_group::{FromIndexGroup, IndexEntry, IndexHeader, NameLine};
use szs_utils::brres::mdl0::normals::Normals;
use szs_utils::brres::mdl0::vertices::Vertices;
use szs_utils::brres::mdl0::MDL0;
use szs_utils::brres::subfile::{SectionType, SubFile, SubFileData};
use szs_utils::brres::tex0::TEX0;
use szs_utils::brres::{parse_data, try_parse_data, FileHeader, RawBrres, RootHeader};
use szs_utils::error::Error;

struct Buf(Vec<u8>);

impl Buf {
    fn new() -> Self {
        Buf(Vec::new())
    }
    fn room(&mut self, end: usize) {
        if self.0.len() < end {
            self.0.resize(end, 0);
        }
    }
    fn bytes(&mut self, at: usize, b: &[u8]) {
        self.room(at + b.len());
        self.0[at..at + b.len()].copy_from_slice(b);
    }
    fn u16(&mut self, at: usize, v: u16) {
        self.bytes(at, &v.to_be_bytes());
    }
    fn u32(&mut self, at: usize, v: u32) {
        self.bytes(at, &v.to_be_bytes());
    }
    /// A length-prefixed name whose text starts at `at`.
    fn name(&mut self, at: usize, text: &str) {
        self.u32(at - 4, text.len() as u32);
        self.bytes(at, text.as_bytes());
    }
    /// An index group at `at` with one entry (besides the root), whose name and
    /// data lie at the given positions.
    fn group(&mut self, at: usize, entries: u32, name_at: usize, data_at: usize) {
        self.u32(at, 0x30);
        self.u32(at + 4, entries);
        self.u16(at + 8, 0xFFFF);
        self.u16(at + 0xC, 1);
        self.u16(at + 0x18, 0);
        self.u32(at + 0x20, (name_at - at) as u32);
        self.u32(at + 0x24, (data_at - at) as u32);
    }
    /// The file header and root header; the root group follows at 0x18.
    fn heads(&mut self) {
        self.bytes(0, b"bres");
        self.bytes(4, &[0xFE, 0xFF]);
        self.u16(0xC, 0x10);
        self.u16(0xE, 1);
        self.bytes(0x10, b"root");
        self.u32(0x14, 0x100);
    }
    fn done(mut self) -> Vec<u8> {
        let len = self.0.len() as u32;
        self.u32(8, len);
        self.0
    }
}

/// A file whose root group leads to a folder group, which leads to a texture.
fn sample_tex0() -> Vec<u8> {
    let mut b = Buf::new();
    b.heads();
    b.group(0x18, 1, 0xA4, 0x40);
    b.group(0x40, 1, 0xB8, 0x68);
    b.bytes(0x68, b"TEX0");
    b.u32(0x6C, 0x54);
    b.u32(0x70, 1);
    b.u32(0x74, (-0x68i32) as u32);
    b.u32(0x78, 0);
    b.u32(0x7C, 0xB8 - 0x68);
    b.u32(0x80, 0);
    b.u16(0x84, 64);
    b.u16(0x86, 32);
    b.u32(0x88, 14);
    b.u32(0x8C, 1);
    b.u32(0x90, 0.0f32.to_bits());
    b.u32(0x94, 1.5f32.to_bits());
    b.name(0xA4, "Textures(NW4R)");
    b.name(0xB8, "tex");
    b.done()
}

/// A file whose root group leads to a folder group, which leads to a model
/// with one group of vertices and one group of normals.
fn sample_mdl0(vertex_slots: u32) -> Vec<u8> {
    let mut b = Buf::new();
    b.heads();
    let sub = 0x68;
    b.group(0x18, 1, 0x1A4, 0x40);
    b.group(0x40, 1, 0x1B8, sub);
    b.bytes(sub, b"MDL0");
    b.u32(sub + 4, 0x200);
    b.u32(sub + 8, 8);
    b.u32(sub + 0xC, (-0x68i32) as u32);
    let (vg, ng, vh, nh) = (0xE8usize, 0x110usize, 0x138usize, 0x170usize);
    b.u32(sub + 0x10 + 4 * 2, (vg - sub) as u32);
    b.u32(sub + 0x10 + 4 * 3, (ng - sub) as u32);
    b.u32(sub + 0x10 + 4 * 11, (0x1B8 - sub) as u32);
    // The model header, 0x40 bytes after the 0x40-byte subfile header.
    let mh = sub + 0x40;
    b.u32(mh, 0x40);
    b.u32(mh + 0x10, 3);
    b.u32(mh + 0x14, 1);
    b.bytes(mh + 0x20, &[1, 0, 1]);
    b.u32(mh + 0x28, 1.0f32.to_bits());
    b.u32(mh + 0x3C, 2.0f32.to_bits());
    b.group(vg, vertex_slots, 0x1C8, vh);
    b.group(ng, 1, 0x1D8, nh);
    b.u32(vh, 0x38);
    b.u32(vh + 0xC, (0x1C8 - vh) as u32);
    b.u32(vh + 0x14, 1);
    b.u16(vh + 0x1E, 3);
    b.u32(nh, 0x20);
    b.u32(nh + 0xC, (0x1D8 - nh) as u32);
    b.u16(nh + 0x1E, 3);
    b.name(0x1A4, "3DModels(NW4R)");
    b.name(0x1B8, "course");
    b.name(0x1C8, "verts");
    b.name(0x1D8, "norms");
    b.done()
}

#[test]
fn brres_test() {
    let brres = parse_data(&sample_tex0()).unwrap();
    for subfile in brres.subfiles {
        println!("Brres subfile type: {}", subfile.header.section_type.name());
    }
}

#[test]
fn brres_texture_is_read() {
    let data = sample_tex0();
    let brres = parse_data(&data).unwrap();
    let fh = brres.file_header.as_ref().unwrap();
    assert_eq!(fh.magic, "bres");
    assert_eq!(fh.byte_order, Endian::Big);
    assert_eq!(fh.file_size as usize, data.len());
    assert_eq!(fh.root_offset, 0x10);
    assert_eq!(fh.num_sections, 1);
    let rh = brres.root_header.as_ref().unwrap();
    assert_eq!(rh.magic, "root");
    assert_eq!(rh.offset, 0x10);
    assert_eq!(rh.len_sections, 0x100);
    let index = brres.root_index.as_ref().unwrap();
    assert_eq!(index.offset, 0x18);
    let folder = index.root.left.as_ref().unwrap();
    assert_eq!(folder.name, "Textures(NW4R)");
    assert!(folder.sub_index.is_some());
    assert_eq!(brres.subfiles.len(), 1);
    let sub = &brres.subfiles[0];
    assert_eq!(sub.header.section_type, SectionType::TEX0);
    assert_eq!(sub.header.version, 1);
    assert_eq!(sub.header.header_length, 0x18);
    assert_eq!(sub.header.file_off, 0x68);
    assert_eq!(sub.header.section_offsets, vec![0]);
    assert_eq!(sub.header.name.string, "tex");
    match &sub.file {
        Some(SubFileData::Tex0(t)) => {
            assert_eq!(t.header.width, 64);
            assert_eq!(t.header.height, 32);
            assert_eq!(t.header.format, 14);
            assert_eq!(t.header.mipmap_num, 1);
            assert_eq!(f32::from_bits(t.header.max_mipmap), 1.5);
            assert!(t.data.is_empty());
        }
        _ => panic!("expected a texture"),
    }
}

#[test]
fn brres_model_is_read() {
    let brres = parse_data(&sample_mdl0(1)).unwrap();
    assert_eq!(brres.subfiles.len(), 1);
    let sub = &brres.subfiles[0];
    assert_eq!(sub.header.section_type, SectionType::MDL0);
    assert_eq!(sub.header.num_section_offsets, 11);
    assert_eq!(sub.header.header_length, 0x40);
    assert_eq!(sub.header.name.string, "course");
    match &sub.file {
        Some(SubFileData::Mdl0(m)) => {
            assert_eq!(m.header.length, 0x40);
            assert_eq!(m.header.vertex_count, 3);
            assert_eq!(m.header.face_count, 1);
            assert!(m.header.normalize_matrices);
            assert!(!m.header.need_tex_matrices);
            assert!(m.header.bounding_volume);
            assert_eq!(f32::from_bits(m.header.bounding_volume_min.x), 1.0);
            assert_eq!(f32::from_bits(m.header.bounding_volume_max.z), 2.0);
        }
        _ => panic!("expected a model"),
    }
}

#[test]
fn vertex_and_normal_groups_fill_their_slots() {
    let data = sample_mdl0(1);
    let brres = RawBrres::new(&data);
    let mut group = IndexHeader::new(brres, 0xE8).unwrap();
    let mut vertices = Vertices::new(group.num_group);
    assert!(vertices.vertices[0].is_none());
    group.root.get_data(brres, &mut vertices).unwrap();
    let v = vertices.vertices[0].as_ref().unwrap();
    assert_eq!(v.name.string, "verts");
    assert!(v.is_3d);
    assert_eq!(v.vertex_count, 3);
    let mut group = IndexHeader::new(brres, 0x110).unwrap();
    let mut normals = Normals::new(group.num_group);
    group.root.get_data(brres, &mut normals).unwrap();
    assert_eq!(normals.normals[0].as_ref().unwrap().name.string, "norms");
    assert_eq!(normals.normals[0].as_ref().unwrap().normal_count, 3);
    assert_eq!(normals.num_vertex_groups, 1);
}

#[test]
fn a_slot_index_past_the_slots_is_refused() {
    assert_eq!(parse_data(&sample_mdl0(0)).err(), Some(Error::InvalidEntryIndex));
    let data = sample_mdl0(1);
    let brres = RawBrres::new(&data);
    let mut vertices = Vertices::new(1);
    assert_eq!(vertices.set_data(brres, 0x138, 0), Err(Error::InvalidEntryIndex));
    assert_eq!(vertices.set_data(brres, 0x138, 2), Err(Error::InvalidEntryIndex));
    assert!(vertices.vertices[0].is_none());
    assert_eq!(vertices.set_data(brres, 0x138, 1), Ok(()));
    assert!(vertices.vertices[0].is_some());
    assert_eq!(vertices.set_data(brres, data.len() as u32, 1), Err(Error::OutOfBounds));
    let mut normals = Normals::new(2);
    assert_eq!(normals.set_data(brres, 0x170, 2), Ok(()));
    assert!(normals.normals[0].is_none());
    assert!(normals.normals[1].is_some());
    assert!(Vertices::is_subfile());
}

#[test]
fn index_groups_read_as_trees() {
    let data = sample_tex0();
    let brres = RawBrres::new(&data);
    let group = IndexHeader::new(brres, 0x18).unwrap();
    assert_eq!(group.len_group, 0x30);
    assert_eq!(group.num_group, 1);
    assert_eq!(group.root.name, "ROOT");
    assert_eq!(group.root.len_name, 4);
    assert!(group.root.root);
    assert!(group.root.right.is_none());
    let entry = group.root.left.as_ref().unwrap();
    assert_eq!(entry.current_idx, 1);
    assert_eq!(entry.name, "Textures(NW4R)");
    assert_eq!(entry.len_name, 14);
    assert_eq!(entry.data_ptr, 0x28);
    assert_eq!(entry.group_offset, 0x18);
    assert!(entry.sub_index.is_none());
    let alone = IndexEntry::new(brres, 0x20, false, 1).unwrap();
    assert_eq!(alone.name, "Textures(NW4R)");
    assert!(alone.left.is_none());
    assert_eq!(IndexHeader::new(brres, data.len() - 4).err(), Some(Error::OutOfBounds));
}

#[test]
fn walking_again_stores_the_subfiles_again() {
    let data = sample_tex0();
    let brres = RawBrres::new(&data);
    let mut group = IndexHeader::new(brres, 0x18).unwrap();
    let mut first = parse_data(&data).unwrap();
    first.subfiles.clear();
    group.root.get_data(brres, &mut first).unwrap();
    assert_eq!(first.subfiles.len(), 1);
    group.root.get_data(brres, &mut first).unwrap();
    assert_eq!(first.subfiles.len(), 2);
}

#[test]
fn a_group_that_leads_back_to_itself_is_refused() {
    let mut data = sample_tex0();
    data[0x64..0x68].copy_from_slice(&0u32.to_be_bytes());
    assert_eq!(parse_data(&data).err(), Some(Error::NestingTooDeep));
}

#[test]
fn brres_errors() {
    assert_eq!(parse_data(&[0u8; 8]).err(), Some(Error::OutOfBounds));
    let mut data = sample_tex0();
    data[3] = b't';
    assert_eq!(parse_data(&data).err(), Some(Error::InvalidFileHeader));
    let mut data = sample_tex0();
    data[0] = 0xFF;
    assert_eq!(parse_data(&data).err(), Some(Error::InvalidUtf8));
    let mut data = sample_tex0();
    data[0x13] = b'X';
    assert_eq!(parse_data(&data).err(), Some(Error::InvalidRootHeader));
    let mut data = sample_tex0();
    data[0xC..0xE].copy_from_slice(&0xFFFFu16.to_be_bytes());
    assert_eq!(parse_data(&data).err(), Some(Error::OutOfBounds));
    let mut data = sample_tex0();
    data[0x68..0x6C].copy_from_slice(b"ABCD");
    assert_eq!(parse_data(&data).err(), Some(Error::InvalidSectionMagic(u32::from_be_bytes(*b"ABCD"))));
    let data = sample_tex0();
    assert_eq!(parse_data(&data[..0x98]).err(), Some(Error::OutOfBounds));
}

#[test]
fn other_subfile_kinds_are_marked_unsupported() {
    let mut data = sample_tex0();
    data[0x68..0x6C].copy_from_slice(b"CHR0");
    data[0x70..0x74].copy_from_slice(&3u32.to_be_bytes());
    let brres = parse_data(&data).unwrap();
    assert_eq!(brres.subfiles[0].header.section_type, SectionType::CHR0);
    assert!(matches!(brres.subfiles[0].file, Some(SubFileData::Unsupported)));
}

#[test]
fn a_model_without_section_offsets_is_not_generated() {
    let data = sample_mdl0(1);
    let brres = RawBrres::new(&data);
    let mut sub = SubFile::new(brres, 0x68).unwrap();
    sub.header.section_offsets.clear();
    assert_eq!(sub.try_generate_subfile(brres), None);
    assert!(sub.file.is_none());
    let mut sub = SubFile::new(brres, 0x68).unwrap();
    sub.header.section_offsets.clear();
    sub.header.header_length = data.len();
    assert_eq!(sub.try_generate_subfile(brres), Some(Err(Error::OutOfBounds)));
    assert!(sub.file.is_none());
    let mut sub = SubFile::new(brres, 0x68).unwrap();
    assert_eq!(sub.try_generate_subfile(brres), Some(Ok(())));
    assert!(matches!(sub.file, Some(SubFileData::Mdl0(_))));
}

#[test]
fn a_file_reaching_a_model_without_section_offsets_is_refused_before_parsing() {
    // A version-3 model lists no section offsets; its header still reads well.
    let mut data = sample_mdl0(1);
    let sub = 0x68;
    data[sub + 8..sub + 12].copy_from_slice(&3u32.to_be_bytes());
    data[sub + 0x10..sub + 0x14].copy_from_slice(&((0x1B8 - sub) as u32).to_be_bytes());
    data[sub + 0x14..sub + 0x18].copy_from_slice(&0x40u32.to_be_bytes());
    assert!(try_parse_data(&data).is_none());
    assert!(matches!(try_parse_data(&sample_mdl0(1)), Some(Ok(_))));
    assert!(matches!(try_parse_data(&[0u8; 4]), Some(Err(Error::OutOfBounds))));
}

#[test]
fn models_and_textures_alone() {
    let data = sample_mdl0(1);
    let brres = RawBrres::new(&data);
    let m = MDL0::new(brres, 0x68, 0x40).unwrap();
    assert_eq!(m.header.vertex_count, 3);
    assert_eq!(MDL0::new(brres, 0x68, 0x41).err(), Some(Error::OutOfBounds));
    let data = sample_tex0();
    let brres = RawBrres::new(&data);
    let t = TEX0::new(brres, 0x68, 0x18).unwrap();
    assert_eq!(t.header.width, 64);
    assert_eq!(TEX0::new(brres, data.len(), 0).err(), Some(Error::OutOfBounds));
    assert_eq!(TEX0::new(brres, usize::MAX, 2).err(), Some(Error::OutOfBounds));
}

#[test]
fn section_types() {
    assert_eq!(SectionType::str_to_type("MDL0".to_string()), Ok(SectionType::MDL0));
    assert_eq!(SectionType::str_to_type("VIS0".to_string()), Ok(SectionType::VIS0));
    assert_eq!(SectionType::str_to_type("mdl0".to_string()), Err(Error::InvalidSectionMagic(u32::from_be_bytes(*b"mdl0"))));
    assert_eq!(SectionType::str_to_type("AB".to_string()), Err(Error::InvalidSectionMagic(0x4142_0000)));
    assert_eq!(SectionType::str_to_type("MDL0X".to_string()), Err(Error::InvalidSectionMagic(u32::from_be_bytes(*b"MDL0"))));
    assert_eq!(SectionType::MDL0.get_section_count(8), 11);
    assert_eq!(SectionType::MDL0.get_section_count(11), 14);
    assert_eq!(SectionType::MDL0.get_section_count(9), 0);
    assert_eq!(SectionType::TEX0.get_section_count(2), 2);
    assert_eq!(SectionType::SCN0.get_section_count(5), 7);
    assert_eq!(SectionType::PLT0.get_section_count(1), 0);
    assert_eq!(SectionType::SRT0.name(), "SRT0");
    assert_eq!(SectionType::VIS0.name(), "VIS0");
}

#[test]
fn file_and_root_headers() {
    let mut head = [0u8; 16];
    head[0..4].copy_from_slice(b"bres");
    head[4..6].copy_from_slice(&[0xFF, 0xFE]);
    head[0xC..0xE].copy_from_slice(&0x10u16.to_be_bytes());
    let fh = FileHeader::new(&head).unwrap();
    assert_eq!(fh.byte_order, Endian::Little);
    assert_eq!(fh.byte_order.name(), "Little");
    assert_eq!(fh.root_offset, 0x10);
    head[0] = b'c';
    assert_eq!(FileHeader::new(&head).err(), Some(Error::InvalidFileHeader));
    let rh = RootHeader::new(b"root\0\0\0\x09", 0x30).unwrap();
    assert_eq!(rh.len_sections, 9);
    assert_eq!(rh.offset, 0x30);
    assert_eq!(RootHeader::new(b"ROOT\0\0\0\x09", 0x30).err(), Some(Error::InvalidRootHeader));
}

#[test]
fn raw_brres_slices() {
    let data = [1u8, 2, 3, 4];
    let brres = RawBrres::new(&data);
    assert_eq!(brres.slice(1, 2), Some(&data[1..3]));
    assert_eq!(brres.slice(3, 2), None);
    assert_eq!(brres.slice(usize::MAX, 2), None);
    assert_eq!(brres.data(), &data[..]);
}

#[test]
fn entry_names_list_the_walked_tree() {
    let brres = parse_data(&sample_tex0()).unwrap();
    let lines: Vec<(bool, String)> = brres
        .root_index
        .as_ref()
        .unwrap()
        .root
        .entry_names()
        .into_iter()
        .map(|l| match l {
            NameLine::Node(n) => (false, n),
            NameLine::Enter(n) => (true, n),
        })
        .collect();
    let expected = vec![
        (false, "ROOT".to_string()),
        (false, "Textures(NW4R)".to_string()),
        (true, "Textures(NW4R)".to_string()),
        (false, "ROOT".to_string()),
        (false, "tex".to_string()),
    ];
    assert_eq!(lines, expected);
}

#[test]
fn section_type_names_read_back() {
    for t in [
        SectionType::MDL0,
        SectionType::TEX0,
        SectionType::SRT0,
        SectionType::CHR0,
        SectionType::PAT0,
        SectionType::CLR0,
        SectionType::SHP0,
        SectionType::SCN0,
        SectionType::PLT0,
        SectionType::VIS0,
    ] {
        assert_eq!(SectionType::str_to_type(t.name().to_string()), Ok(t));
    }
}
