use szs_utils::error::Error;
use szs_utils::szs::arc::{Arc, DirectoryEntry, Entry, FileEntry, NodeType, ParsedNode};
use szs_utils::szs::parse_bytes;
use szs_utils::szs::yaz0::Yaz0;

fn put_u32(buf: &mut Vec<u8>, at: usize, v: u32) {
    if buf.len() < at + 4 {
        buf.resize(at + 4, 0);
    }
    buf[at..at + 4].copy_from_slice(&v.to_be_bytes());
}

/// Wraps `plain` in a Yaz0 stream made only of literal bytes.
fn yaz0_literal(plain: &[u8]) -> Vec<u8> {
    let mut out = b"Yaz0".to_vec();
    out.extend_from_slice(&(plain.len() as u32).to_be_bytes());
    out.extend_from_slice(&[0; 8]);
    for chunk in plain.chunks(8) {
        out.push(0xFF);
        out.extend_from_slice(chunk);
    }
    out
}

/// One node of an archive: type, name offset in the pool, and the two words.
fn node(buf: &mut Vec<u8>, at: usize, kind: u8, name_off: u32, a: u32, b: u32) {
    put_u32(buf, at, ((kind as u32) << 24) | name_off);
    put_u32(buf, at + 4, a);
    put_u32(buf, at + 8, b);
}

/// An archive holding, under its root, a file `course.kmp` (`kmp`), a directory
/// `sub` with a file `inner.bin`, and a file `last.bin`.
fn sample_archive(kmp: &[u8]) -> Vec<u8> {
    let mut buf = Vec::new();
    put_u32(&mut buf, 0, 0x55AA_382D);
    put_u32(&mut buf, 4, 0x20);
    put_u32(&mut buf, 8, 0);
    put_u32(&mut buf, 12, 0);
    put_u32(&mut buf, 0x1c, 0);
    // Names, in the pool that follows the five nodes.
    let names: [&str; 5] = ["", "course.kmp", "sub", "inner.bin", "last.bin"];
    let mut pool = Vec::new();
    let mut name_offs = Vec::new();
    for n in names.iter() {
        name_offs.push(pool.len() as u32);
        pool.extend_from_slice(n.as_bytes());
        pool.push(0);
    }
    let pool_at = 0x20 + 5 * 12;
    let data_at = pool_at + pool.len();
    let inner = b"inner";
    let last = b"LAST";
    let kmp_at = data_at;
    let inner_at = kmp_at + kmp.len();
    let last_at = inner_at + inner.len();
    node(&mut buf, 0x20, 1, name_offs[0], 0, 5);
    node(&mut buf, 0x2c, 0, name_offs[1], kmp_at as u32, kmp.len() as u32);
    node(&mut buf, 0x38, 1, name_offs[2], 0, 4);
    node(&mut buf, 0x44, 0, name_offs[3], inner_at as u32, inner.len() as u32);
    node(&mut buf, 0x50, 0, name_offs[4], last_at as u32, last.len() as u32);
    buf.truncate(pool_at);
    buf.extend_from_slice(&pool);
    buf.extend_from_slice(kmp);
    buf.extend_from_slice(inner);
    buf.extend_from_slice(last);
    buf
}

fn file_of<'a>(dir: &'a DirectoryEntry, k: usize) -> &'a FileEntry {
    match &dir.children[k] {
        Entry::File(f) => f,
        Entry::Directory(_) => panic!("expected a file"),
    }
}

#[test]
fn szs() {
    let archive = sample_archive(b"KMPDATA");
    let packed = yaz0_literal(&archive);
    let file = parse_bytes(&packed);
    assert!(file.is_ok());
}

#[test]
fn szs_tree_has_the_archive_layout() {
    let archive = sample_archive(b"KMPDATA");
    let szs = parse_bytes(&yaz0_literal(&archive)).unwrap();
    assert_eq!(szs.root.name, "");
    assert_eq!(szs.root.children.len(), 3);
    let kmp = file_of(&szs.root, 0);
    assert_eq!(kmp.name, "course.kmp");
    assert_eq!(kmp.data, b"KMPDATA".to_vec());
    assert_eq!(kmp.size, 7);
    match &szs.root.children[1] {
        Entry::Directory(d) => {
            assert_eq!(d.name, "sub");
            assert_eq!(d.children.len(), 1);
            assert_eq!(file_of(d, 0).name, "inner.bin");
            assert_eq!(file_of(d, 0).data, b"inner".to_vec());
        }
        Entry::File(_) => panic!("expected a directory"),
    }
    assert_eq!(file_of(&szs.root, 2).data, b"LAST".to_vec());
    assert_eq!(szs.root.children[1].name(), "sub");
    assert_eq!(szs.root.children[2].name(), "last.bin");
}

#[test]
fn find_looks_into_subdirectories() {
    let archive = sample_archive(b"KMPDATA");
    let szs = parse_bytes(&yaz0_literal(&archive)).unwrap();
    assert_eq!(szs.root.find("course.kmp").unwrap().data, b"KMPDATA".to_vec());
    assert_eq!(szs.root.find("inner.bin").unwrap().data, b"inner".to_vec());
    assert_eq!(szs.root.find("last.bin").unwrap().size, 4);
    assert!(szs.root.find("sub").is_none());
    assert!(szs.root.find("missing.bin").is_none());
}

#[test]
fn yaz0_literal_bytes_come_back() {
    let plain: Vec<u8> = (0u8..20).collect();
    let y = Yaz0::decompress(&yaz0_literal(&plain)).unwrap();
    assert_eq!(y.decompressed_data, plain);
    assert_eq!(y.header.decompressed_size, 20);
    assert_eq!(&y.header.magic, b"Yaz0");
}

#[test]
fn yaz0_back_reference_copies_earlier_output() {
    // "ab" as literals, then a copy of length 6 from distance 2: "abababab".
    let mut data = b"Yaz0".to_vec();
    data.extend_from_slice(&8u32.to_be_bytes());
    data.extend_from_slice(&[0; 8]);
    data.push(0b1100_0000);
    data.extend_from_slice(b"ab");
    data.extend_from_slice(&[0x40, 0x01]);
    let y = Yaz0::decompress(&data).unwrap();
    assert_eq!(y.decompressed_data, b"abababab".to_vec());
}

#[test]
fn yaz0_long_back_reference_uses_third_byte() {
    // One literal, then a copy of 0x12 + 2 = 20 bytes from distance 1.
    let mut data = b"Yaz0".to_vec();
    data.extend_from_slice(&21u32.to_be_bytes());
    data.extend_from_slice(&[0; 8]);
    data.push(0b1000_0000);
    data.push(b'z');
    data.extend_from_slice(&[0x00, 0x00, 0x02]);
    let y = Yaz0::decompress(&data).unwrap();
    assert_eq!(y.decompressed_data, vec![b'z'; 21]);
}

#[test]
fn yaz0_output_may_overshoot_the_size_by_a_copy() {
    // Size 3, but the copy after one literal writes 3 more bytes.
    let mut data = b"Yaz0".to_vec();
    data.extend_from_slice(&3u32.to_be_bytes());
    data.extend_from_slice(&[0; 8]);
    data.push(0b1000_0000);
    data.push(b'q');
    data.extend_from_slice(&[0x30, 0x00]);
    let y = Yaz0::decompress(&data).unwrap();
    assert_eq!(y.decompressed_data.len(), 6);
    assert!(y.decompressed_data.len() >= y.header.decompressed_size as usize);
    assert!(y.decompressed_data.len() <= y.header.decompressed_size as usize + 0x110);
}

#[test]
fn yaz0_errors() {
    assert_eq!(Yaz0::decompress(b"Yaz1\0\0\0\x01\0\0\0\0\0\0\0\0\xff\x01").err(), Some(Error::InvalidMagic));
    assert_eq!(Yaz0::decompress(b"Ya").err(), Some(Error::OutOfBounds));
    assert_eq!(Yaz0::decompress(b"Yaz0\0\0\0\x05").err(), Some(Error::OutOfBounds));
    // Runs out of input before the size is reached.
    assert_eq!(Yaz0::decompress(&yaz0_literal(b"abc")[..18]).err(), Some(Error::OutOfBounds));
    // A copy from before the start of the output.
    let mut data = b"Yaz0".to_vec();
    data.extend_from_slice(&4u32.to_be_bytes());
    data.extend_from_slice(&[0; 8]);
    data.push(0x00);
    data.extend_from_slice(&[0x10, 0x00]);
    assert_eq!(Yaz0::decompress(&data).err(), Some(Error::InvalidDistance));
}

#[test]
fn empty_yaz0_stream_is_empty() {
    let y = Yaz0::decompress(&yaz0_literal(&[])).unwrap();
    assert!(y.decompressed_data.is_empty());
}

#[test]
fn archive_errors() {
    assert_eq!(Arc::new(&[0u8; 0x10]).err(), Some(Error::OutOfBounds));
    let mut archive = sample_archive(b"K");
    // A name without its terminating zero: cut the data after the pool's last name.
    let cut = 0x20 + 5 * 12 + 1 + 11 + 4 + 10 + 5;
    archive.truncate(cut);
    assert_eq!(Arc::new(&archive).err(), Some(Error::NoNullTerminator(26)));
    // A file whose data lies past the end.
    let mut archive = sample_archive(b"K");
    put_u32(&mut archive, 0x2c + 8, 1000);
    assert_eq!(Arc::new(&archive).err(), Some(Error::FileDataOutOfBounds { offset: 127, size: 1000, len: 137 }));
    // A root whose skip index goes past the table.
    let mut archive = sample_archive(b"K");
    put_u32(&mut archive, 0x38 + 8, 9);
    assert_eq!(Arc::new(&archive).err(), Some(Error::SkipIndexTooLarge { skip: 9, count: 5 }));
    // A directory whose skip index does not move past it.
    let mut archive = sample_archive(b"K");
    put_u32(&mut archive, 0x38 + 8, 2);
    assert_eq!(Arc::new(&archive).err(), Some(Error::SkipIndexNotAdvancing { skip: 2, index: 2 }));
    // A name that is not UTF-8.
    let mut archive = sample_archive(b"K");
    let pool_at = 0x20 + 5 * 12;
    archive[pool_at + 1] = 0xFF;
    assert_eq!(Arc::new(&archive).err(), Some(Error::InvalidUtf8));
}

#[test]
fn node_types() {
    assert_eq!(NodeType::from_u8(0), NodeType::File);
    assert_eq!(NodeType::from_u8(1), NodeType::Directory);
    assert_eq!(NodeType::from_u8(2), NodeType::Unknown);
    assert_eq!(NodeType::from_u8(0xFF), NodeType::Unknown);
}

fn parsed(kind: NodeType, name: &str, a: u32, b: u32) -> ParsedNode {
    ParsedNode { node_type: kind, name: name.to_string(), data_offset_or_parent_idx: a, size_or_skip_idx: b }
}

#[test]
fn build_dir_skips_unknown_nodes() {
    let data = b"0123456789".to_vec();
    let nodes = vec![
        parsed(NodeType::Directory, "root", 0, 3),
        parsed(NodeType::Unknown, "odd", 0, 0),
        parsed(NodeType::File, "f", 2, 3),
    ];
    let (dir, end) = Arc::build_dir(&nodes, &data, 0).unwrap();
    assert_eq!(end, 3);
    assert_eq!(dir.name, "root");
    assert_eq!(dir.children.len(), 1);
    assert_eq!(file_of(&dir, 0).data, b"234".to_vec());
    let tree = Arc::build_tree(nodes, &data).unwrap();
    assert_eq!(tree.children.len(), 1);
}

#[test]
fn build_dir_errors() {
    let data = b"0123".to_vec();
    let nodes = vec![parsed(NodeType::Directory, "root", 0, 1)];
    assert_eq!(Arc::build_dir(&nodes, &data, 1).err(), Some(Error::NodeIndexOutOfBounds { index: 1, len: 1 }));
    let nodes = vec![parsed(NodeType::Directory, "root", 0, 2)];
    assert_eq!(Arc::build_dir(&nodes, &data, 0).err(), Some(Error::SkipIndexTooLarge { skip: 2, count: 1 }));
    let nodes = vec![parsed(NodeType::Directory, "root", 0, 0)];
    assert_eq!(Arc::build_dir(&nodes, &data, 0).err(), Some(Error::SkipIndexNotAdvancing { skip: 0, index: 0 }));
    let nodes = vec![parsed(NodeType::Directory, "root", 0, 2), parsed(NodeType::File, "f", 3, 2)];
    assert_eq!(Arc::build_dir(&nodes, &data, 0).err(), Some(Error::FileDataOutOfBounds { offset: 3, size: 2, len: 4 }));
}

#[test]
fn szs_errors_come_from_both_layers() {
    assert_eq!(parse_bytes(b"no").err(), Some(Error::OutOfBounds));
    assert_eq!(parse_bytes(b"nope").err(), Some(Error::InvalidMagic));
    assert_eq!(parse_bytes(b"Yaz1\0\0\0\0\0\0\0\0\0\0\0\0").err(), Some(Error::InvalidMagic));
    assert_eq!(parse_bytes(&yaz0_literal(&[0u8; 8])).err(), Some(Error::OutOfBounds));
}

fn same_dir(a: &DirectoryEntry, b: &DirectoryEntry) -> bool {
    a.name == b.name
        && a.children.len() == b.children.len()
        && a.children.iter().zip(b.children.iter()).all(|(x, y)| match (x, y) {
            (Entry::File(f), Entry::File(g)) => f.name == g.name && f.data == g.data && f.size == g.size,
            (Entry::Directory(d), Entry::Directory(e)) => same_dir(d, e),
            _ => false,
        })
}

#[test]
fn szs_root_is_the_archive_tree() {
    let archive = sample_archive(b"KMPDATA");
    let packed = yaz0_literal(&archive);
    let szs = parse_bytes(&packed).unwrap();
    let y = Yaz0::decompress(&packed).unwrap();
    let arc = Arc::new(&y.decompressed_data).unwrap();
    assert!(same_dir(&szs.root, &arc.tree));
    let nodes = vec![
        parsed(NodeType::Directory, "", 0, 5),
        parsed(NodeType::File, "course.kmp", 0x20 + 5 * 12 + 35, 7),
        parsed(NodeType::Directory, "sub", 0, 4),
        parsed(NodeType::File, "inner.bin", 0x20 + 5 * 12 + 35 + 7, 5),
        parsed(NodeType::File, "last.bin", 0x20 + 5 * 12 + 35 + 12, 4),
    ];
    let built = Arc::build_tree(nodes, &archive).unwrap();
    assert!(same_dir(&built, &arc.tree));
}
