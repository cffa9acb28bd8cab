//! The U8 archive ("ARC") inside an `.szs` file: a flat table of nodes that a
//! directory tree is rebuilt from.
use vstd::prelude::*;
use crate::binary::{lemma_u24_keeps_low_bits, 
    within, be_u32, u24, u24_bytes, u24_value, fits, get_u8, get_u32, read, cstring_outcome,
    AsciiString, str_eq,
};
use crate::error::Error;

verus! {

/// The thirty-two-byte header of an archive.
pub struct Header {
    pub magic: u32,
    pub first_node_offset: i32,
    pub nodes_size: i32,
    pub data_offset: i32,
    pub _reserved: [i32; 4],
}

impl Header {
    /// The fields of `self` are those stored at `offset` of `data`.
    pub open spec fn read_from(self, data: Seq<u8>, offset: int) -> bool {
        &&& self.magic == be_u32(data, offset)
        &&& self.first_node_offset == be_u32(data, offset + 4) as i32
        &&& self.nodes_size == be_u32(data, offset + 8) as i32
        &&& self.data_offset == be_u32(data, offset + 12) as i32
        &&& self._reserved@ == seq![
            be_u32(data, offset + 16) as i32,
            be_u32(data, offset + 20) as i32,
            be_u32(data, offset + 24) as i32,
            be_u32(data, offset + 28) as i32,
        ]
    }

    /// Reads the header at `offset`.
    pub fn new(data: &[u8], offset: usize) -> (r: Result<Self, Error>)
        ensures
            within(data@, offset as int, 0x20) ==> (r matches Ok(h) && h.read_from(data@, offset as int)),
            !within(data@, offset as int, 0x20) ==> r == Err::<Header, Error>(Error::OutOfBounds),
    {
        if !fits(data, offset, 0x20) {
            return Err(Error::OutOfBounds);
        }
        let r0 = get_u32(data, offset + 0x10) as i32;
        let r1 = get_u32(data, offset + 0x14) as i32;
        let r2 = get_u32(data, offset + 0x18) as i32;
        let r3 = get_u32(data, offset + 0x1c) as i32;
        let _reserved = [r0, r1, r2, r3];
        assert(_reserved@ =~= seq![r0, r1, r2, r3]);
        Ok(Header {
            magic: get_u32(data, offset),
            first_node_offset: get_u32(data, offset + 4) as i32,
            nodes_size: get_u32(data, offset + 8) as i32,
            data_offset: get_u32(data, offset + 12) as i32,
            _reserved,
        })
    }
}

/// What a node stands for.
#[derive(Copy, Clone, Debug, PartialEq, Eq, Structural)]
pub enum NodeType {
    File,
    Directory,
    Unknown,
}

/// The node type that a type byte names.
pub open spec fn node_type_of(value: u8) -> NodeType {
    if value == 0 {
        NodeType::File
    } else if value == 1 {
        NodeType::Directory
    } else {
        NodeType::Unknown
    }
}

impl NodeType {
    /// The node type that a type byte names: 0 a file, 1 a directory.
    pub fn from_u8(value: u8) -> (r: Self)
        ensures
            r == node_type_of(value),
    {
        match value {
            0x00 => NodeType::File,
            0x01 => NodeType::Directory,
            _ => NodeType::Unknown,
        }
    }
}

/// A twelve-byte entry of the node table.
#[derive(Copy, Clone)]
pub struct Node {
    pub node_type: NodeType,
    pub filename_offset: u24,
    /// For a file, where its data begins; for a directory, the index of its parent.
    pub data_offset_or_parent_idx: u32,
    /// For a file, the size of its data; for a directory, the index of the first
    /// node that is not part of it.
    pub size_or_skip_idx: u32,
}

impl Node {
    /// The fields of `self` are those stored at `offset` of `data`.
    pub open spec fn read_from(self, data: Seq<u8>, offset: int) -> bool {
        &&& self.node_type == node_type_of(data[offset])
        &&& self.filename_offset.bytes() == u24_bytes(be_u32(data, offset))
        &&& self.data_offset_or_parent_idx == be_u32(data, offset + 4)
        &&& self.size_or_skip_idx == be_u32(data, offset + 8)
    }

    /// Reads the node at `offset`. The top byte of the first word is the type, the
    /// low three bytes the offset of the name in the string pool.
    pub fn new(data: &[u8], offset: usize) -> (r: Result<Self, Error>)
        ensures
            within(data@, offset as int, 12) ==> (r matches Ok(n) && n.read_from(data@, offset as int)),
            !within(data@, offset as int, 12) ==> r == Err::<Node, Error>(Error::OutOfBounds),
    {
        if !fits(data, offset, 12) {
            return Err(Error::OutOfBounds);
        }
        Ok(Node {
            node_type: NodeType::from_u8(get_u8(data, offset)),
            filename_offset: u24::from_u32(get_u32(data, offset)),
            data_offset_or_parent_idx: get_u32(data, offset + 4),
            size_or_skip_idx: get_u32(data, offset + 8),
        })
    }
}

/// A node of the table together with its name.
pub struct ParsedNode {
    pub node_type: NodeType,
    pub name: String,
    pub data_offset_or_parent_idx: u32,
    pub size_or_skip_idx: u32,
}

/// What a parsed node holds, with its name as text.
pub struct NodeInfo {
    pub node_type: NodeType,
    pub name: Seq<char>,
    pub data_offset_or_parent_idx: u32,
    pub size_or_skip_idx: u32,
}

impl View for ParsedNode {
    type V = NodeInfo;

    open spec fn view(&self) -> NodeInfo {
        NodeInfo {
            node_type: self.node_type,
            name: self.name@,
            data_offset_or_parent_idx: self.data_offset_or_parent_idx,
            size_or_skip_idx: self.size_or_skip_idx,
        }
    }
}

/// The views of a sequence of parsed nodes.
pub open spec fn infos_of(nodes: Seq<ParsedNode>) -> Seq<NodeInfo> {
    nodes.map_values(|n: ParsedNode| n@)
}

/// A file of the archive.
pub struct FileEntry {
    pub name: String,
    pub data: Vec<u8>,
    pub size: u32,
}

/// A directory of the archive.
pub struct DirectoryEntry {
    pub name: String,
    pub children: Vec<Entry>,
}

/// A file or a directory.
pub enum Entry {
    File(FileEntry),
    Directory(DirectoryEntry),
}

impl Entry {
    /// The name of the file or directory.
    pub open spec fn spec_name(self) -> Seq<char> {
        match self {
            Entry::File(f) => f.name@,
            Entry::Directory(d) => d.name@,
        }
    }

    /// The name of the file or directory.
    pub fn name(&self) -> (r: &str)
        ensures
            r@ == self.spec_name(),
    {
        match self {
            Entry::File(f) => f.name.as_str(),
            Entry::Directory(d) => d.name.as_str(),
        }
    }
}

// ---------------------------------------------------------------------------
// Rebuilding the tree from the node table.
// ---------------------------------------------------------------------------

/// Whether building the nodes `i..end` as children of one directory fails, and
/// with which error. A file node needs its data range inside `data`; a directory
/// node needs a skip index past itself and inside the table, and its own children
/// are the nodes up to its skip index, after which building goes on there; nodes
/// of unknown type are passed over.
pub open spec fn children_outcome(nodes: Seq<NodeInfo>, data: Seq<u8>, i: int, end: int) -> Result<(), Error>
    decreases nodes.len() - i,
{
    if !(0 <= i < end && end <= nodes.len()) {
        Ok(())
    } else {
        let node = nodes[i];
        match node.node_type {
            NodeType::File => {
                if !within(data, node.data_offset_or_parent_idx as int, node.size_or_skip_idx as int) {
                    Err(Error::FileDataOutOfBounds {
                        offset: node.data_offset_or_parent_idx,
                        size: node.size_or_skip_idx,
                        len: data.len() as usize,
                    })
                } else {
                    children_outcome(nodes, data, i + 1, end)
                }
            },
            NodeType::Directory => {
                let skip = node.size_or_skip_idx as int;
                if skip > nodes.len() {
                    Err(Error::SkipIndexTooLarge { skip: skip as usize, count: nodes.len() as usize })
                } else if skip <= i {
                    Err(Error::SkipIndexNotAdvancing { skip: skip as usize, index: i as usize })
                } else {
                    match children_outcome(nodes, data, i + 1, skip) {
                        Err(e) => Err(e),
                        Ok(()) => children_outcome(nodes, data, skip, end),
                    }
                }
            },
            NodeType::Unknown => children_outcome(nodes, data, i + 1, end),
        }
    }
}

/// Whether building the directory at node `index` fails, and with which error.
pub open spec fn dir_outcome(nodes: Seq<NodeInfo>, data: Seq<u8>, index: int) -> Result<(), Error> {
    if !(0 <= index < nodes.len()) {
        Err(Error::NodeIndexOutOfBounds { index: index as usize, len: nodes.len() as usize })
    } else {
        let end = nodes[index].size_or_skip_idx as int;
        if end > nodes.len() {
            Err(Error::SkipIndexTooLarge { skip: end as usize, count: nodes.len() as usize })
        } else if end <= index {
            Err(Error::SkipIndexNotAdvancing { skip: end as usize, index: index as usize })
        } else {
            children_outcome(nodes, data, index + 1, end)
        }
    }
}

/// `f` is the file that node `node` describes: its name, and the bytes of `data`
/// in its range.
pub open spec fn file_built(node: NodeInfo, data: Seq<u8>, f: FileEntry) -> bool {
    let start = node.data_offset_or_parent_idx as int;
    let size = node.size_or_skip_idx as int;
    &&& f.name@ == node.name
    &&& f.data@ == data.subrange(start, start + size)
    &&& f.size == node.size_or_skip_idx
}

/// `children` are the entries built from the nodes `i..end`, in table order, each
/// directory holding the entries built from the nodes up to its skip index.
pub open spec fn children_built(
    nodes: Seq<NodeInfo>,
    data: Seq<u8>,
    i: int,
    end: int,
    children: Seq<Entry>,
) -> bool
    decreases nodes.len() - i,
{
    if !(0 <= i < end && end <= nodes.len()) {
        children.len() == 0
    } else {
        let node = nodes[i];
        match node.node_type {
            NodeType::File => {
                &&& children.len() >= 1
                &&& children[0] matches Entry::File(f) && file_built(node, data, f)
                &&& children_built(nodes, data, i + 1, end, children.drop_first())
            },
            NodeType::Directory => {
                let skip = node.size_or_skip_idx as int;
                if skip > nodes.len() || skip <= i {
                    false
                } else {
                    &&& children.len() >= 1
                    &&& children[0] matches Entry::Directory(d) && d.name@ == node.name
                        && children_built(nodes, data, i + 1, skip, d.children@)
                    &&& children_built(nodes, data, skip, end, children.drop_first())
                }
            },
            NodeType::Unknown => children_built(nodes, data, i + 1, end, children),
        }
    }
}

/// `d` is the directory built from node `index`.
pub open spec fn dir_built(nodes: Seq<NodeInfo>, data: Seq<u8>, index: int, d: DirectoryEntry) -> bool {
    &&& d.name@ == nodes[index].name
    &&& children_built(nodes, data, index + 1, nodes[index].size_or_skip_idx as int, d.children@)
}

/// Whether the entries `a` and `b` hold the same tree: the same files (name,
/// bytes, size) and the same directories, in the same order.
pub open spec fn same_entries(a: Seq<Entry>, b: Seq<Entry>) -> bool
    decreases a,
{
    if a.len() == 0 {
        b.len() == 0
    } else {
        &&& b.len() > 0
        &&& match a[0] {
            Entry::File(f) => b[0] matches Entry::File(g) && f.name@ == g.name@ && f.data@ == g.data@
                && f.size == g.size,
            Entry::Directory(d) => b[0] matches Entry::Directory(e) && d.name@ == e.name@ && same_entries(
                d.children@,
                e.children@,
            ),
        }
        &&& same_entries(a.drop_first(), b.drop_first())
    }
}

/// Whether the directories `a` and `b` hold the same tree.
pub open spec fn same_dir(a: DirectoryEntry, b: DirectoryEntry) -> bool {
    a.name@ == b.name@ && same_entries(a.children@, b.children@)
}

/// The entries built from a run of nodes are determined by the nodes.
pub proof fn lemma_children_built_unique(
    nodes: Seq<NodeInfo>,
    data: Seq<u8>,
    i: int,
    end: int,
    c1: Seq<Entry>,
    c2: Seq<Entry>,
)
    requires
        children_built(nodes, data, i, end, c1),
        children_built(nodes, data, i, end, c2),
    ensures
        same_entries(c1, c2),
    decreases nodes.len() - i,
{
    if 0 <= i < end && end <= nodes.len() {
        let node = nodes[i];
        match node.node_type {
            NodeType::File => {
                lemma_children_built_unique(nodes, data, i + 1, end, c1.drop_first(), c2.drop_first());
            },
            NodeType::Directory => {
                let skip = node.size_or_skip_idx as int;
                let d = c1[0]->Directory_0;
                let e = c2[0]->Directory_0;
                lemma_children_built_unique(nodes, data, i + 1, skip, d.children@, e.children@);
                lemma_children_built_unique(nodes, data, skip, end, c1.drop_first(), c2.drop_first());
            },
            NodeType::Unknown => {
                lemma_children_built_unique(nodes, data, i + 1, end, c1, c2);
            },
        }
    }
}

/// The directory built from a node is determined by the nodes: two directories
/// built from the same node hold the same tree.
pub proof fn lemma_dir_built_unique(nodes: Seq<NodeInfo>, data: Seq<u8>, index: int, a: DirectoryEntry, b: DirectoryEntry)
    requires
        dir_built(nodes, data, index, a),
        dir_built(nodes, data, index, b),
    ensures
        same_dir(a, b),
{
    lemma_children_built_unique(nodes, data, index + 1, nodes[index].size_or_skip_idx as int, a.children@, b.children@);
}

// ---------------------------------------------------------------------------
// Reading a whole archive.
// ---------------------------------------------------------------------------

/// Where the node table starts: the header's word at 4, taken as a signed number
/// and then as an unsigned offset.
pub open spec fn first_node_at(data: Seq<u8>) -> int {
    ((be_u32(data, 4) as i32) as usize) as int
}

/// How many nodes the table holds: the skip index of the root node.
pub open spec fn table_len(data: Seq<u8>) -> int {
    be_u32(data, first_node_at(data) + 8) as int
}

/// Where node `i` is stored.
pub open spec fn node_at(data: Seq<u8>, i: int) -> int {
    first_node_at(data) + 12 * i
}

/// The string pool: every byte after the node table.
pub open spec fn pool_of(data: Seq<u8>) -> Seq<u8> {
    data.subrange(node_at(data, table_len(data)), data.len() as int)
}

/// Where the name of node `i` starts in the string pool: the low three bytes of
/// its first word.
pub open spec fn name_offset(data: Seq<u8>, i: int) -> int {
    u24_value(u24_bytes(be_u32(data, node_at(data, i))))
}

/// The first error met when reading the names of nodes `0..k`, in table order.
pub open spec fn names_outcome(data: Seq<u8>, k: int) -> Result<(), Error>
    decreases k,
{
    if k <= 0 {
        Ok(())
    } else {
        match names_outcome(data, k - 1) {
            Err(e) => Err(e),
            Ok(()) => match cstring_outcome(pool_of(data), name_offset(data, k - 1)) {
                Err(e) => Err(e),
                Ok(_) => Ok(()),
            },
        }
    }
}

/// What node `i` of the table holds, with its name read from the pool.
pub open spec fn node_info(data: Seq<u8>, i: int) -> NodeInfo {
    NodeInfo {
        node_type: node_type_of(data[node_at(data, i)]),
        name: match cstring_outcome(pool_of(data), name_offset(data, i)) {
            Ok(t) => t,
            Err(_) => Seq::empty(),
        },
        data_offset_or_parent_idx: be_u32(data, node_at(data, i) + 4),
        size_or_skip_idx: be_u32(data, node_at(data, i) + 8),
    }
}

/// The whole node table.
pub open spec fn node_infos(data: Seq<u8>) -> Seq<NodeInfo> {
    Seq::new(table_len(data) as nat, |i: int| node_info(data, i))
}

/// Whether reading the archive `data` fails, and with which error: the header,
/// the root node, every node of the table, every name, then the tree.
pub open spec fn arc_outcome(data: Seq<u8>) -> Result<(), Error> {
    if !within(data, 0, 0x20) {
        Err(Error::OutOfBounds)
    } else if !within(data, first_node_at(data), 12) {
        Err(Error::OutOfBounds)
    } else if !within(data, first_node_at(data), 12 * table_len(data)) {
        Err(Error::OutOfBounds)
    } else {
        match names_outcome(data, table_len(data)) {
            Err(e) => Err(e),
            Ok(()) => dir_outcome(node_infos(data), data, 0),
        }
    }
}

/// Once reading the names has failed, reading more of them fails the same way.
pub proof fn lemma_names_outcome_sticks(data: Seq<u8>, j: int, k: int)
    requires
        0 <= j <= k,
        names_outcome(data, j) is Err,
    ensures
        names_outcome(data, k) == names_outcome(data, j),
    decreases k - j,
{
    if j < k {
        lemma_names_outcome_sticks(data, j, k - 1);
    }
}

/// The tree that reading an archive gives is the one that rebuilding the tree
/// from the archive's own parsed nodes gives.
pub proof fn lemma_archive_tree_is_built_tree(data: Seq<u8>, nodes: Seq<ParsedNode>, tree: DirectoryEntry, built: DirectoryEntry)
    requires
        dir_built(node_infos(data), data, 0, tree),
        infos_of(nodes) == node_infos(data),
        dir_built(infos_of(nodes), data, 0, built),
    ensures
        same_dir(tree, built),
{
    lemma_dir_built_unique(node_infos(data), data, 0, tree, built);
}

/// An archive header holds, as big-endian words, its magic at 0, the offset of
/// the node table at 4, the size of the nodes at 8 and the offset of the file
/// data at 0x0C, followed by four reserved words.
pub proof fn lemma_arc_header_layout(h: Header, data: Seq<u8>, offset: int)
    requires
        h.read_from(data, offset),
    ensures
        h.magic == be_u32(data, offset),
        h.first_node_offset == be_u32(data, offset + 4) as i32,
        h.nodes_size == be_u32(data, offset + 8) as i32,
        h.data_offset == be_u32(data, offset + 0x0C) as i32,
        h._reserved@.len() == 4,
        forall|k: int| 0 <= k < 4 ==> #[trigger] h._reserved@[k] == be_u32(data, offset + 0x10 + 4 * k) as i32,
{
    assert(h._reserved@[0] == be_u32(data, offset + 0x10) as i32);
    assert(h._reserved@[1] == be_u32(data, offset + 0x14) as i32);
    assert(h._reserved@[2] == be_u32(data, offset + 0x18) as i32);
    assert(h._reserved@[3] == be_u32(data, offset + 0x1C) as i32);
}

/// A node of the table stores its type in its first byte (0 a file, 1 a
/// directory, anything else unknown), the offset of its name in the string pool
/// in the three bytes after it, then two big-endian words at 4 and 8: for a file
/// its data offset and size, for a directory its parent and skip index.
pub proof fn lemma_node_layout(n: Node, data: Seq<u8>, offset: int)
    requires
        n.read_from(data, offset),
        within(data, offset, 12),
    ensures
        (n.node_type == NodeType::File) == (data[offset] == 0),
        (n.node_type == NodeType::Directory) == (data[offset] == 1),
        u24_value(n.filename_offset.bytes()) == data[offset + 1] as int * 0x1_0000 + data[offset + 2] as int * 0x100
            + data[offset + 3] as int,
        n.data_offset_or_parent_idx == be_u32(data, offset + 4),
        n.size_or_skip_idx == be_u32(data, offset + 8),
{
    lemma_u24_keeps_low_bits(be_u32(data, offset));
    let w = be_u32(data, offset);
    let (b0, b1, b2, b3) = (data[offset], data[offset + 1], data[offset + 2], data[offset + 3]);
    assert(w % 0x100_0000 == b1 as int * 0x1_0000 + b2 as int * 0x100 + b3 as int) by (nonlinear_arith)
        requires
            w == b0 as int * 0x100_0000 + b1 as int * 0x1_0000 + b2 as int * 0x100 + b3 as int,
            b1 < 256,
            b2 < 256,
            b3 < 256,
    ;
}

/// An archive: its header and its directory tree.
pub struct Arc {
    pub header: Header,
    pub tree: DirectoryEntry,
}

impl Arc {
    /// Reads the archive `data` and rebuilds its directory tree.
    #[verifier::rlimit(40)]
    pub fn new(data: &[u8]) -> (r: Result<Self, Error>)
        ensures
            match arc_outcome(data@) {
                Ok(()) => r matches Ok(a) && a.header.read_from(data@, 0)
                    && dir_built(node_infos(data@), data@, 0, a.tree),
                Err(e) => r == Err::<Arc, Error>(e),
            },
    {
        let header = Header::new(data, 0)?;
        let first = header.first_node_offset as usize;
        let root = Node::new(data, first)?;
        let node_count = root.size_or_skip_idx as usize;
        let mut nodes: Vec<Node> = Vec::new();
        let mut offset = first;
        let mut k: usize = 0;
        while k < node_count
            invariant
                first == first_node_at(data@),
                node_count == table_len(data@),
                within(data@, first as int, 12),
                k <= node_count,
                offset == first + 12 * k,
                offset <= data.len(),
                within(data@, 0, 0x20),
                nodes@.len() == k,
                forall|j: int| 0 <= j < k ==> #[trigger] nodes@[j].read_from(data@, node_at(data@, j)),
            decreases node_count - k,
        {
            let node = Node::new(data, offset)?;
            nodes.push(node);
            offset = offset + 12;
            k = k + 1;
        }
        assert(within(data@, first as int, 12 * node_count));
        let string_pool = &data[offset..data.len()];
        assert(string_pool@ =~= pool_of(data@));
        let mut parsed: Vec<ParsedNode> = Vec::new();
        let mut k: usize = 0;
        while k < node_count
            invariant
                node_count == table_len(data@),
                nodes@.len() == node_count,
                forall|j: int| 0 <= j < node_count ==> #[trigger] nodes@[j].read_from(data@, node_at(data@, j)),
                string_pool@ == pool_of(data@),
                k <= node_count,
                parsed@.len() == k,
                names_outcome(data@, k as int) == Ok::<(), Error>(()),
                forall|j: int| 0 <= j < k ==> #[trigger] parsed@[j]@ == node_info(data@, j),
                within(data@, 0, 0x20),
                within(data@, first_node_at(data@), 12),
                within(data@, first_node_at(data@), 12 * table_len(data@)),
            decreases node_count - k,
        {
            let node = nodes[k];
            assert(node.read_from(data@, node_at(data@, k as int)));
            let name_at = node.filename_offset.to_u32() as usize;
            assert(name_at == name_offset(data@, k as int));
            let name_result = read::<AsciiString>(string_pool, name_at);
            match name_result {
                Ok(name) => {
                    parsed.push(ParsedNode {
                        node_type: node.node_type,
                        name: name.string,
                        data_offset_or_parent_idx: node.data_offset_or_parent_idx,
                        size_or_skip_idx: node.size_or_skip_idx,
                    });
                    k = k + 1;
                },
                Err(e) => {
                    proof {
                        lemma_names_outcome_sticks(data@, k + 1, node_count as int);
                    }
                    return Err(e);
                },
            }
        }
        assert(infos_of(parsed@) =~= node_infos(data@));
        let tree = Self::build_tree(parsed, data)?;
        Ok(Arc { header, tree })
    }

    /// Rebuilds the tree of the nodes of `nodes` from the root, node 0.
    pub fn build_tree(nodes: Vec<ParsedNode>, data: &[u8]) -> (r: Result<DirectoryEntry, Error>)
        ensures
            match dir_outcome(infos_of(nodes@), data@, 0) {
                Ok(()) => r matches Ok(d) && dir_built(infos_of(nodes@), data@, 0, d),
                Err(e) => r == Err::<DirectoryEntry, Error>(e),
            },
    {
        let (root, _) = Self::build_dir(nodes.as_slice(), data, 0)?;
        Ok(root)
    }

    /// Builds the directory at node `index`: its children are the nodes up to its
    /// skip index, which is returned with it.
    pub fn build_dir(nodes: &[ParsedNode], data: &[u8], index: usize) -> (r: Result<(DirectoryEntry, usize), Error>)
        ensures
            match dir_outcome(infos_of(nodes@), data@, index as int) {
                Ok(()) => r matches Ok((d, e)) && e == nodes@[index as int].size_or_skip_idx
                    && dir_built(infos_of(nodes@), data@, index as int, d),
                Err(err) => r == Err::<(DirectoryEntry, usize), Error>(err),
            },
        decreases nodes@.len() - index,
    {
        let ghost infos = infos_of(nodes@);
        if index >= nodes.len() {
            return Err(Error::NodeIndexOutOfBounds { index, len: nodes.len() });
        }
        let end = nodes[index].size_or_skip_idx as usize;
        if end > nodes.len() {
            return Err(Error::SkipIndexTooLarge { skip: end, count: nodes.len() });
        }
        if end <= index {
            return Err(Error::SkipIndexNotAdvancing { skip: end, index });
        }
        let mut children: Vec<Entry> = Vec::new();
        let mut i = index + 1;
        proof {
            assert forall|rest: Seq<Entry>|
                #![trigger children_built(infos, data@, i as int, end as int, rest)]
                children_built(infos, data@, i as int, end as int, rest)
                implies children_built(infos, data@, index + 1, end as int, children@ + rest) by {
                assert(children@ + rest =~= rest);
            }
        }
        while i < end
            invariant
                index < i <= nodes@.len(),
                index < end <= nodes@.len(),
                infos == infos_of(nodes@),
                infos.len() == nodes@.len(),
                end == nodes@[index as int].size_or_skip_idx,
                dir_outcome(infos, data@, index as int) == children_outcome(infos, data@, index + 1, end as int),
                children_outcome(infos, data@, index + 1, end as int)
                    == children_outcome(infos, data@, i as int, end as int),
                forall|rest: Seq<Entry>|
                    #![trigger children_built(infos, data@, i as int, end as int, rest)]
                    children_built(infos, data@, i as int, end as int, rest)
                    ==> children_built(infos, data@, index + 1, end as int, children@ + rest),
            decreases nodes@.len() - i,
        {
            let ghost before = children@;
            let ghost old_i = i as int;
            assert(infos[old_i] == nodes@[old_i]@);
            match nodes[i].node_type {
                NodeType::File => {
                    let start = nodes[i].data_offset_or_parent_idx as usize;
                    let size = nodes[i].size_or_skip_idx as usize;
                    if !fits(data, start, size) {
                        return Err(Error::FileDataOutOfBounds {
                            offset: nodes[i].data_offset_or_parent_idx,
                            size: nodes[i].size_or_skip_idx,
                            len: data.len(),
                        });
                    }
                    let bytes = vstd::slice::slice_to_vec(&data[start..start + size]);
                    let entry = Entry::File(FileEntry {
                        name: nodes[i].name.clone(),
                        data: bytes,
                        size: nodes[i].size_or_skip_idx,
                    });
                    let ghost g = entry;
                    children.push(entry);
                    i = i + 1;
                    proof {
                        assert forall|rest: Seq<Entry>|
                            #![trigger children_built(infos, data@, i as int, end as int, rest)]
                            children_built(infos, data@, i as int, end as int, rest)
                            implies children_built(infos, data@, index + 1, end as int, children@ + rest) by {
                            let r2 = seq![g] + rest;
                            assert(r2.drop_first() =~= rest);
                            assert(children_built(infos, data@, old_i, end as int, r2));
                            assert(before + r2 =~= children@ + rest);
                        }
                    }
                },
                NodeType::Directory => {
                    let (child, next) = Self::build_dir(nodes, data, i)?;
                    let entry = Entry::Directory(child);
                    let ghost g = entry;
                    children.push(entry);
                    i = next;
                    proof {
                        assert forall|rest: Seq<Entry>|
                            #![trigger children_built(infos, data@, i as int, end as int, rest)]
                            children_built(infos, data@, i as int, end as int, rest)
                            implies children_built(infos, data@, index + 1, end as int, children@ + rest) by {
                            let r2 = seq![g] + rest;
                            assert(r2.drop_first() =~= rest);
                            assert(children_built(infos, data@, old_i, end as int, r2));
                            assert(before + r2 =~= children@ + rest);
                        }
                    }
                },
                NodeType::Unknown => {
                    i = i + 1;
                    proof {
                        assert forall|rest: Seq<Entry>|
                            #![trigger children_built(infos, data@, i as int, end as int, rest)]
                            children_built(infos, data@, i as int, end as int, rest)
                            implies children_built(infos, data@, index + 1, end as int, children@ + rest) by {
                            assert(children_built(infos, data@, old_i, end as int, rest));
                        }
                    }
                },
            }
        }
        proof {
            assert(children_built(infos, data@, i as int, end as int, Seq::<Entry>::empty()));
            assert(children@ + Seq::<Entry>::empty() =~= children@);
        }
        let name = nodes[index].name.clone();
        Ok((DirectoryEntry { name, children }, end))
    }
}

// ---------------------------------------------------------------------------
// Looking a file up by name.
// ---------------------------------------------------------------------------

/// The first file named `name` met when walking `children` from index `k` on:
/// files are compared as they come, and a directory is searched through before
/// its next sibling.
pub open spec fn find_in(children: Seq<Entry>, name: Seq<char>, k: int) -> Option<FileEntry>
    decreases children, children.len() - k,
{
    if !(0 <= k < children.len()) {
        None
    } else {
        match children[k] {
            Entry::File(f) => if f.name@ == name {
                Some(f)
            } else {
                find_in(children, name, k + 1)
            },
            Entry::Directory(d) => match find_in(d.children@, name, 0) {
                Some(f) => Some(f),
                None => find_in(children, name, k + 1),
            },
        }
    }
}

impl DirectoryEntry {
    /// The first file named `name` in this directory or below it, searching the
    /// children in order and each subdirectory before the next sibling.
    pub fn find(&self, name: &str) -> (r: Option<&FileEntry>)
        ensures
            match find_in(self.children@, name@, 0) {
                Some(f) => r matches Some(g) && *g == f,
                None => r is None,
            },
        decreases self,
    {
        let mut k: usize = 0;
        while k < self.children.len()
            invariant
                k <= self.children@.len(),
                find_in(self.children@, name@, 0) == find_in(self.children@, name@, k as int),
            decreases self.children@.len() - k,
        {
            match &self.children[k] {
                Entry::File(file) => {
                    if str_eq(file.name.as_str(), name) {
                        return Some(file);
                    }
                },
                Entry::Directory(subdir) => {
                    if let Some(found) = subdir.find(name) {
                        return Some(found);
                    }
                },
            }
            k = k + 1;
        }
        None
    }
}

/// Whether a file named `name` lies among `children` from index `k` on, at any
/// depth.
pub open spec fn has_file(children: Seq<Entry>, name: Seq<char>, k: int) -> bool
    decreases children, children.len() - k,
{
    if !(0 <= k < children.len()) {
        false
    } else {
        (match children[k] {
            Entry::File(f) => f.name@ == name,
            Entry::Directory(d) => has_file(d.children@, name, 0),
        }) || has_file(children, name, k + 1)
    }
}

/// A lookup by name finds a file exactly when a file of that name lies in the
/// tree, and the file it finds carries that name.
pub proof fn lemma_find_sound_and_complete(children: Seq<Entry>, name: Seq<char>, k: int)
    ensures
        find_in(children, name, k) is Some <==> has_file(children, name, k),
        find_in(children, name, k) matches Some(f) ==> f.name@ == name,
    decreases children, children.len() - k,
{
    if 0 <= k < children.len() {
        match children[k] {
            Entry::File(f) => {
                lemma_find_sound_and_complete(children, name, k + 1);
            },
            Entry::Directory(d) => {
                lemma_find_sound_and_complete(d.children@, name, 0);
                lemma_find_sound_and_complete(children, name, k + 1);
            },
        }
    }
}

} // verus!
