//! The resource archive (`.brres`): a header, a root section and a tree of index
//! groups that lead to the subfiles (models, textures, animations).
pub mod index_group;
pub mod mdl0;
pub mod subfile;
pub mod tex0;

use vstd::prelude::*;
use crate::binary::{within, be_u16, be_u32, utf8_text, fits, get_array, get_u16, get_u32, read, Endian};
use crate::brres::index_group::{applied, group_at, walk_entry, FromIndexGroup, GroupView, IndexHeader};
use crate::brres::subfile::{err_of, generated, model_short, subfile_header_outcome, SubFile};
use crate::error::Error;

verus! {

/// The bytes of a `.brres` file.
#[derive(Debug, Clone, Copy)]
pub struct RawBrres<'a> {
    data: &'a [u8],
}

impl<'a> RawBrres<'a> {
    /// The bytes.
    pub closed spec fn bytes(self) -> Seq<u8> {
        self.data@
    }

    /// A file holds at most `usize::MAX` bytes.
    pub proof fn lemma_len_fits(self)
        ensures
            self.bytes().len() <= usize::MAX,
    {
        assert(self.data@.len() == self.data.len());
    }

    /// Wraps the bytes of a file.
    pub fn new(data: &'a [u8]) -> (r: Self)
        ensures
            r.bytes() == data@,
    {
        Self { data }
    }

    /// The bytes themselves.
    pub fn data(&self) -> (r: &'a [u8])
        ensures
            r@ == self.bytes(),
    {
        self.data
    }

    /// The `size` bytes at `offset`, when they lie inside the file.
    pub fn slice(&self, offset: usize, size: usize) -> (r: Option<&'a [u8]>)
        ensures
            within(self.bytes(), offset as int, size as int) ==> (r matches Some(s)
                && s@ == self.bytes().subrange(offset as int, offset + size)),
            !within(self.bytes(), offset as int, size as int) ==> r is None,
            r is Some ==> offset + size <= usize::MAX,
    {
        if fits(self.data, offset, size) {
            Some(&self.data[offset..offset + size])
        } else {
            None
        }
    }
}

/// The four bytes `bres`.
pub open spec fn bres_magic() -> Seq<u8> {
    seq![0x62u8, 0x72u8, 0x65u8, 0x73u8]
}

/// The four bytes `root`.
pub open spec fn root_magic() -> Seq<u8> {
    seq![0x72u8, 0x6fu8, 0x6fu8, 0x74u8]
}

/// Whether the four bytes at `offset` are `magic`.
fn magic_is(data: &[u8], offset: usize, magic: &[u8; 4]) -> (r: bool)
    requires
        within(data@, offset as int, 4),
    ensures
        r == (data@.subrange(offset as int, offset + 4) == magic@),
{
    assert(offset + 4 <= data.len());
    let r = data[offset] == magic[0] && data[offset + 1] == magic[1] && data[offset + 2] == magic[2]
        && data[offset + 3] == magic[3];
    proof {
        if r {
            assert(data@.subrange(offset as int, offset + 4) =~= magic@);
        } else if data@.subrange(offset as int, offset + 4) == magic@ {
            assert(data@.subrange(offset as int, offset + 4)[0] == magic@[0]);
            assert(data@.subrange(offset as int, offset + 4)[1] == magic@[1]);
            assert(data@.subrange(offset as int, offset + 4)[2] == magic@[2]);
            assert(data@.subrange(offset as int, offset + 4)[3] == magic@[3]);
        }
    }
    r
}

/// The sixteen-byte header of a `.brres` file.
pub struct FileHeader {
    pub magic: String,
    pub byte_order: Endian,
    pub file_size: u32,
    pub root_offset: u16,
    pub num_sections: u16,
}

/// Whether reading the file header from the sixteen bytes `data` fails, and
/// with which error: the magic must decode and be `bres`.
pub open spec fn file_header_outcome(data: Seq<u8>) -> Result<(), Error> {
    if utf8_text(data, 0, 4) is None {
        Err(Error::InvalidUtf8)
    } else if data.subrange(0, 4) != bres_magic() {
        Err(Error::InvalidFileHeader)
    } else {
        Ok(())
    }
}

impl FileHeader {
    /// Whether the fields of `self` are those stored in the sixteen bytes `data`.
    /// The byte-order mark `FF FE` means little-endian, anything else big-endian.
    pub open spec fn read_from(self, data: Seq<u8>) -> bool {
        &&& utf8_text(data, 0, 4) == Some(self.magic@)
        &&& self.byte_order == (if data[4] == 0xff && data[5] == 0xfe {
            Endian::Little
        } else {
            Endian::Big
        })
        &&& self.file_size == be_u32(data, 0x8)
        &&& self.root_offset == be_u16(data, 0xc)
        &&& self.num_sections == be_u16(data, 0xe)
    }

    /// Reads the file header.
    pub fn new(data: &[u8; 0x10]) -> (r: Result<Self, Error>)
        ensures
            match file_header_outcome(data@) {
                Ok(()) => r matches Ok(h) && h.read_from(data@),
                Err(e) => r == Err::<FileHeader, Error>(e),
            },
    {
        let bytes = data.as_slice();
        let magic: String = read(bytes, 0x0)?;
        if !magic_is(bytes, 0, &[0x62, 0x72, 0x65, 0x73]) {
            return Err(Error::InvalidFileHeader);
        }
        let byte_order = if bytes[4] == 0xff && bytes[5] == 0xfe {
            Endian::Little
        } else {
            Endian::Big
        };
        Ok(FileHeader {
            magic,
            byte_order,
            file_size: get_u32(bytes, 0x8),
            root_offset: get_u16(bytes, 0xc),
            num_sections: get_u16(bytes, 0xe),
        })
    }
}

/// The eight-byte head of the root section.
pub struct RootHeader {
    pub magic: String,
    pub len_sections: u32,
    pub offset: usize,
}

/// Whether reading the root header from the eight bytes `data` fails, and with
/// which error: the magic must decode and be `root`.
pub open spec fn root_header_outcome(data: Seq<u8>) -> Result<(), Error> {
    if utf8_text(data, 0, 4) is None {
        Err(Error::InvalidUtf8)
    } else if data.subrange(0, 4) != root_magic() {
        Err(Error::InvalidRootHeader)
    } else {
        Ok(())
    }
}

impl RootHeader {
    /// Reads the root header, which was found at `offset` of the file.
    pub fn new(data: &[u8; 0x8], offset: usize) -> (r: Result<Self, Error>)
        ensures
            match root_header_outcome(data@) {
                Ok(()) => r matches Ok(h) && utf8_text(data@, 0, 4) == Some(h.magic@)
                    && h.len_sections == be_u32(data@, 4) && h.offset == offset,
                Err(e) => r == Err::<RootHeader, Error>(e),
            },
    {
        let bytes = data.as_slice();
        let magic: String = read(bytes, 0x0)?;
        if !magic_is(bytes, 0, &[0x72, 0x6f, 0x6f, 0x74]) {
            return Err(Error::InvalidRootHeader);
        }
        Ok(RootHeader { magic, len_sections: get_u32(bytes, 0x4), offset })
    }
}

/// A `.brres` file: its headers, its root index group, and its subfiles in the
/// order the walk of the root group met them.
pub struct Brres {
    pub file_header: Option<FileHeader>,
    pub root_header: Option<RootHeader>,
    pub root_index: Option<IndexHeader>,
    pub subfiles: Vec<SubFile>,
}

impl FromIndexGroup for Brres {
    /// Reading the header of the subfile at `offset` and adding the subfile at
    /// the end; a header that cannot be read changes nothing.
    open spec fn stores(prev: Self, next: Self, data: Seq<u8>, offset: u32, index: u16, r: Result<(), Error>) -> bool {
        match subfile_header_outcome(data, offset as int) {
            Err(e) => r == Err::<(), Error>(e) && next == prev,
            Ok(()) => {
                &&& r is Ok
                &&& next.file_header == prev.file_header
                &&& next.root_header == prev.root_header
                &&& next.root_index == prev.root_index
                &&& next.subfiles@.len() == prev.subfiles@.len() + 1
                &&& next.subfiles@.drop_last() == prev.subfiles@
                &&& next.subfiles@.last().header.read_from(data, offset as int)
                &&& next.subfiles@.last().file is None
            },
        }
    }

    open spec fn spec_is_subfile() -> bool {
        false
    }

    fn set_data(&mut self, brres: RawBrres, offset: u32, index: u16) -> (r: Result<(), Error>) {
        let s = SubFile::new(brres, offset as usize)?;
        self.subfiles.push(s);
        assert(self.subfiles@.drop_last() =~= old(self).subfiles@);
        Ok(())
    }

    fn is_subfile() -> (r: bool) {
        false
    }
}

/// Whether `b` holds nothing yet.
pub open spec fn empty_brres(b: Brres) -> bool {
    &&& b.file_header is None
    &&& b.root_header is None
    &&& b.root_index is None
    &&& b.subfiles@.len() == 0
}

/// Whether generating the contents of the subfile `s` can end with error `e`
/// (or succeed, for `None`).
pub open spec fn can_generate(s: SubFile, data: Seq<u8>, e: Option<Error>) -> bool {
    exists|n: SubFile| #[trigger] generated(s, n, data, e)
}

/// Whether generating the contents of the subfiles `prev` one after the other
/// stops with `e` at one of them: every earlier one succeeds.
pub open spec fn generation_fails(prev: Seq<SubFile>, data: Seq<u8>, e: Error) -> bool {
    exists|k: int|
        0 <= k < prev.len() && (forall|i: int| 0 <= i < k ==> #[trigger] can_generate(prev[i], data, None))
            && #[trigger] can_generate(prev[k], data, Some(e))
}

/// Whether `r` is what reading the walked file `b` gives: the contents of each
/// of its subfiles are generated in order, and the first that fails fails the
/// whole; otherwise the file comes back with its headers and root group set.
pub open spec fn subfiles_done(b: Brres, data: Seq<u8>, fh: Seq<u8>, ro: int, g: GroupView, r: Result<Brres, Error>) -> bool {
    match r {
        Err(e) => generation_fails(b.subfiles@, data, e),
        Ok(out) => {
            &&& out.file_header matches Some(h) && h.read_from(fh)
            &&& out.root_header matches Some(h) && utf8_text(data, ro, ro + 4) == Some(h.magic@)
                && h.len_sections == be_u32(data, ro + 4) && h.offset == ro
            &&& out.root_index matches Some(ix) && ix.view_group() == g
            &&& out.subfiles@.len() == b.subfiles@.len()
            &&& forall|i: int| 0 <= i < b.subfiles@.len() ==> #[trigger] generated(b.subfiles@[i], out.subfiles@[i], data, None)
        },
    }
}

/// What reading a whole `.brres` file gives: the sixteen-byte file header, the
/// root header at the root offset that it gives, the index group right after
/// the root header, the walk of that group that collects the subfiles, and the
/// contents of each subfile.
pub open spec fn brres_parsed(data: Seq<u8>, r: Result<Brres, Error>) -> bool {
    if !within(data, 0, 0x10) {
        r == Err::<Brres, Error>(Error::OutOfBounds)
    } else {
        let fh = data.subrange(0, 0x10);
        match file_header_outcome(fh) {
            Err(e) => r == Err::<Brres, Error>(e),
            Ok(()) => {
                let ro = be_u16(data, 0xc) as int;
                if !within(data, ro, 8) {
                    r == Err::<Brres, Error>(Error::OutOfBounds)
                } else {
                    match root_header_outcome(data.subrange(ro, ro + 8)) {
                        Err(e) => r == Err::<Brres, Error>(e),
                        Ok(()) => match group_at(data, ro + 8) {
                            Err(e) => r == Err::<Brres, Error>(e),
                            Ok(g) => {
                                let w = walk_entry(g.root, data, false, data.len());
                                exists|b0: Brres, b1: Brres, rw: Result<(), Error>|
                                    #![trigger applied(b0, b1, data, w.calls, w.stop, rw)]
                                    empty_brres(b0) && applied(b0, b1, data, w.calls, w.stop, rw) && match rw {
                                        Err(e) => r == Err::<Brres, Error>(e),
                                        Ok(_) => subfiles_done(b1, data, fh, ro, GroupView { root: w.entry, ..g }, r),
                                    }
                            },
                        },
                    }
                }
            },
        }
    }
}

/// Whether generating the contents of the subfiles `prev` one after the other,
/// every earlier one succeeding, reaches a model whose header can be read but
/// which lists fewer than four section offsets.
pub open spec fn generation_reaches_short_model(prev: Seq<SubFile>, data: Seq<u8>) -> bool {
    exists|k: int|
        0 <= k < prev.len() && (forall|i: int| 0 <= i < k ==> #[trigger] can_generate(prev[i], data, None))
            && #[trigger] model_short(prev[k], data)
}

/// Whether reading the whole file `data` gets as far as the subfiles and then
/// reaches such a model.
pub open spec fn brres_reaches_short_model(data: Seq<u8>) -> bool {
    let fh = data.subrange(0, 0x10);
    let ro = be_u16(data, 0xc) as int;
    &&& within(data, 0, 0x10)
    &&& file_header_outcome(fh) is Ok
    &&& within(data, ro, 8)
    &&& root_header_outcome(data.subrange(ro, ro + 8)) is Ok
    &&& group_at(data, ro + 8) is Ok
    &&& {
        let w = walk_entry(group_at(data, ro + 8)->Ok_0.root, data, false, data.len());
        exists|b0: Brres, b1: Brres, rw: Result<(), Error>|
            #![trigger applied(b0, b1, data, w.calls, w.stop, rw)]
            empty_brres(b0) && applied(b0, b1, data, w.calls, w.stop, rw) && rw is Ok
                && generation_reaches_short_model(b1.subfiles@, data)
    }
}

/// Reads a whole `.brres` file from its bytes. A model among its subfiles
/// whose header can be read must list the offsets of its vertex and normal
/// groups.
pub fn parse_data(data: &[u8]) -> (r: Result<Brres, Error>)
    requires
        !brres_reaches_short_model(data@),
    ensures
        brres_parsed(data@, r),
{
    match try_parse_data(data) {
        Some(r) => r,
        None => Err(Error::OutOfBounds),
    }
}

/// `parse_data` on any bytes: `None` where reading the subfiles in order reaches
/// a model whose header can be read but which lists fewer than four section
/// offsets, which `parse_data` may not be given.
pub fn try_parse_data(data: &[u8]) -> (r: Option<Result<Brres, Error>>)
    ensures
        r is None ==> brres_reaches_short_model(data@),
        r matches Some(res) ==> brres_parsed(data@, res),
{
    let brres_file = RawBrres::new(data);
    let ghost bytes = data@;
    let mut brres = Brres { file_header: None, root_header: None, root_index: None, subfiles: Vec::new() };
    let head = match brres_file.slice(0, 0x10) {
        Some(d) => d,
        None => {
            return Some(Err(Error::OutOfBounds));
        },
    };
    let head_arr: [u8; 0x10] = get_array(head, 0);
    assert(head_arr@ =~= bytes.subrange(0, 0x10));
    let file_header = match FileHeader::new(&head_arr) {
        Ok(h) => h,
        Err(e) => {
            return Some(Err(e));
        },
    };
    let ro = file_header.root_offset as usize;
    assert(be_u16(head_arr@, 0xc) == be_u16(bytes, 0xc));
    let rs = match brres_file.slice(ro, 0x8) {
        Some(d) => d,
        None => {
            return Some(Err(Error::OutOfBounds));
        },
    };
    let root_arr: [u8; 0x8] = get_array(rs, 0);
    assert(root_arr@ =~= bytes.subrange(ro as int, ro + 8));
    let root_header = match RootHeader::new(&root_arr, ro) {
        Ok(h) => h,
        Err(e) => {
            return Some(Err(e));
        },
    };
    proof {
        assert(utf8_text(root_arr@, 0, 4) == utf8_text(bytes, ro as int, ro + 4)) by {
            assert(root_arr@.subrange(0, 4) =~= bytes.subrange(ro as int, ro + 4));
        }
        assert(be_u32(root_arr@, 4) == be_u32(bytes, ro + 4));
    }
    let mut index_header = match IndexHeader::new(brres_file, root_header.offset + 0x8) {
        Ok(h) => h,
        Err(e) => {
            return Some(Err(e));
        },
    };
    let ghost g = index_header.view_group();
    let ghost b0 = brres;
    let rw = index_header.root.get_data(brres_file, &mut brres);
    let ghost b1 = brres;
    let ghost w = walk_entry(g.root, bytes, false, bytes.len());
    assert(applied(b0, b1, bytes, w.calls, w.stop, rw));
    if let Err(e) = rw {
        return Some(Err(e));
    }
    brres.file_header = Some(file_header);
    brres.root_header = Some(root_header);
    brres.root_index = Some(index_header);
    let ghost before = b1.subfiles@;
    let ghost heads = (brres.file_header, brres.root_header, brres.root_index);
    let mut i: usize = 0;
    while i < brres.subfiles.len()
        invariant
            before == b1.subfiles@,
            bytes == data@,
            within(bytes, 0, 0x10),
            file_header_outcome(bytes.subrange(0, 0x10)) is Ok,
            ro == be_u16(bytes, 0xc),
            within(bytes, ro as int, 8),
            root_header_outcome(bytes.subrange(ro as int, ro + 8)) is Ok,
            group_at(bytes, ro + 8) == Ok::<GroupView, Error>(g),
            w == walk_entry(g.root, bytes, false, bytes.len()),
            empty_brres(b0),
            applied(b0, b1, bytes, w.calls, w.stop, rw),
            rw is Ok,
            brres.file_header == heads.0,
            brres.root_header == heads.1,
            brres.root_index == heads.2,
            i <= brres.subfiles@.len(),
            brres.subfiles@.len() == before.len(),
            forall|j: int| 0 <= j < i ==> #[trigger] generated(before[j], brres.subfiles@[j], bytes, None),
            forall|j: int| i <= j < before.len() ==> #[trigger] brres.subfiles@[j] == before[j],
            brres_file.bytes() == bytes,
        decreases before.len() - i,
    {
        let ghost cur = brres.subfiles@;
        let s = &mut brres.subfiles[i];
        let res = match s.try_generate_subfile(brres_file) {
            Some(x) => x,
            None => {
                proof {
                    assert forall|j: int| 0 <= j < i implies #[trigger] can_generate(before[j], bytes, None) by {
                        assert(generated(before[j], cur[j], bytes, None));
                    }
                    assert(model_short(before[i as int], bytes));
                    assert(generation_reaches_short_model(b1.subfiles@, bytes));
                    assert(empty_brres(b0) && applied(b0, b1, bytes, w.calls, w.stop, rw) && rw is Ok
                        && generation_reaches_short_model(b1.subfiles@, bytes));
                }
                return None;
            },
        };
        assert(generated(before[i as int], brres.subfiles@[i as int], bytes, err_of(res)));
        if let Err(e) = res {
            proof {
                assert forall|j: int| 0 <= j < i implies #[trigger] can_generate(before[j], bytes, None) by {
                    assert(generated(before[j], cur[j], bytes, None));
                }
                assert(generated(before[i as int], brres.subfiles@[i as int], bytes, Some(e)));
                assert(can_generate(before[i as int], bytes, Some(e)));
                assert(generation_fails(b1.subfiles@, bytes, e));
                assert(empty_brres(b0) && applied(b0, b1, bytes, w.calls, w.stop, rw) && match rw {
                    Err(x) => Err::<Brres, Error>(e) == Err::<Brres, Error>(x),
                    Ok(_) => subfiles_done(b1, bytes, bytes.subrange(0, 0x10), ro as int, GroupView { root: w.entry, ..g }, Err(e)),
                });
            }
            return Some(Err(e));
        }
        i = i + 1;
    }
    proof {
        let gw = GroupView { root: w.entry, ..g };
        assert(subfiles_done(b1, bytes, bytes.subrange(0, 0x10), ro as int, gw, Ok::<Brres, Error>(brres)));
        assert(empty_brres(b0) && applied(b0, b1, bytes, w.calls, w.stop, rw) && match rw {
            Err(x) => Ok::<Brres, Error>(brres) == Err::<Brres, Error>(x),
            Ok(_) => subfiles_done(b1, bytes, bytes.subrange(0, 0x10), ro as int, gw, Ok::<Brres, Error>(brres)),
        });
    }
    Some(Ok(brres))
}

} // verus!
