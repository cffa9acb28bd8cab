//! The course layout (`.kmp`): fifteen sections of points, objects, areas,
//! cameras and stage information.
pub mod sections;
pub mod order;

use vstd::prelude::*;
use crate::binary::{within, be_u16, be_u32, utf8_text, fits, get_u16, get_u32, read};
use crate::error::Error;
use sections::{KmpEntry, PathGroup, Ktpt, Enpt, Itpt, Ckpt, Gobj, Poti, Area, Came, Jgpt, Cnpt, Mspt, Stgi};

verus! {

/// The sixteen-byte header of a `.kmp` file.
pub struct Header {
    pub magic: String,
    pub file_length: u32,
    pub section_count: u16,
    pub header_length: u16,
    pub version: u32,
}

/// Whether reading the file header fails, and with which error: the magic is read
/// and decoded first, then the rest of the sixteen bytes.
pub open spec fn header_outcome(data: Seq<u8>) -> Result<(), Error> {
    if !within(data, 0, 4) {
        Err(Error::OutOfBounds)
    } else if utf8_text(data, 0, 4) is None {
        Err(Error::InvalidUtf8)
    } else if !within(data, 0, 0x10) {
        Err(Error::OutOfBounds)
    } else {
        Ok(())
    }
}

impl Header {
    /// Whether the fields of `self` are those stored at the start of `data`.
    pub open spec fn read_from(self, data: Seq<u8>) -> bool {
        &&& utf8_text(data, 0, 4) == Some(self.magic@)
        &&& self.file_length == be_u32(data, 0x04)
        &&& self.section_count == be_u16(data, 0x08)
        &&& self.header_length == be_u16(data, 0x0A)
        &&& self.version == be_u32(data, 0x0C)
    }

    /// Reads the file header.
    pub fn parse(data: &[u8]) -> (r: Result<Self, Error>)
        ensures
            match header_outcome(data@) {
                Ok(()) => r matches Ok(h) && h.read_from(data@),
                Err(e) => r == Err::<Header, Error>(e),
            },
    {
        let magic: String = read(data, 0)?;
        if !fits(data, 0, 0x10) {
            return Err(Error::OutOfBounds);
        }
        Ok(Header {
            magic,
            file_length: get_u32(data, 0x04),
            section_count: get_u16(data, 0x08),
            header_length: get_u16(data, 0x0A),
            version: get_u32(data, 0x0C),
        })
    }
}

/// A section: a four-byte name, the number of entries, a value whose meaning
/// depends on the section, and the entries.
pub struct Section<T> {
    pub name: String,
    pub entry_count: u16,
    /// The POTI section stores the total number of points of all routes here. The CAME section stores different values. For all other sections, the value is 0 (padding).
    pub additional: u16,
    pub entries: Vec<T>,
}

/// Where entry `i` of the section at `offset` is stored.
pub open spec fn entry_at<T: KmpEntry>(offset: int, i: int) -> int {
    offset + 8 + T::SIZE * i
}

/// Whether reading the section of fixed-size entries at `offset` fails, and with
/// which error: the name is read and decoded, then the counts, then every entry.
pub open spec fn section_outcome<T: KmpEntry>(data: Seq<u8>, offset: int) -> Result<(), Error> {
    if !within(data, offset, 4) {
        Err(Error::OutOfBounds)
    } else if utf8_text(data, offset, offset + 4) is None {
        Err(Error::InvalidUtf8)
    } else if !within(data, offset, 8) {
        Err(Error::OutOfBounds)
    } else if !(forall|i: int|
        0 <= i < be_u16(data, offset + 4) ==> #[trigger] T::readable(data, entry_at::<T>(offset, i))) {
        Err(Error::OutOfBounds)
    } else {
        Ok(())
    }
}

/// A section of fixed-size entries reads well whenever its name is text and its
/// head and all the entries that its count announces lie inside the data.
pub proof fn lemma_section_reads_when_it_fits<T: KmpEntry>(data: Seq<u8>, offset: int)
    requires
        within(data, offset, 8 + T::SIZE * be_u16(data, offset + 4)),
        utf8_text(data, offset, offset + 4) is Some,
    ensures
        section_outcome::<T>(data, offset) is Ok,
{
    let n = be_u16(data, offset + 4) as int;
    assert(T::SIZE * n >= 0) by (nonlinear_arith)
        requires
            n >= 0,
    ;
    assert forall|i: int| 0 <= i < n implies #[trigger] T::readable(data, entry_at::<T>(offset, i)) by {
        assert(T::SIZE * i >= 0 && T::SIZE * i + T::SIZE <= T::SIZE * n) by (nonlinear_arith)
            requires
                0 <= i < n,
        ;
        T::lemma_fits_readable(data, entry_at::<T>(offset, i));
    }
}

impl<T: KmpEntry> Section<T> {
    /// Whether `self` holds the section of fixed-size entries stored at `offset`.
    pub open spec fn read_from(self, data: Seq<u8>, offset: int) -> bool {
        &&& utf8_text(data, offset, offset + 4) == Some(self.name@)
        &&& self.entry_count == be_u16(data, offset + 4)
        &&& self.additional == be_u16(data, offset + 6)
        &&& self.entries@.len() == self.entry_count
        &&& forall|i: int|
            0 <= i < self.entry_count ==> #[trigger] self.entries@[i].read_from(data, entry_at::<T>(offset, i))
    }

    /// Reads the section at `offset`; its entries follow the eight-byte head, one
    /// every `T::SIZE` bytes.
    pub fn parse(data: &[u8], offset: usize) -> (r: Result<Self, Error>)
        ensures
            match section_outcome::<T>(data@, offset as int) {
                Ok(()) => r matches Ok(s) && s.read_from(data@, offset as int),
                Err(e) => r == Err::<Section<T>, Error>(e),
            },
    {
        let name: String = read(data, offset)?;
        if !fits(data, offset, 8) {
            return Err(Error::OutOfBounds);
        }
        let entry_count = get_u16(data, offset + 4);
        let additional = get_u16(data, offset + 6);
        let mut entries: Vec<T> = Vec::with_capacity(entry_count as usize);
        let mut entry_offset: usize = offset + 8;
        let mut i: u16 = 0;
        while i < entry_count
            invariant
                i <= entry_count,
                within(data@, offset as int, 8),
                utf8_text(data@, offset as int, offset + 4) is Some,
                entry_count == be_u16(data@, offset + 4),
                i < entry_count ==> entry_offset == entry_at::<T>(offset as int, i as int),
                entries@.len() == i,
                forall|k: int| 0 <= k < i ==> #[trigger] T::readable(data@, entry_at::<T>(offset as int, k)),
                forall|k: int| 0 <= k < i ==> #[trigger] entries@[k].read_from(data@, entry_at::<T>(offset as int, k)),
            decreases entry_count - i,
        {
            let parsed = T::parse(data, entry_offset);
            let e = match parsed {
                Ok(e) => e,
                Err(err) => {
                    assert(!T::readable(data@, entry_at::<T>(offset as int, i as int)));
                    return Err(err);
                },
            };
            entries.push(e);
            i = i + 1;
            if i < entry_count {
                assert(T::SIZE * (i as int) == T::SIZE * (i - 1) + T::SIZE) by (nonlinear_arith);
                match entry_offset.checked_add(T::SIZE) {
                    Some(next) => {
                        entry_offset = next;
                    },
                    None => {
                        proof {
                            assert(data@.len() == data.len());
                            T::lemma_readable_inside(data@, entry_at::<T>(offset as int, i as int));
                            assert(!T::readable(data@, entry_at::<T>(offset as int, i as int)));
                        }
                        return Err(Error::OutOfBounds);
                    },
                }
            }
        }
        Ok(Section { name, entry_count, additional, entries })
    }
}

/// Where route `i` of the POTI section at `offset` starts: the first right after
/// the eight-byte head, each later one right after the one before.
pub open spec fn route_at(data: Seq<u8>, offset: int, i: nat) -> int
    decreases i,
{
    if i == 0 {
        offset + 8
    } else {
        route_at(data, offset, (i - 1) as nat) + Poti::size_at(data, route_at(data, offset, (i - 1) as nat))
    }
}

/// Whether reading the POTI section at `offset` fails, and with which error: the
/// name is read and decoded, then the counts, then every route.
pub open spec fn poti_section_outcome(data: Seq<u8>, offset: int) -> Result<(), Error> {
    if !within(data, offset, 4) {
        Err(Error::OutOfBounds)
    } else if utf8_text(data, offset, offset + 4) is None {
        Err(Error::InvalidUtf8)
    } else if !within(data, offset, 8) {
        Err(Error::OutOfBounds)
    } else if !(forall|i: nat|
        i < be_u16(data, offset + 4) ==> #[trigger] Poti::readable(data, route_at(data, offset, i))) {
        Err(Error::OutOfBounds)
    } else {
        Ok(())
    }
}

/// The POTI section, whose routes differ in length.
impl Section<Poti> {
    /// Whether `self` holds the POTI section stored at `offset`.
    pub open spec fn read_routes_from(self, data: Seq<u8>, offset: int) -> bool {
        &&& utf8_text(data, offset, offset + 4) == Some(self.name@)
        &&& self.entry_count == be_u16(data, offset + 4)
        &&& self.additional == be_u16(data, offset + 6)
        &&& self.entries@.len() == self.entry_count
        &&& forall|i: nat|
            i < self.entry_count ==> #[trigger] self.entries@[i as int].read_from(data, route_at(data, offset, i))
    }

    /// Reads the POTI section at `offset`; each route follows the one before.
    pub fn parse(data: &[u8], offset: usize) -> (r: Result<Self, Error>)
        ensures
            match poti_section_outcome(data@, offset as int) {
                Ok(()) => r matches Ok(s) && s.read_routes_from(data@, offset as int),
                Err(e) => r == Err::<Section<Poti>, Error>(e),
            },
    {
        let name: String = read(data, offset)?;
        if !fits(data, offset, 8) {
            return Err(Error::OutOfBounds);
        }
        let entry_count = get_u16(data, offset + 4);
        let additional = get_u16(data, offset + 6);
        let mut entries: Vec<Poti> = Vec::with_capacity(entry_count as usize);
        let mut entry_offset: usize = offset + 8;
        let mut i: u16 = 0;
        while i < entry_count
            invariant
                i <= entry_count,
                within(data@, offset as int, 8),
                utf8_text(data@, offset as int, offset + 4) is Some,
                entry_count == be_u16(data@, offset + 4),
                entry_offset == route_at(data@, offset as int, i as nat),
                entries@.len() == i,
                forall|k: nat| k < i ==> #[trigger] Poti::readable(data@, route_at(data@, offset as int, k)),
                forall|k: nat| k < i ==> #[trigger] entries@[k as int].read_from(data@, route_at(data@, offset as int, k)),
            decreases entry_count - i,
        {
            let parsed = Poti::parse(data, entry_offset);
            let (poti, size) = match parsed {
                Ok(p) => p,
                Err(err) => {
                    assert(!Poti::readable(data@, route_at(data@, offset as int, i as nat)));
                    return Err(err);
                },
            };
            entries.push(poti);
            assert(entry_offset + size <= data.len());
            assert(route_at(data@, offset as int, (i + 1) as nat) == entry_offset + size);
            entry_offset = entry_offset + size;
            i = i + 1;
            assert forall|k: nat| k < i implies #[trigger] entries@[k as int].read_from(
                data@,
                route_at(data@, offset as int, k),
            ) by {
            }
        }
        Ok(Section { name, entry_count, additional, entries })
    }
}

/// The four-byte name of section kind `k`, in the order of the fields of `Kmp`:
/// KTPT, ENPT, ENPH, ITPT, ITPH, CKPT, CKPH, GOBJ, POTI, AREA, CAME, JGPT, CNPT,
/// MSPT, STGI.
pub open spec fn section_name(k: int) -> Seq<u8> {
    if k == 0 {
        seq![0x4Bu8, 0x54u8, 0x50u8, 0x54u8]
    } else if k == 1 {
        seq![0x45u8, 0x4Eu8, 0x50u8, 0x54u8]
    } else if k == 2 {
        seq![0x45u8, 0x4Eu8, 0x50u8, 0x48u8]
    } else if k == 3 {
        seq![0x49u8, 0x54u8, 0x50u8, 0x54u8]
    } else if k == 4 {
        seq![0x49u8, 0x54u8, 0x50u8, 0x48u8]
    } else if k == 5 {
        seq![0x43u8, 0x4Bu8, 0x50u8, 0x54u8]
    } else if k == 6 {
        seq![0x43u8, 0x4Bu8, 0x50u8, 0x48u8]
    } else if k == 7 {
        seq![0x47u8, 0x4Fu8, 0x42u8, 0x4Au8]
    } else if k == 8 {
        seq![0x50u8, 0x4Fu8, 0x54u8, 0x49u8]
    } else if k == 9 {
        seq![0x41u8, 0x52u8, 0x45u8, 0x41u8]
    } else if k == 10 {
        seq![0x43u8, 0x41u8, 0x4Du8, 0x45u8]
    } else if k == 11 {
        seq![0x4Au8, 0x47u8, 0x50u8, 0x54u8]
    } else if k == 12 {
        seq![0x43u8, 0x4Eu8, 0x50u8, 0x54u8]
    } else if k == 13 {
        seq![0x4Du8, 0x53u8, 0x50u8, 0x54u8]
    } else {
        seq![0x53u8, 0x54u8, 0x47u8, 0x49u8]
    }
}

/// The kind of the section whose name is stored at `at`: the index of its name
/// among the fifteen, or 15 when it is none of them.
#[verifier::opaque]
pub open spec fn kind_at(data: Seq<u8>, at: int) -> int {
    let name = data.subrange(at, at + 4);
    if name == section_name(0) {
        0
    } else if name == section_name(1) {
        1
    } else if name == section_name(2) {
        2
    } else if name == section_name(3) {
        3
    } else if name == section_name(4) {
        4
    } else if name == section_name(5) {
        5
    } else if name == section_name(6) {
        6
    } else if name == section_name(7) {
        7
    } else if name == section_name(8) {
        8
    } else if name == section_name(9) {
        9
    } else if name == section_name(10) {
        10
    } else if name == section_name(11) {
        11
    } else if name == section_name(12) {
        12
    } else if name == section_name(13) {
        13
    } else if name == section_name(14) {
        14
    } else {
        15
    }
}

/// The kind of the section whose name is stored at `at`.
fn section_kind(data: &[u8], at: usize) -> (k: usize)
    requires
        within(data@, at as int, 4),
    ensures
        k == kind_at(data@, at as int),
        k <= 15,
{
    reveal(kind_at);
    assert(at + 4 <= data.len());
    let b0 = data[at];
    let b1 = data[at + 1];
    let b2 = data[at + 2];
    let b3 = data[at + 3];
    let ghost name = data@.subrange(at as int, at + 4);
    assert(name[0] == b0 && name[1] == b1 && name[2] == b2 && name[3] == b3);
    if b0 == 0x4B && b1 == 0x54 && b2 == 0x50 && b3 == 0x54 {
        assert(name =~= section_name(0));
        0
    } else if b0 == 0x45 && b1 == 0x4E && b2 == 0x50 && b3 == 0x54 {
        assert(name =~= section_name(1));
        1
    } else if b0 == 0x45 && b1 == 0x4E && b2 == 0x50 && b3 == 0x48 {
        assert(name =~= section_name(2));
        2
    } else if b0 == 0x49 && b1 == 0x54 && b2 == 0x50 && b3 == 0x54 {
        assert(name =~= section_name(3));
        3
    } else if b0 == 0x49 && b1 == 0x54 && b2 == 0x50 && b3 == 0x48 {
        assert(name =~= section_name(4));
        4
    } else if b0 == 0x43 && b1 == 0x4B && b2 == 0x50 && b3 == 0x54 {
        assert(name =~= section_name(5));
        5
    } else if b0 == 0x43 && b1 == 0x4B && b2 == 0x50 && b3 == 0x48 {
        assert(name =~= section_name(6));
        6
    } else if b0 == 0x47 && b1 == 0x4F && b2 == 0x42 && b3 == 0x4A {
        assert(name =~= section_name(7));
        7
    } else if b0 == 0x50 && b1 == 0x4F && b2 == 0x54 && b3 == 0x49 {
        assert(name =~= section_name(8));
        8
    } else if b0 == 0x41 && b1 == 0x52 && b2 == 0x45 && b3 == 0x41 {
        assert(name =~= section_name(9));
        9
    } else if b0 == 0x43 && b1 == 0x41 && b2 == 0x4D && b3 == 0x45 {
        assert(name =~= section_name(10));
        10
    } else if b0 == 0x4A && b1 == 0x47 && b2 == 0x50 && b3 == 0x54 {
        assert(name =~= section_name(11));
        11
    } else if b0 == 0x43 && b1 == 0x4E && b2 == 0x50 && b3 == 0x54 {
        assert(name =~= section_name(12));
        12
    } else if b0 == 0x4D && b1 == 0x53 && b2 == 0x50 && b3 == 0x54 {
        assert(name =~= section_name(13));
        13
    } else if b0 == 0x53 && b1 == 0x54 && b2 == 0x47 && b3 == 0x49 {
        assert(name =~= section_name(14));
        14
    } else {
        assert(name[0] != section_name(0)[0] || name[1] != section_name(0)[1] || name[2] != section_name(0)[2] || name[3] != section_name(0)[3]);
        assert(name[0] != section_name(1)[0] || name[1] != section_name(1)[1] || name[2] != section_name(1)[2] || name[3] != section_name(1)[3]);
        assert(name[0] != section_name(2)[0] || name[1] != section_name(2)[1] || name[2] != section_name(2)[2] || name[3] != section_name(2)[3]);
        assert(name[0] != section_name(3)[0] || name[1] != section_name(3)[1] || name[2] != section_name(3)[2] || name[3] != section_name(3)[3]);
        assert(name[0] != section_name(4)[0] || name[1] != section_name(4)[1] || name[2] != section_name(4)[2] || name[3] != section_name(4)[3]);
        assert(name[0] != section_name(5)[0] || name[1] != section_name(5)[1] || name[2] != section_name(5)[2] || name[3] != section_name(5)[3]);
        assert(name[0] != section_name(6)[0] || name[1] != section_name(6)[1] || name[2] != section_name(6)[2] || name[3] != section_name(6)[3]);
        assert(name[0] != section_name(7)[0] || name[1] != section_name(7)[1] || name[2] != section_name(7)[2] || name[3] != section_name(7)[3]);
        assert(name[0] != section_name(8)[0] || name[1] != section_name(8)[1] || name[2] != section_name(8)[2] || name[3] != section_name(8)[3]);
        assert(name[0] != section_name(9)[0] || name[1] != section_name(9)[1] || name[2] != section_name(9)[2] || name[3] != section_name(9)[3]);
        assert(name[0] != section_name(10)[0] || name[1] != section_name(10)[1] || name[2] != section_name(10)[2] || name[3] != section_name(10)[3]);
        assert(name[0] != section_name(11)[0] || name[1] != section_name(11)[1] || name[2] != section_name(11)[2] || name[3] != section_name(11)[3]);
        assert(name[0] != section_name(12)[0] || name[1] != section_name(12)[1] || name[2] != section_name(12)[2] || name[3] != section_name(12)[3]);
        assert(name[0] != section_name(13)[0] || name[1] != section_name(13)[1] || name[2] != section_name(13)[2] || name[3] != section_name(13)[3]);
        assert(name[0] != section_name(14)[0] || name[1] != section_name(14)[1] || name[2] != section_name(14)[2] || name[3] != section_name(14)[3]);
        15
    }
}

/// Whether reading section kind `k` at `at` fails, and with which error.
#[verifier::opaque]
pub open spec fn kind_outcome(data: Seq<u8>, k: int, at: int) -> Result<(), Error> {
    if k == 0 {
        section_outcome::<Ktpt>(data, at)
    } else if k == 1 {
        section_outcome::<Enpt>(data, at)
    } else if k == 2 {
        section_outcome::<PathGroup<Enpt>>(data, at)
    } else if k == 3 {
        section_outcome::<Itpt>(data, at)
    } else if k == 4 {
        section_outcome::<PathGroup<Itpt>>(data, at)
    } else if k == 5 {
        section_outcome::<Ckpt>(data, at)
    } else if k == 6 {
        section_outcome::<PathGroup<Ckpt>>(data, at)
    } else if k == 7 {
        section_outcome::<Gobj>(data, at)
    } else if k == 8 {
        poti_section_outcome(data, at)
    } else if k == 9 {
        section_outcome::<Area>(data, at)
    } else if k == 10 {
        section_outcome::<Came>(data, at)
    } else if k == 11 {
        section_outcome::<Jgpt>(data, at)
    } else if k == 12 {
        section_outcome::<Cnpt>(data, at)
    } else if k == 13 {
        section_outcome::<Mspt>(data, at)
    } else {
        section_outcome::<Stgi>(data, at)
    }
}

/// Where section `i` starts: its entry of the offset table plus the header length.
pub open spec fn section_at(data: Seq<u8>, i: int) -> int {
    be_u32(data, 0x10 + 4 * i) as int + be_u16(data, 0x0A) as int
}

/// Whether reading section `i` fails, and with which error: its name is read and
/// decoded, must be one of the fifteen, and then the section of that kind is read.
pub open spec fn step_outcome(data: Seq<u8>, i: int) -> Result<(), Error> {
    let at = section_at(data, i);
    if !within(data, at, 4) {
        Err(Error::OutOfBounds)
    } else if utf8_text(data, at, at + 4) is None {
        Err(Error::InvalidUtf8)
    } else if kind_at(data, at) == 15 {
        Err(Error::UnknownSection(be_u32(data, at)))
    } else {
        kind_outcome(data, kind_at(data, at), at)
    }
}

/// How going through the sections from `i` on ends.
pub enum SectionWalk {
    /// Every section was read.
    Done,
    /// A section failed with this error.
    Failed(Error),
    /// A section starts past the end of the data, where taking the bytes from
    /// its start on cannot be done.
    PastEnd,
}

/// How going through the sections `i..15` in table order ends.
pub open spec fn walk(data: Seq<u8>, i: int) -> SectionWalk
    decreases 15 - i,
{
    if i >= 15 {
        SectionWalk::Done
    } else if section_at(data, i) > data.len() {
        SectionWalk::PastEnd
    } else {
        match step_outcome(data, i) {
            Err(e) => SectionWalk::Failed(e),
            Ok(()) => walk(data, i + 1),
        }
    }
}

/// No section that is reached starts past the end of the data. The sections are
/// reached once the header and the offset table have been read, in table order,
/// until one fails.
pub open spec fn sections_in_range(data: Seq<u8>) -> bool {
    header_outcome(data) is Ok && within(data, 0x10, 60) ==> !(walk(data, 0) is PastEnd)
}

/// The last of the sections `0..n` whose name is that of kind `k`, or -1.
pub open spec fn last_of_kind(data: Seq<u8>, k: int, n: int) -> int
    decreases n,
{
    if n <= 0 {
        -1
    } else if kind_at(data, section_at(data, n - 1)) == k {
        n - 1
    } else {
        last_of_kind(data, k, n - 1)
    }
}

/// The first kind from `k` on whose section is missing, or 15 when none is.
#[verifier::opaque]
pub open spec fn first_missing(data: Seq<u8>, k: int) -> int
    decreases 15 - k,
{
    if k >= 15 {
        15
    } else if last_of_kind(data, k, 15) < 0 {
        k
    } else {
        first_missing(data, k + 1)
    }
}

/// When the kinds `m..k` are present and kind `k` is missing, the first missing
/// kind from `m` on is `k`.
proof fn lemma_first_missing(data: Seq<u8>, m: int, k: int)
    requires
        0 <= m <= k < 15,
        forall|j: int| m <= j < k ==> #[trigger] last_of_kind(data, j, 15) >= 0,
        last_of_kind(data, k, 15) < 0,
    ensures
        first_missing(data, m) == k,
    decreases k - m,
{
    reveal(first_missing);
    if m < k {
        lemma_first_missing(data, m + 1, k);
    }
}

/// The four bytes of the name of kind `k`, read as a big-endian number.
pub open spec fn name_code(k: int) -> u32 {
    if k == 0 {
        0x4B545054
    } else if k == 1 {
        0x454E5054
    } else if k == 2 {
        0x454E5048
    } else if k == 3 {
        0x49545054
    } else if k == 4 {
        0x49545048
    } else if k == 5 {
        0x434B5054
    } else if k == 6 {
        0x434B5048
    } else if k == 7 {
        0x474F424A
    } else if k == 8 {
        0x504F5449
    } else if k == 9 {
        0x41524541
    } else if k == 10 {
        0x43414D45
    } else if k == 11 {
        0x4A475054
    } else if k == 12 {
        0x434E5054
    } else if k == 13 {
        0x4D535054
    } else {
        0x53544749
    }
}

/// `name_code` reads the name of each kind.
pub proof fn lemma_name_code(k: int)
    requires
        0 <= k < 15,
    ensures
        name_code(k) == be_u32(section_name(k), 0),
{
}

/// Whether reading the `.kmp` bytes `data` fails, and with which error: the
/// header, the offset table, the sections in table order, and then every kind
/// must have been found.
pub open spec fn kmp_outcome(data: Seq<u8>) -> Result<(), Error> {
    match header_outcome(data) {
        Err(e) => Err(e),
        Ok(()) => if !within(data, 0x10, 60) {
            Err(Error::OutOfBounds)
        } else {
            match walk(data, 0) {
                SectionWalk::Failed(e) => Err(e),
                _ => if exists|k: int| 0 <= k < 15 && #[trigger] last_of_kind(data, k, 15) < 0 {
                    Err(Error::MissingSection(name_code(first_missing(data, 0))))
                } else {
                    Ok(())
                },
            }
        },
    }
}

/// After the sections `0..n`, the slot for kind `k` holds the last section of that
/// kind read so far, or nothing.
#[verifier::opaque]
pub open spec fn slot_holds<T: KmpEntry>(slot: Option<Section<T>>, data: Seq<u8>, k: int, n: int) -> bool {
    let j = last_of_kind(data, k, n);
    if j < 0 {
        slot is None
    } else {
        slot matches Some(s) && s.read_from(data, section_at(data, j))
    }
}

/// After the sections `0..n`, the POTI slot holds the last POTI section read so
/// far, or nothing.
#[verifier::opaque]
pub open spec fn poti_slot_holds(slot: Option<Section<Poti>>, data: Seq<u8>, n: int) -> bool {
    let j = last_of_kind(data, 8, n);
    if j < 0 {
        slot is None
    } else {
        slot matches Some(s) && s.read_routes_from(data, section_at(data, j))
    }
}

/// Going past section `i` keeps a slot right: it takes that section when the
/// section is of its kind, and is left alone otherwise.
proof fn lemma_slot_step<T: KmpEntry>(
    old_slot: Option<Section<T>>,
    new_slot: Option<Section<T>>,
    data: Seq<u8>,
    k: int,
    i: int,
)
    requires
        0 <= i,
        slot_holds::<T>(old_slot, data, k, i),
        kind_at(data, section_at(data, i)) == k ==> (new_slot matches Some(s) && s.read_from(
            data,
            section_at(data, i),
        )),
        kind_at(data, section_at(data, i)) != k ==> new_slot == old_slot,
    ensures
        slot_holds::<T>(new_slot, data, k, i + 1),
{
    reveal(slot_holds);
}

/// Going past section `i` keeps the POTI slot right.
proof fn lemma_poti_slot_step(old_slot: Option<Section<Poti>>, new_slot: Option<Section<Poti>>, data: Seq<u8>, i: int)
    requires
        0 <= i,
        poti_slot_holds(old_slot, data, i),
        kind_at(data, section_at(data, i)) == 8 ==> (new_slot matches Some(s) && s.read_routes_from(
            data,
            section_at(data, i),
        )),
        kind_at(data, section_at(data, i)) != 8 ==> new_slot == old_slot,
    ensures
        poti_slot_holds(new_slot, data, i + 1),
{
    reveal(poti_slot_holds);
}

/// The sections read so far, one slot per kind.
struct Slots {
    ktpt: Option<Section<Ktpt>>,
    enpt: Option<Section<Enpt>>,
    enph: Option<Section<PathGroup<Enpt>>>,
    itpt: Option<Section<Itpt>>,
    itph: Option<Section<PathGroup<Itpt>>>,
    ckpt: Option<Section<Ckpt>>,
    ckph: Option<Section<PathGroup<Ckpt>>>,
    gobj: Option<Section<Gobj>>,
    poti: Option<Section<Poti>>,
    area: Option<Section<Area>>,
    came: Option<Section<Came>>,
    jgpt: Option<Section<Jgpt>>,
    cnpt: Option<Section<Cnpt>>,
    mspt: Option<Section<Mspt>>,
    stgi: Option<Section<Stgi>>,
}

impl Slots {
    /// After the sections `0..n`, every slot holds the last section of its kind.
    #[verifier::opaque]
    spec fn holds(self, data: Seq<u8>, n: int) -> bool {
        &&& slot_holds::<Ktpt>(self.ktpt, data, 0, n)
        &&& slot_holds::<Enpt>(self.enpt, data, 1, n)
        &&& slot_holds::<PathGroup<Enpt>>(self.enph, data, 2, n)
        &&& slot_holds::<Itpt>(self.itpt, data, 3, n)
        &&& slot_holds::<PathGroup<Itpt>>(self.itph, data, 4, n)
        &&& slot_holds::<Ckpt>(self.ckpt, data, 5, n)
        &&& slot_holds::<PathGroup<Ckpt>>(self.ckph, data, 6, n)
        &&& slot_holds::<Gobj>(self.gobj, data, 7, n)
        &&& poti_slot_holds(self.poti, data, n)
        &&& slot_holds::<Area>(self.area, data, 9, n)
        &&& slot_holds::<Came>(self.came, data, 10, n)
        &&& slot_holds::<Jgpt>(self.jgpt, data, 11, n)
        &&& slot_holds::<Cnpt>(self.cnpt, data, 12, n)
        &&& slot_holds::<Mspt>(self.mspt, data, 13, n)
        &&& slot_holds::<Stgi>(self.stgi, data, 14, n)
    }

    /// `new` is `old` with the slot of kind `kind` holding the section at `at`.
    #[verifier::opaque]
    spec fn stored(old: Slots, new: Slots, data: Seq<u8>, kind: int, at: int) -> bool {
        &&& if kind == 0 {
            new.ktpt matches Some(s) && s.read_from(data, at)
        } else {
            new.ktpt == old.ktpt
        }
        &&& if kind == 1 {
            new.enpt matches Some(s) && s.read_from(data, at)
        } else {
            new.enpt == old.enpt
        }
        &&& if kind == 2 {
            new.enph matches Some(s) && s.read_from(data, at)
        } else {
            new.enph == old.enph
        }
        &&& if kind == 3 {
            new.itpt matches Some(s) && s.read_from(data, at)
        } else {
            new.itpt == old.itpt
        }
        &&& if kind == 4 {
            new.itph matches Some(s) && s.read_from(data, at)
        } else {
            new.itph == old.itph
        }
        &&& if kind == 5 {
            new.ckpt matches Some(s) && s.read_from(data, at)
        } else {
            new.ckpt == old.ckpt
        }
        &&& if kind == 6 {
            new.ckph matches Some(s) && s.read_from(data, at)
        } else {
            new.ckph == old.ckph
        }
        &&& if kind == 7 {
            new.gobj matches Some(s) && s.read_from(data, at)
        } else {
            new.gobj == old.gobj
        }
        &&& if kind == 8 {
            new.poti matches Some(s) && s.read_routes_from(data, at)
        } else {
            new.poti == old.poti
        }
        &&& if kind == 9 {
            new.area matches Some(s) && s.read_from(data, at)
        } else {
            new.area == old.area
        }
        &&& if kind == 10 {
            new.came matches Some(s) && s.read_from(data, at)
        } else {
            new.came == old.came
        }
        &&& if kind == 11 {
            new.jgpt matches Some(s) && s.read_from(data, at)
        } else {
            new.jgpt == old.jgpt
        }
        &&& if kind == 12 {
            new.cnpt matches Some(s) && s.read_from(data, at)
        } else {
            new.cnpt == old.cnpt
        }
        &&& if kind == 13 {
            new.mspt matches Some(s) && s.read_from(data, at)
        } else {
            new.mspt == old.mspt
        }
        &&& if kind == 14 {
            new.stgi matches Some(s) && s.read_from(data, at)
        } else {
            new.stgi == old.stgi
        }
    }

    /// Nothing has been read yet.
    fn empty(Ghost(data): Ghost<Seq<u8>>) -> (r: Slots)
        ensures
            r.holds(data, 0),
    {
        reveal(Slots::holds);
        reveal(slot_holds);
        reveal(poti_slot_holds);
        Slots {
            ktpt: None,
            enpt: None,
            enph: None,
            itpt: None,
            itph: None,
            ckpt: None,
            ckph: None,
            gobj: None,
            poti: None,
            area: None,
            came: None,
            jgpt: None,
            cnpt: None,
            mspt: None,
            stgi: None,
        }
    }

    /// Reads the section of kind `kind` at `at` into its slot.
    fn store(&mut self, data: &[u8], at: usize, kind: usize) -> (r: Result<(), Error>)
        requires
            kind < 15,
        ensures
            match kind_outcome(data@, kind as int, at as int) {
                Ok(()) => r is Ok && Slots::stored(*old(self), *final(self), data@, kind as int, at as int),
                Err(e) => r == Err::<(), Error>(e),
            },
    {
        reveal(Slots::stored);
        if kind == 0 {
            assert(kind_outcome(data@, 0, at as int) == section_outcome::<Ktpt>(data@, at as int)) by {
                reveal(kind_outcome);
            }
            match Section::<Ktpt>::parse(data, at) {
                Ok(s) => {
                    self.ktpt = Some(s);
                    Ok(())
                },
                Err(e) => Err(e),
            }
        } else if kind == 1 {
            assert(kind_outcome(data@, 1, at as int) == section_outcome::<Enpt>(data@, at as int)) by {
                reveal(kind_outcome);
            }
            match Section::<Enpt>::parse(data, at) {
                Ok(s) => {
                    self.enpt = Some(s);
                    Ok(())
                },
                Err(e) => Err(e),
            }
        } else if kind == 2 {
            assert(kind_outcome(data@, 2, at as int) == section_outcome::<PathGroup<Enpt>>(data@, at as int)) by {
                reveal(kind_outcome);
            }
            match Section::<PathGroup<Enpt>>::parse(data, at) {
                Ok(s) => {
                    self.enph = Some(s);
                    Ok(())
                },
                Err(e) => Err(e),
            }
        } else if kind == 3 {
            assert(kind_outcome(data@, 3, at as int) == section_outcome::<Itpt>(data@, at as int)) by {
                reveal(kind_outcome);
            }
            match Section::<Itpt>::parse(data, at) {
                Ok(s) => {
                    self.itpt = Some(s);
                    Ok(())
                },
                Err(e) => Err(e),
            }
        } else if kind == 4 {
            assert(kind_outcome(data@, 4, at as int) == section_outcome::<PathGroup<Itpt>>(data@, at as int)) by {
                reveal(kind_outcome);
            }
            match Section::<PathGroup<Itpt>>::parse(data, at) {
                Ok(s) => {
                    self.itph = Some(s);
                    Ok(())
                },
                Err(e) => Err(e),
            }
        } else if kind == 5 {
            assert(kind_outcome(data@, 5, at as int) == section_outcome::<Ckpt>(data@, at as int)) by {
                reveal(kind_outcome);
            }
            match Section::<Ckpt>::parse(data, at) {
                Ok(s) => {
                    self.ckpt = Some(s);
                    Ok(())
                },
                Err(e) => Err(e),
            }
        } else if kind == 6 {
            assert(kind_outcome(data@, 6, at as int) == section_outcome::<PathGroup<Ckpt>>(data@, at as int)) by {
                reveal(kind_outcome);
            }
            match Section::<PathGroup<Ckpt>>::parse(data, at) {
                Ok(s) => {
                    self.ckph = Some(s);
                    Ok(())
                },
                Err(e) => Err(e),
            }
        } else if kind == 7 {
            assert(kind_outcome(data@, 7, at as int) == section_outcome::<Gobj>(data@, at as int)) by {
                reveal(kind_outcome);
            }
            match Section::<Gobj>::parse(data, at) {
                Ok(s) => {
                    self.gobj = Some(s);
                    Ok(())
                },
                Err(e) => Err(e),
            }
        } else if kind == 8 {
            assert(kind_outcome(data@, 8, at as int) == poti_section_outcome(data@, at as int)) by {
                reveal(kind_outcome);
            }
            match Section::<Poti>::parse(data, at) {
                Ok(s) => {
                    self.poti = Some(s);
                    Ok(())
                },
                Err(e) => Err(e),
            }
        } else if kind == 9 {
            assert(kind_outcome(data@, 9, at as int) == section_outcome::<Area>(data@, at as int)) by {
                reveal(kind_outcome);
            }
            match Section::<Area>::parse(data, at) {
                Ok(s) => {
                    self.area = Some(s);
                    Ok(())
                },
                Err(e) => Err(e),
            }
        } else if kind == 10 {
            assert(kind_outcome(data@, 10, at as int) == section_outcome::<Came>(data@, at as int)) by {
                reveal(kind_outcome);
            }
            match Section::<Came>::parse(data, at) {
                Ok(s) => {
                    self.came = Some(s);
                    Ok(())
                },
                Err(e) => Err(e),
            }
        } else if kind == 11 {
            assert(kind_outcome(data@, 11, at as int) == section_outcome::<Jgpt>(data@, at as int)) by {
                reveal(kind_outcome);
            }
            match Section::<Jgpt>::parse(data, at) {
                Ok(s) => {
                    self.jgpt = Some(s);
                    Ok(())
                },
                Err(e) => Err(e),
            }
        } else if kind == 12 {
            assert(kind_outcome(data@, 12, at as int) == section_outcome::<Cnpt>(data@, at as int)) by {
                reveal(kind_outcome);
            }
            match Section::<Cnpt>::parse(data, at) {
                Ok(s) => {
                    self.cnpt = Some(s);
                    Ok(())
                },
                Err(e) => Err(e),
            }
        } else if kind == 13 {
            assert(kind_outcome(data@, 13, at as int) == section_outcome::<Mspt>(data@, at as int)) by {
                reveal(kind_outcome);
            }
            match Section::<Mspt>::parse(data, at) {
                Ok(s) => {
                    self.mspt = Some(s);
                    Ok(())
                },
                Err(e) => Err(e),
            }
        } else if kind == 14 {
            assert(kind_outcome(data@, 14, at as int) == section_outcome::<Stgi>(data@, at as int)) by {
                reveal(kind_outcome);
            }
            match Section::<Stgi>::parse(data, at) {
                Ok(s) => {
                    self.stgi = Some(s);
                    Ok(())
                },
                Err(e) => Err(e),
            }
        } else {
            assert(false);
            Err(Error::OutOfBounds)
        }
    }
}

/// Going past section `i` keeps every slot right.
proof fn lemma_slots_step(old_slots: Slots, new_slots: Slots, data: Seq<u8>, i: int)
    requires
        0 <= i,
        old_slots.holds(data, i),
        kind_at(data, section_at(data, i)) < 15,
        Slots::stored(old_slots, new_slots, data, kind_at(data, section_at(data, i)), section_at(data, i)),
    ensures
        new_slots.holds(data, i + 1),
{
    reveal(Slots::holds);
    reveal(Slots::stored);
    lemma_slot_step::<Ktpt>(old_slots.ktpt, new_slots.ktpt, data, 0, i);
    lemma_slot_step::<Enpt>(old_slots.enpt, new_slots.enpt, data, 1, i);
    lemma_slot_step::<PathGroup<Enpt>>(old_slots.enph, new_slots.enph, data, 2, i);
    lemma_slot_step::<Itpt>(old_slots.itpt, new_slots.itpt, data, 3, i);
    lemma_slot_step::<PathGroup<Itpt>>(old_slots.itph, new_slots.itph, data, 4, i);
    lemma_slot_step::<Ckpt>(old_slots.ckpt, new_slots.ckpt, data, 5, i);
    lemma_slot_step::<PathGroup<Ckpt>>(old_slots.ckph, new_slots.ckph, data, 6, i);
    lemma_slot_step::<Gobj>(old_slots.gobj, new_slots.gobj, data, 7, i);
    lemma_poti_slot_step(old_slots.poti, new_slots.poti, data, i);
    lemma_slot_step::<Area>(old_slots.area, new_slots.area, data, 9, i);
    lemma_slot_step::<Came>(old_slots.came, new_slots.came, data, 10, i);
    lemma_slot_step::<Jgpt>(old_slots.jgpt, new_slots.jgpt, data, 11, i);
    lemma_slot_step::<Cnpt>(old_slots.cnpt, new_slots.cnpt, data, 12, i);
    lemma_slot_step::<Mspt>(old_slots.mspt, new_slots.mspt, data, 13, i);
    lemma_slot_step::<Stgi>(old_slots.stgi, new_slots.stgi, data, 14, i);
}

/// A parsed `.kmp` file: its header and its fifteen sections.
pub struct Kmp {
    pub header: Header,
    pub ktpt: Section<Ktpt>,
    pub enpt: Section<Enpt>,
    pub enph: Section<PathGroup<Enpt>>,
    pub itpt: Section<Itpt>,
    pub itph: Section<PathGroup<Itpt>>,
    pub ckpt: Section<Ckpt>,
    pub ckph: Section<PathGroup<Ckpt>>,
    pub gobj: Section<Gobj>,
    pub poti: Section<Poti>,
    pub area: Section<Area>,
    pub came: Section<Came>,
    pub jgpt: Section<Jgpt>,
    pub cnpt: Section<Cnpt>,
    pub mspt: Section<Mspt>,
    pub stgi: Section<Stgi>,
}

impl Kmp {
    /// Whether `self` holds the header of `data` and, for each kind, the section
    /// at the last offset whose name is that kind's.
    pub open spec fn read_from(self, data: Seq<u8>) -> bool {
        &&& self.header.read_from(data)
        &&& self.ktpt.read_from(data, section_at(data, last_of_kind(data, 0, 15)))
        &&& self.enpt.read_from(data, section_at(data, last_of_kind(data, 1, 15)))
        &&& self.enph.read_from(data, section_at(data, last_of_kind(data, 2, 15)))
        &&& self.itpt.read_from(data, section_at(data, last_of_kind(data, 3, 15)))
        &&& self.itph.read_from(data, section_at(data, last_of_kind(data, 4, 15)))
        &&& self.ckpt.read_from(data, section_at(data, last_of_kind(data, 5, 15)))
        &&& self.ckph.read_from(data, section_at(data, last_of_kind(data, 6, 15)))
        &&& self.gobj.read_from(data, section_at(data, last_of_kind(data, 7, 15)))
        &&& self.poti.read_routes_from(data, section_at(data, last_of_kind(data, 8, 15)))
        &&& self.area.read_from(data, section_at(data, last_of_kind(data, 9, 15)))
        &&& self.came.read_from(data, section_at(data, last_of_kind(data, 10, 15)))
        &&& self.jgpt.read_from(data, section_at(data, last_of_kind(data, 11, 15)))
        &&& self.cnpt.read_from(data, section_at(data, last_of_kind(data, 12, 15)))
        &&& self.mspt.read_from(data, section_at(data, last_of_kind(data, 13, 15)))
        &&& self.stgi.read_from(data, section_at(data, last_of_kind(data, 14, 15)))
    }

    /// Takes the section of every kind out of its slot; a kind that was never
    /// read is missing.
    #[verifier::spinoff_prover]
    #[verifier::rlimit(60)]
    fn assemble(header: Header, slots: Slots, data: &[u8]) -> (r: Result<Self, Error>)
        requires
            header.read_from(data@),
            slots.holds(data@, 15),
        ensures
            (exists|k: int| 0 <= k < 15 && #[trigger] last_of_kind(data@, k, 15) < 0)
                ==> r == Err::<Kmp, Error>(Error::MissingSection(name_code(first_missing(data@, 0)))),
            !(exists|k: int| 0 <= k < 15 && #[trigger] last_of_kind(data@, k, 15) < 0)
                ==> (r matches Ok(kmp) && kmp.read_from(data@)),
    {
        reveal(Slots::holds);
        reveal(slot_holds);
        reveal(poti_slot_holds);
        let ktpt = match slots.ktpt {
            Some(s) => s,
            None => {
                proof {
                    lemma_first_missing(data@, 0, 0);
                }
                return Err(Error::MissingSection(0x4B545054));
            },
        };
        let enpt = match slots.enpt {
            Some(s) => s,
            None => {
                proof {
                    lemma_first_missing(data@, 0, 1);
                }
                return Err(Error::MissingSection(0x454E5054));
            },
        };
        let enph = match slots.enph {
            Some(s) => s,
            None => {
                proof {
                    lemma_first_missing(data@, 0, 2);
                }
                return Err(Error::MissingSection(0x454E5048));
            },
        };
        let itpt = match slots.itpt {
            Some(s) => s,
            None => {
                proof {
                    lemma_first_missing(data@, 0, 3);
                }
                return Err(Error::MissingSection(0x49545054));
            },
        };
        let itph = match slots.itph {
            Some(s) => s,
            None => {
                proof {
                    lemma_first_missing(data@, 0, 4);
                }
                return Err(Error::MissingSection(0x49545048));
            },
        };
        let ckpt = match slots.ckpt {
            Some(s) => s,
            None => {
                proof {
                    lemma_first_missing(data@, 0, 5);
                }
                return Err(Error::MissingSection(0x434B5054));
            },
        };
        let ckph = match slots.ckph {
            Some(s) => s,
            None => {
                proof {
                    lemma_first_missing(data@, 0, 6);
                }
                return Err(Error::MissingSection(0x434B5048));
            },
        };
        let gobj = match slots.gobj {
            Some(s) => s,
            None => {
                proof {
                    lemma_first_missing(data@, 0, 7);
                }
                return Err(Error::MissingSection(0x474F424A));
            },
        };
        let poti = match slots.poti {
            Some(s) => s,
            None => {
                proof {
                    lemma_first_missing(data@, 0, 8);
                }
                return Err(Error::MissingSection(0x504F5449));
            },
        };
        let area = match slots.area {
            Some(s) => s,
            None => {
                proof {
                    lemma_first_missing(data@, 0, 9);
                }
                return Err(Error::MissingSection(0x41524541));
            },
        };
        let came = match slots.came {
            Some(s) => s,
            None => {
                proof {
                    lemma_first_missing(data@, 0, 10);
                }
                return Err(Error::MissingSection(0x43414D45));
            },
        };
        let jgpt = match slots.jgpt {
            Some(s) => s,
            None => {
                proof {
                    lemma_first_missing(data@, 0, 11);
                }
                return Err(Error::MissingSection(0x4A475054));
            },
        };
        let cnpt = match slots.cnpt {
            Some(s) => s,
            None => {
                proof {
                    lemma_first_missing(data@, 0, 12);
                }
                return Err(Error::MissingSection(0x434E5054));
            },
        };
        let mspt = match slots.mspt {
            Some(s) => s,
            None => {
                proof {
                    lemma_first_missing(data@, 0, 13);
                }
                return Err(Error::MissingSection(0x4D535054));
            },
        };
        let stgi = match slots.stgi {
            Some(s) => s,
            None => {
                proof {
                    lemma_first_missing(data@, 0, 14);
                }
                return Err(Error::MissingSection(0x53544749));
            },
        };
        Ok(Kmp {
            header,
            ktpt,
            enpt,
            enph,
            itpt,
            itph,
            ckpt,
            ckph,
            gobj,
            poti,
            area,
            came,
            jgpt,
            cnpt,
            mspt,
            stgi,
        })
    }

    /// Parses the `.kmp` bytes `data`. The offsets of the sections may come in any
    /// order; each section is told apart by its name, a later section of a kind
    /// replacing an earlier one, and every kind must be present.
    pub fn parse_from_data(data: &[u8]) -> (r: Result<Self, Error>)
        requires
            sections_in_range(data@),
        ensures
            match kmp_outcome(data@) {
                Ok(()) => r matches Ok(kmp) && kmp.read_from(data@),
                Err(e) => r == Err::<Kmp, Error>(e),
            },
    {
        match Self::try_parse_from_data(data) {
            Some(r) => r,
            None => Err(Error::OutOfBounds),
        }
    }

    /// `parse_from_data` on any bytes: `None` exactly where a section that is
    /// reached starts past the end of the data, which `parse_from_data` may not
    /// be given.
    pub fn try_parse_from_data(data: &[u8]) -> (r: Option<Result<Self, Error>>)
        ensures
            r is None <==> !sections_in_range(data@),
            r matches Some(res) ==> match kmp_outcome(data@) {
                Ok(()) => res matches Ok(kmp) && kmp.read_from(data@),
                Err(e) => res == Err::<Kmp, Error>(e),
            },
    {
        let header = match Header::parse(data) {
            Ok(h) => h,
            Err(e) => {
                return Some(Err(e));
            },
        };
        let header_length = header.header_length as usize;
        let offsets: [u32; 15] = match read(data, 0x10) {
            Ok(o) => o,
            Err(e) => {
                return Some(Err(e));
            },
        };
        let mut slots = Slots::empty(Ghost(data@));
        let mut i: usize = 0;
        while i < 15
            invariant
                header_outcome(data@) is Ok,
                header.read_from(data@),
                header_length == be_u16(data@, 0x0A),
                within(data@, 0x10, 60),
                offsets@.len() == 15,
                forall|j: int| 0 <= j < 15 ==> #[trigger] offsets@[j] == be_u32(data@, 0x10 + 4 * j),
                i <= 15,
                walk(data@, 0) == walk(data@, i as int),
                slots.holds(data@, i as int),
            decreases 15 - i,
        {
            let raw_offset = offsets[i];
            assert(raw_offset == be_u32(data@, 0x10 + 4 * i));
            assert(data@.len() == data.len());
            let section_offset = match (raw_offset as usize).checked_add(header_length) {
                Some(o) => o,
                None => {
                    return None;
                },
            };
            if section_offset > data.len() {
                return None;
            }
            let start = &data[section_offset..data.len()];
            let name_result = read::<String>(start, 0);
            proof {
                if within(start@, 0, 4) {
                    assert(start@.subrange(0, 4) =~= data@.subrange(section_offset as int, section_offset + 4));
                }
            }
            if let Err(e) = name_result {
                return Some(Err(e));
            }
            let kind = section_kind(data, section_offset);
            if kind == 15 {
                return Some(Err(Error::UnknownSection(get_u32(data, section_offset))));
            }
            let ghost old_slots = slots;
            let stored = slots.store(data, section_offset, kind);
            if let Err(e) = stored {
                return Some(Err(e));
            }
            proof {
                lemma_slots_step(old_slots, slots, data@, i as int);
            }
            i = i + 1;
        }
        Some(Self::assemble(header, slots, data))
    }
}

} // verus!
