//! Index groups: the binary trees of named entries through which a `.brres`
//! file leads to its subfiles and to the parts of a model.
use vstd::prelude::*;
use crate::binary::{within, be_u16, be_u32, varstring_outcome, fits, get_u16, get_u32, read, VariableString};
use crate::brres::RawBrres;
use crate::error::Error;

verus! {

/// The head of an index group and the tree of its entries.
pub struct IndexHeader {
    pub len_group: u32,
    pub num_group: u32,
    pub root: IndexEntry,
    pub offset: usize,
}

/// An entry of an index group: a node of a binary tree whose left and right
/// children are entries of the same group with smaller ids.
pub struct IndexEntry {
    pub id: u16,
    /// Always 0?
    pub flag: u16,
    pub left_idx: u16,
    pub left: Option<Box<IndexEntry>>,
    pub right_idx: u16,
    pub right: Option<Box<IndexEntry>>,
    pub name: String,
    /// The four bytes before the name.
    pub len_name: u32,
    pub data_ptr: u32,
    /// Whether this is the root node of the group.
    pub root: bool,
    pub current_idx: u16,
    pub group_offset: u32,
    /// The nested group that the entry leads to, once it has been read.
    pub sub_index: Option<Box<IndexHeader>>,
}

/// What an index entry holds, with its name as text.
pub struct EntryView {
    pub id: u16,
    pub flag: u16,
    pub left_idx: u16,
    pub left: Option<Box<EntryView>>,
    pub right_idx: u16,
    pub right: Option<Box<EntryView>>,
    pub name: Seq<char>,
    pub len_name: u32,
    pub data_ptr: u32,
    pub root: bool,
    pub current_idx: u16,
    pub group_offset: u32,
    pub sub_index: Option<Box<GroupView>>,
}

/// What an index group holds.
pub struct GroupView {
    pub len_group: u32,
    pub num_group: u32,
    pub root: EntryView,
    pub offset: usize,
}

impl IndexEntry {
    /// The entry and everything below it, as views.
    pub open spec fn view_entry(&self) -> EntryView
        decreases self,
    {
        EntryView {
            id: self.id,
            flag: self.flag,
            left_idx: self.left_idx,
            left: match &self.left {
                Some(b) => Some(Box::new(b.view_entry())),
                None => None,
            },
            right_idx: self.right_idx,
            right: match &self.right {
                Some(b) => Some(Box::new(b.view_entry())),
                None => None,
            },
            name: self.name@,
            len_name: self.len_name,
            data_ptr: self.data_ptr,
            root: self.root,
            current_idx: self.current_idx,
            group_offset: self.group_offset,
            sub_index: match &self.sub_index {
                Some(b) => Some(Box::new(b.view_group())),
                None => None,
            },
        }
    }
}

impl IndexHeader {
    /// The group, as a view.
    pub open spec fn view_group(&self) -> GroupView
        decreases self,
    {
        GroupView {
            len_group: self.len_group,
            num_group: self.num_group,
            root: self.root.view_entry(),
            offset: self.offset,
        }
    }
}

// ---------------------------------------------------------------------------
// Reading a group.
// ---------------------------------------------------------------------------

/// Where an entry is stored: the root at `root_offset`, entry `idx` sixteen bytes
/// per index after it.
pub open spec fn entry_pos(root_offset: int, root: bool, idx: u16) -> int {
    if root {
        root_offset
    } else {
        root_offset + 16 * idx
    }
}

/// Whether index `child` names a child of an entry with id `id`: it is not 0, and
/// the id stored for it is smaller.
pub open spec fn is_child(data: Seq<u8>, root_offset: int, id: u16, child: u16) -> bool {
    &&& child != 0
    &&& within(data, root_offset + 16 * child, 2)
    &&& be_u16(data, root_offset + 16 * child) < id
}

/// What reading child `child` of an entry with id `id` gives: nothing when the
/// index names no child, else the child entry, or the error.
pub open spec fn child_at(data: Seq<u8>, root_offset: int, id: u16, child: u16) -> Result<Option<Box<EntryView>>, Error>
    decreases id, 0int,
{
    if is_child(data, root_offset, id, child) {
        match entry_at(data, root_offset, false, child) {
            Ok(v) => Ok(Some(Box::new(v))),
            Err(e) => Err(e),
        }
    } else {
        Ok(None)
    }
}

/// What reading the name of the entry stored at `pos` gives: `ROOT` for the root;
/// otherwise the text stored at its name offset from the start of the group,
/// eight bytes before the root, with its length.
pub open spec fn name_at(data: Seq<u8>, root_offset: int, root: bool, pos: int) -> Result<(Seq<char>, u32), Error> {
    let at = root_offset - 8 + be_u32(data, pos + 8);
    if root {
        Ok(("ROOT"@, 4u32))
    } else {
        match varstring_outcome(data, at) {
            Ok(t) => Ok((t, be_u32(data, at - 4))),
            Err(e) => Err(e),
        }
    }
}

/// What reading the entry `idx` of the group whose root is at `root_offset`
/// gives: the entry with its children (left first, then right), and then its
/// name, or the first error met.
pub open spec fn entry_at(data: Seq<u8>, root_offset: int, root: bool, idx: u16) -> Result<EntryView, Error>
    decreases be_u16(data, entry_pos(root_offset, root, idx)), 1int,
{
    let pos = entry_pos(root_offset, root, idx);
    if !within(data, pos, 16) {
        Err(Error::OutOfBounds)
    } else {
        let id = be_u16(data, pos);
        let l = be_u16(data, pos + 4);
        let r = be_u16(data, pos + 6);
        match child_at(data, root_offset, id, l) {
            Err(e) => Err(e),
            Ok(lv) => match child_at(data, root_offset, id, r) {
                Err(e) => Err(e),
                Ok(rv) => match name_at(data, root_offset, root, pos) {
                    Err(e) => Err(e),
                    Ok((n, len_name)) => Ok(EntryView {
                        id,
                        flag: be_u16(data, pos + 2),
                        left_idx: l,
                        left: lv,
                        right_idx: r,
                        right: rv,
                        name: n,
                        len_name,
                        data_ptr: be_u32(data, pos + 12),
                        root,
                        current_idx: idx,
                        group_offset: (root_offset - 8) as u32,
                        sub_index: None,
                    }),
                },
            },
        }
    }
}

/// What reading the index group at `offset` gives: its eight-byte head and the
/// tree whose root follows it, or the error.
pub open spec fn group_at(data: Seq<u8>, offset: int) -> Result<GroupView, Error> {
    if !within(data, offset, 8) {
        Err(Error::OutOfBounds)
    } else {
        match entry_at(data, offset + 8, true, 0) {
            Err(e) => Err(e),
            Ok(root) => Ok(GroupView {
                len_group: be_u32(data, offset),
                num_group: be_u32(data, offset + 4),
                root,
                offset: offset as usize,
            }),
        }
    }
}

impl IndexHeader {
    /// Reads the index group at `offset`.
    pub fn new(brres: RawBrres, offset: usize) -> (r: Result<Self, Error>)
        ensures
            match group_at(brres.bytes(), offset as int) {
                Ok(g) => r matches Ok(h) && h.view_group() == g,
                Err(e) => r == Err::<IndexHeader, Error>(e),
            },
    {
        let data = match brres.slice(offset, 0x8) {
            Some(d) => d,
            None => {
                return Err(Error::OutOfBounds);
            },
        };
        let len_group = get_u32(data, 0x0);
        let num_group = get_u32(data, 0x4);
        assert(be_u32(data@, 0) == be_u32(brres.bytes(), offset as int));
        assert(be_u32(data@, 4) == be_u32(brres.bytes(), offset + 4));
        let root = IndexEntry::new(brres, offset + 0x8, true, 0)?;
        Ok(IndexHeader { len_group, num_group, root, offset })
    }
}

/// Whether index `child_idx` names a child of an entry with id `id`.
fn is_child_at(brres: RawBrres, root_offset: usize, id: u16, child_idx: u16) -> (r: bool)
    ensures
        r == is_child(brres.bytes(), root_offset as int, id, child_idx),
{
    if child_idx == 0 {
        return false;
    }
    let child_off = match root_offset.checked_add(0x10 * child_idx as usize) {
        Some(o) => o,
        None => {
            proof {
                brres.lemma_len_fits();
            }
            return false;
        },
    };
    match brres.slice(child_off, 2) {
        Some(slice) => {
            assert(be_u16(slice@, 0) == be_u16(brres.bytes(), child_off as int));
            get_u16(slice, 0) < id
        },
        None => false,
    }
}

impl IndexEntry {
    /// Reads the child `child_idx` of an entry with id `id`, if it names one.
    fn child(brres: RawBrres, root_offset: usize, id: u16, child_idx: u16) -> (r: Result<Option<Box<IndexEntry>>, Error>)
        requires
            root_offset >= 8,
        ensures
            match child_at(brres.bytes(), root_offset as int, id, child_idx) {
                Ok(Some(v)) => r matches Ok(Some(e)) && e.view_entry() == *v,
                Ok(None) => r matches Ok(None),
                Err(err) => r == Err::<Option<Box<IndexEntry>>, Error>(err),
            },
        decreases id, 0int,
    {
        if is_child_at(brres, root_offset, id, child_idx) {
            Ok(Some(Box::new(IndexEntry::new(brres, root_offset, false, child_idx)?)))
        } else {
            Ok(None)
        }
    }

    /// Reads entry `current_idx` of the group whose root is at `root_offset`,
    /// with the entries below it.
    #[verifier::spinoff_prover]
    #[verifier::rlimit(30)]
    pub fn new(brres: RawBrres, root_offset: usize, root: bool, current_idx: u16) -> (r: Result<Self, Error>)
        requires
            root_offset >= 8,
        ensures
            match entry_at(brres.bytes(), root_offset as int, root, current_idx) {
                Ok(v) => r matches Ok(e) && e.view_entry() == v,
                Err(err) => r == Err::<IndexEntry, Error>(err),
            },
        decreases be_u16(brres.bytes(), entry_pos(root_offset as int, root, current_idx)), 1int,
    {
        let group_offset = root_offset - 0x8;
        let offset = if root {
            root_offset
        } else {
            match root_offset.checked_add(0x10 * current_idx as usize) {
                Some(o) => o,
                None => {
                    proof {
                        brres.lemma_len_fits();
                    }
                    return Err(Error::OutOfBounds);
                },
            }
        };
        let data = match brres.slice(offset, 0x10) {
            Some(d) => d,
            None => {
                return Err(Error::OutOfBounds);
            },
        };
        let ghost bytes = brres.bytes();
        let ghost pos = offset as int;
        assert(be_u16(data@, 0) == be_u16(bytes, pos));
        assert(be_u16(data@, 2) == be_u16(bytes, pos + 2));
        assert(be_u16(data@, 4) == be_u16(bytes, pos + 4));
        assert(be_u16(data@, 6) == be_u16(bytes, pos + 6));
        assert(be_u32(data@, 8) == be_u32(bytes, pos + 8));
        assert(be_u32(data@, 12) == be_u32(bytes, pos + 12));
        let id = get_u16(data, 0x0);
        let flag = get_u16(data, 0x2);
        let left_idx = get_u16(data, 0x4);
        let right_idx = get_u16(data, 0x6);
        let left = Self::child(brres, root_offset, id, left_idx)?;
        let right = Self::child(brres, root_offset, id, right_idx)?;
        let rel_name_off = get_u32(data, 0x8);
        let (name, len_name) = if root {
            ("ROOT".to_owned(), 4u32)
        } else {
            let name_off = match group_offset.checked_add(rel_name_off as usize) {
                Some(o) => o,
                None => {
                    proof {
                        brres.lemma_len_fits();
                    }
                    return Err(Error::OutOfBounds);
                },
            };
            let name: VariableString = read(brres.data(), name_off)?;
            (name.string, name.length as u32)
        };
        let data_ptr = get_u32(data, 0xC);
        Ok(IndexEntry {
            id,
            flag,
            left_idx,
            left,
            right_idx,
            right,
            name,
            len_name,
            data_ptr,
            root,
            current_idx,
            group_offset: group_offset as u32,
            sub_index: None,
        })
    }
}

// ---------------------------------------------------------------------------
// Storing the entries of a group.
// ---------------------------------------------------------------------------

/// A value that the entries of an index group are stored into.
pub trait FromIndexGroup: Sized {
    /// Whether `next` and `r` are what storing the entry whose data is at
    /// `offset` of `data`, with index `index`, into `prev` gives.
    spec fn stores(prev: Self, next: Self, data: Seq<u8>, offset: u32, index: u16, r: Result<(), Error>) -> bool;

    /// Whether every entry is stored as it comes (`true`), or an entry whose data
    /// does not start with four letters or digits leads to a nested index group
    /// instead (`false`).
    spec fn spec_is_subfile() -> bool;

    /// Stores the entry whose data is at `offset`, with index `index`.
    fn set_data(&mut self, brres: RawBrres, offset: u32, index: u16) -> (r: Result<(), Error>)
        ensures
            Self::stores(*old(self), *final(self), brres.bytes(), offset, index, r),
    ;

    /// Whether every entry is stored as it comes.
    fn is_subfile() -> (r: bool)
        ensures
            r == Self::spec_is_subfile(),
    ;
}

/// Whether a byte is an ASCII letter or digit.
pub open spec fn is_alnum(b: u8) -> bool {
    (0x30 <= b <= 0x39) || (0x41 <= b <= 0x5a) || (0x61 <= b <= 0x7a)
}

/// Whether all bytes of `s` are ASCII letters or digits.
fn all_alnum(s: &[u8]) -> (r: bool)
    ensures
        r == (forall|i: int| 0 <= i < s@.len() ==> #[trigger] is_alnum(s@[i])),
{
    let mut i: usize = 0;
    while i < s.len()
        invariant
            i <= s@.len(),
            forall|j: int| 0 <= j < i ==> #[trigger] is_alnum(s@[j]),
        decreases s@.len() - i,
    {
        let b = s[i];
        if !((0x30 <= b && b <= 0x39) || (0x41 <= b && b <= 0x5a) || (0x61 <= b && b <= 0x7a)) {
            assert(!is_alnum(s@[i as int]));
            return false;
        }
        i = i + 1;
    }
    true
}

/// What an entry does for itself when the group is walked: the store calls it
/// makes (data offset, index), the error that stops the walk, and the nested group
/// it leads to. The root, and an entry whose nested group has been read, do
/// nothing. Otherwise its data lies at its data pointer plus the group offset: it
/// is stored at once when the target stores every entry as it comes; else it is
/// stored when its data starts with four letters or digits, and otherwise the
/// nested group there is read.
pub open spec fn own_step(v: EntryView, data: Seq<u8>, is_sub: bool) -> (Seq<(u32, u16)>, Option<Error>, Option<Box<GroupView>>) {
    let at = v.data_ptr as int + v.group_offset as int;
    if v.root || v.sub_index is Some {
        (Seq::empty(), None, v.sub_index)
    } else if at > u32::MAX {
        (Seq::empty(), Some(Error::OutOfBounds), None)
    } else if is_sub {
        (seq![(at as u32, v.current_idx)], None, None)
    } else if !within(data, at, 4) {
        (Seq::empty(), Some(Error::OutOfBounds), None)
    } else if forall|i: int| 0 <= i < 4 ==> #[trigger] is_alnum(data[at + i]) {
        (seq![(at as u32, v.current_idx)], None, None)
    } else {
        match group_at(data, at) {
            Err(e) => (Seq::empty(), Some(e), None),
            Ok(g) => (Seq::empty(), None, Some(Box::new(g))),
        }
    }
}

/// The outcome of walking an entry: the store calls made in order, the error
/// that stopped the walk after them (if any), and the entry afterwards.
pub struct Walked {
    pub calls: Seq<(u32, u16)>,
    pub stop: Option<Error>,
    pub entry: EntryView,
}

/// The view of an optional entry.
pub open spec fn opt_entry_view(o: Option<Box<IndexEntry>>) -> Option<Box<EntryView>> {
    match o {
        Some(b) => Some(Box::new(b.view_entry())),
        None => None,
    }
}

/// The view of an optional nested group.
pub open spec fn opt_group_view(o: Option<Box<IndexHeader>>) -> Option<Box<GroupView>> {
    match o {
        Some(b) => Some(Box::new(b.view_group())),
        None => None,
    }
}

/// Walking the nested group `sub`, if there is one: its root is walked with one
/// level less of nesting left; with none left, the walk stops.
pub open spec fn sub_walk(sub: Option<Box<GroupView>>, data: Seq<u8>, is_sub: bool, fuel: nat) -> (Seq<(u32, u16)>, Option<Error>, Option<Box<GroupView>>)
    decreases fuel, 0int, sub,
{
    match sub {
        None => (Seq::empty(), None, None),
        Some(g) => if fuel == 0 {
            (Seq::empty(), Some(Error::NestingTooDeep), Some(g))
        } else {
            let w = walk_entry(g.root, data, is_sub, (fuel - 1) as nat);
            (w.calls, w.stop, Some(Box::new(GroupView { root: w.entry, ..*g })))
        },
    }
}

/// Walking the child `c`, if there is one.
pub open spec fn child_walk(c: Option<Box<EntryView>>, data: Seq<u8>, is_sub: bool, fuel: nat) -> (Seq<(u32, u16)>, Option<Error>, Option<Box<EntryView>>)
    decreases fuel, 1int, c,
{
    match c {
        None => (Seq::empty(), None, None),
        Some(b) => {
            let w = walk_entry(*b, data, is_sub, fuel);
            (w.calls, w.stop, Some(Box::new(w.entry)))
        },
    }
}

/// Walks the entry `v`: its own step, then its nested group, then its left and
/// its right child; the first of them that stops ends the walk. `fuel` bounds how
/// deeply nested groups are entered.
#[verifier::opaque]
pub open spec fn walk_entry(v: EntryView, data: Seq<u8>, is_sub: bool, fuel: nat) -> Walked
    decreases fuel, 1int, v,
{
    let o = own_step(v, data, is_sub);
    let s = sub_walk(o.2, data, is_sub, fuel);
    let l = child_walk(v.left, data, is_sub, fuel);
    let rr = child_walk(v.right, data, is_sub, fuel);
    let after_left = if l.1 is Some { Seq::empty() } else { rr.0 };
    let after_sub = if s.1 is Some { Seq::empty() } else { l.0 + after_left };
    let after_own = if o.1 is Some { Seq::empty() } else { s.0 + after_sub };
    Walked {
        calls: o.0 + after_own,
        stop: if o.1 is Some {
            o.1
        } else if s.1 is Some {
            s.1
        } else if l.1 is Some {
            l.1
        } else {
            rr.1
        },
        entry: if o.1 is Some {
            EntryView { sub_index: o.2, ..v }
        } else if s.1 is Some {
            EntryView { sub_index: s.2, ..v }
        } else if l.1 is Some {
            EntryView { sub_index: s.2, left: l.2, ..v }
        } else {
            EntryView { sub_index: s.2, left: l.2, right: rr.2, ..v }
        },
    }
}

/// Whether the data at `at` starts with four ASCII letters or digits.
pub open spec fn starts_named(data: Seq<u8>, at: int) -> bool {
    &&& within(data, at, 4)
    &&& forall|i: int| 0 <= i < 4 ==> #[trigger] is_alnum(data[at + i])
}

/// Whether every store call of `calls` is for data that starts with four ASCII
/// letters or digits.
pub open spec fn all_named(data: Seq<u8>, calls: Seq<(u32, u16)>) -> bool {
    forall|k: int| 0 <= k < calls.len() ==> #[trigger] starts_named(data, calls[k].0 as int)
}

proof fn lemma_all_named_concat(data: Seq<u8>, a: Seq<(u32, u16)>, b: Seq<(u32, u16)>)
    requires
        all_named(data, a),
        all_named(data, b),
    ensures
        all_named(data, a + b),
{
    assert forall|k: int| 0 <= k < (a + b).len() implies #[trigger] starts_named(data, (a + b)[k].0 as int) by {
        if k < a.len() {
            assert((a + b)[k] == a[k]);
        } else {
            assert((a + b)[k] == b[k - a.len()]);
        }
    }
}

/// When the target keeps nested groups, a walk stores only entries whose data
/// starts with four ASCII letters or digits: the data of any other entry is read
/// as a nested group instead.
pub proof fn lemma_walk_stores_only_named_data(v: EntryView, data: Seq<u8>, fuel: nat)
    ensures
        all_named(data, walk_entry(v, data, false, fuel).calls),
    decreases fuel, 1int, v,
{
    reveal(walk_entry);
    let o = own_step(v, data, false);
    let s = sub_walk(o.2, data, false, fuel);
    let l = child_walk(v.left, data, false, fuel);
    let rr = child_walk(v.right, data, false, fuel);
    let empty = Seq::<(u32, u16)>::empty();
    assert(all_named(data, o.0)) by {
        let at = v.data_ptr as int + v.group_offset as int;
        if o.0.len() > 0 {
            assert(o.0 == seq![(at as u32, v.current_idx)]);
            assert(starts_named(data, o.0[0].0 as int));
        }
    }
    assert(all_named(data, empty));
    lemma_sub_walk_stores_only_named_data(o.2, data, fuel);
    lemma_child_walk_stores_only_named_data(v.left, data, fuel);
    lemma_child_walk_stores_only_named_data(v.right, data, fuel);
    let after_left = if l.1 is Some { empty } else { rr.0 };
    lemma_all_named_concat(data, l.0, after_left);
    let after_sub = if s.1 is Some { empty } else { l.0 + after_left };
    lemma_all_named_concat(data, s.0, after_sub);
    let after_own = if o.1 is Some { empty } else { s.0 + after_sub };
    lemma_all_named_concat(data, o.0, after_own);
}

proof fn lemma_sub_walk_stores_only_named_data(sub: Option<Box<GroupView>>, data: Seq<u8>, fuel: nat)
    ensures
        all_named(data, sub_walk(sub, data, false, fuel).0),
    decreases fuel, 0int, sub,
{
    reveal(walk_entry);
    match sub {
        Some(g) => if fuel > 0 {
            lemma_walk_stores_only_named_data(g.root, data, (fuel - 1) as nat);
        } else {
            assert(sub_walk(sub, data, false, fuel).0.len() == 0);
        },
        None => {
            assert(sub_walk(sub, data, false, fuel).0.len() == 0);
        },
    }
}

proof fn lemma_child_walk_stores_only_named_data(c: Option<Box<EntryView>>, data: Seq<u8>, fuel: nat)
    ensures
        all_named(data, child_walk(c, data, false, fuel).0),
    decreases fuel, 1int, c,
{
    reveal(walk_entry);
    match c {
        Some(b) => {
            lemma_walk_stores_only_named_data(*b, data, fuel);
        },
        None => {
            assert(child_walk(c, data, false, fuel).0.len() == 0);
        },
    }
}

/// Whether `r` is the result that a walk's stopping error gives.
pub open spec fn stop_result(stop: Option<Error>, r: Result<(), Error>) -> bool {
    match stop {
        Some(e) => r == Err::<(), Error>(e),
        None => r is Ok,
    }
}

/// Whether storing the entries of `calls` into `prev`, one after the other,
/// can end in `next` with result `r`: the first store that fails ends it with
/// its error; when all succeed, the result is that of `stop`.
pub open spec fn applied<T: FromIndexGroup>(
    prev: T,
    next: T,
    data: Seq<u8>,
    calls: Seq<(u32, u16)>,
    stop: Option<Error>,
    r: Result<(), Error>,
) -> bool
    decreases calls.len(),
{
    if calls.len() == 0 {
        next == prev && stop_result(stop, r)
    } else {
        exists|mid: T, r0: Result<(), Error>|
            #[trigger] T::stores(prev, mid, data, calls[0].0, calls[0].1, r0) && match r0 {
                Err(e) => next == mid && r == Err::<(), Error>(e),
                Ok(()) => applied(mid, next, data, calls.drop_first(), stop, r),
            }
    }
}

/// Storing two runs of entries one after the other, where the first ends well.
proof fn lemma_applied_concat<T: FromIndexGroup>(
    a: T,
    b: T,
    c: T,
    data: Seq<u8>,
    c1: Seq<(u32, u16)>,
    c2: Seq<(u32, u16)>,
    stop: Option<Error>,
    r: Result<(), Error>,
    ok: Result<(), Error>,
)
    requires
        ok is Ok,
        applied(a, b, data, c1, None, ok),
        applied(b, c, data, c2, stop, r),
    ensures
        applied(a, c, data, c1 + c2, stop, r),
    decreases c1.len(),
{
    if c1.len() == 0 {
        assert(c1 + c2 =~= c2);
    } else {
        let (mid, r0) = choose|mid: T, r0: Result<(), Error>|
            #[trigger] T::stores(a, mid, data, c1[0].0, c1[0].1, r0) && match r0 {
                Err(e) => b == mid && ok == Err::<(), Error>(e),
                Ok(()) => applied(mid, b, data, c1.drop_first(), None, ok),
            };
        lemma_applied_concat(mid, b, c, data, c1.drop_first(), c2, stop, r, ok);
        assert((c1 + c2).drop_first() =~= c1.drop_first() + c2);
        assert((c1 + c2)[0] == c1[0]);
    }
}

/// A store that fails ends the run, whatever comes after it.
proof fn lemma_applied_failed<T: FromIndexGroup>(
    a: T,
    b: T,
    data: Seq<u8>,
    c1: Seq<(u32, u16)>,
    c2: Seq<(u32, u16)>,
    stop: Option<Error>,
    e: Error,
)
    requires
        applied(a, b, data, c1, None, Err(e)),
    ensures
        applied(a, b, data, c1 + c2, stop, Err(e)),
    decreases c1.len(),
{
    if c1.len() == 0 {
    } else {
        let (mid, r0) = choose|mid: T, r0: Result<(), Error>|
            #[trigger] T::stores(a, mid, data, c1[0].0, c1[0].1, r0) && match r0 {
                Err(x) => b == mid && Err::<(), Error>(e) == Err::<(), Error>(x),
                Ok(()) => applied(mid, b, data, c1.drop_first(), None, Err(e)),
            };
        if r0 is Ok {
            lemma_applied_failed(mid, b, data, c1.drop_first(), c2, stop, e);
        }
        assert((c1 + c2).drop_first() =~= c1.drop_first() + c2);
        assert((c1 + c2)[0] == c1[0]);
    }
}

/// A run that ends well had no stopping error.
proof fn lemma_applied_ok<T: FromIndexGroup>(a: T, b: T, data: Seq<u8>, c: Seq<(u32, u16)>, stop: Option<Error>, r: Result<(), Error>)
    requires
        applied(a, b, data, c, stop, r),
        r is Ok,
    ensures
        stop is None,
    decreases c.len(),
{
    if c.len() > 0 {
        let (mid, r0) = choose|mid: T, r0: Result<(), Error>|
            #[trigger] T::stores(a, mid, data, c[0].0, c[0].1, r0) && match r0 {
                Err(e) => b == mid && r == Err::<(), Error>(e),
                Ok(()) => applied(mid, b, data, c.drop_first(), stop, r),
            };
        if r0 is Ok {
            lemma_applied_ok(mid, b, data, c.drop_first(), stop, r);
        }
    }
}

/// A single store, as a run of one.
proof fn lemma_applied_one<T: FromIndexGroup>(a: T, b: T, data: Seq<u8>, call: (u32, u16), r: Result<(), Error>)
    requires
        T::stores(a, b, data, call.0, call.1, r),
    ensures
        applied(a, b, data, seq![call], None, r),
{
    let cs = seq![call];
    assert(cs.drop_first() =~= Seq::<(u32, u16)>::empty());
    assert(cs[0] == call);
    if r is Ok {
        assert(applied(b, b, data, cs.drop_first(), None, r));
    }
    assert(T::stores(a, b, data, cs[0].0, cs[0].1, r) && match r {
        Err(e) => b == b && r == Err::<(), Error>(e),
        Ok(()) => applied(b, b, data, cs.drop_first(), None, r),
    });
}

/// One phase of a walk, after a run `pre` that ended well: when the phase ends
/// well the runs join; when it stops with its own error the walk ends there; when
/// one of its stores fails, whatever the walk would have done after it is dropped.
proof fn lemma_phase<T: FromIndexGroup>(
    f0: T,
    fa: T,
    fb: T,
    data: Seq<u8>,
    pre: Seq<(u32, u16)>,
    c: Seq<(u32, u16)>,
    e: Option<Error>,
    r: Result<(), Error>,
    tail: Seq<(u32, u16)>,
    stop: Option<Error>,
    ok: Result<(), Error>,
)
    requires
        ok is Ok,
        applied(f0, fa, data, pre, None, ok),
        applied(fa, fb, data, c, e, r),
    ensures
        r is Ok ==> e is None && applied(f0, fb, data, pre + c, None, r),
        r is Err && e is Some ==> applied(f0, fb, data, pre + c, e, r),
        r is Err && e is None ==> applied(f0, fb, data, pre + c + tail, stop, r),
{
    if r is Ok {
        lemma_applied_ok(fa, fb, data, c, e, r);
        lemma_applied_concat(f0, fa, fb, data, pre, c, None, r, ok);
    } else if e is Some {
        lemma_applied_concat(f0, fa, fb, data, pre, c, e, r, ok);
    } else {
        lemma_applied_concat(f0, fa, fb, data, pre, c, None, r, ok);
        lemma_applied_failed(f0, fb, data, pre + c, tail, stop, r->Err_0);
    }
}

impl IndexEntry {
    /// Stores every entry of the group under this one into `file`: first the
    /// entry itself (reading the nested group it leads to, when the target keeps
    /// nested groups and its data is not a subfile), then the nested group, then
    /// the left and the right child; the first error stops the walk. Nested groups
    /// are entered at most as many levels deep as the file has bytes.
    pub fn get_data<T: FromIndexGroup>(&mut self, brres: RawBrres, file: &mut T) -> (r: Result<(), Error>)
        ensures
            applied(
                *old(file),
                *final(file),
                brres.bytes(),
                walk_entry(old(self).view_entry(), brres.bytes(), T::spec_is_subfile(), brres.bytes().len()).calls,
                walk_entry(old(self).view_entry(), brres.bytes(), T::spec_is_subfile(), brres.bytes().len()).stop,
                r,
            ),
            r is Ok ==> final(self).view_entry() == walk_entry(
                old(self).view_entry(),
                brres.bytes(),
                T::spec_is_subfile(),
                brres.bytes().len(),
            ).entry,
    {
        let fuel = brres.data().len();
        self.walk(brres, file, fuel)
    }

    /// The entry's own step of a walk.
    fn step_own<T: FromIndexGroup>(&mut self, brres: RawBrres, file: &mut T) -> (r: Result<(), Error>)
        ensures
            applied(
                *old(file),
                *final(file),
                brres.bytes(),
                own_step(old(self).view_entry(), brres.bytes(), T::spec_is_subfile()).0,
                own_step(old(self).view_entry(), brres.bytes(), T::spec_is_subfile()).1,
                r,
            ),
            r is Ok ==> final(self).view_entry() == (EntryView {
                sub_index: own_step(old(self).view_entry(), brres.bytes(), T::spec_is_subfile()).2,
                ..old(self).view_entry()
            }),
            final(self).left == old(self).left,
            final(self).right == old(self).right,
    {
        let ghost data = brres.bytes();
        let ghost v = self.view_entry();
        if self.root || self.sub_index.is_some() {
            return Ok(());
        }
        let at = match self.data_ptr.checked_add(self.group_offset) {
            Some(a) => a,
            None => {
                return Err(Error::OutOfBounds);
            },
        };
        let store = if T::is_subfile() {
            true
        } else {
            let magic_raw = match brres.slice(at as usize, 0x4) {
                Some(m) => m,
                None => {
                    return Err(Error::OutOfBounds);
                },
            };
            let b = all_alnum(magic_raw);
            proof {
                assert forall|i: int| 0 <= i < 4 implies magic_raw@[i] == data[at + i] by {}
                if b {
                    assert forall|i: int| 0 <= i < 4 implies #[trigger] is_alnum(data[at + i]) by {
                        assert(is_alnum(magic_raw@[i]));
                    }
                } else {
                    let j = choose|j: int| 0 <= j < magic_raw@.len() && !is_alnum(#[trigger] magic_raw@[j]);
                    assert(!is_alnum(data[at + j]));
                }
            }
            b
        };
        if store {
            let call = (at, self.current_idx);
            let ghost f0 = *file;
            let r0 = file.set_data(brres, at, self.current_idx);
            proof {
                lemma_applied_one(f0, *file, data, call, r0);
            }
            r0
        } else {
            match IndexHeader::new(brres, at as usize) {
                Ok(group) => {
                    self.sub_index = Some(Box::new(group));
                    Ok(())
                },
                Err(e) => Err(e),
            }
        }
    }

    /// The nested-group phase of a walk.
    fn walk_sub<T: FromIndexGroup>(sub: &mut Option<Box<IndexHeader>>, brres: RawBrres, file: &mut T, fuel: usize) -> (r: Result<(), Error>)
        ensures
            applied(
                *old(file),
                *final(file),
                brres.bytes(),
                sub_walk(opt_group_view(*old(sub)), brres.bytes(), T::spec_is_subfile(), fuel as nat).0,
                sub_walk(opt_group_view(*old(sub)), brres.bytes(), T::spec_is_subfile(), fuel as nat).1,
                r,
            ),
            r is Ok ==> opt_group_view(*final(sub)) == sub_walk(
                opt_group_view(*old(sub)),
                brres.bytes(),
                T::spec_is_subfile(),
                fuel as nat,
            ).2,
        decreases fuel, 0int, *old(sub),
    {
        proof {
            reveal(walk_entry);
        }
        match sub.take() {
            None => Ok(()),
            Some(mut group) => {
                if fuel == 0 {
                    *sub = Some(group);
                    return Err(Error::NestingTooDeep);
                }
                let res = group.root.walk(brres, file, fuel - 1);
                *sub = Some(group);
                res
            },
        }
    }

    /// The phase of a walk that walks a child.
    fn walk_child<T: FromIndexGroup>(child: &mut Option<Box<IndexEntry>>, brres: RawBrres, file: &mut T, fuel: usize) -> (r: Result<(), Error>)
        ensures
            applied(
                *old(file),
                *final(file),
                brres.bytes(),
                child_walk(opt_entry_view(*old(child)), brres.bytes(), T::spec_is_subfile(), fuel as nat).0,
                child_walk(opt_entry_view(*old(child)), brres.bytes(), T::spec_is_subfile(), fuel as nat).1,
                r,
            ),
            r is Ok ==> opt_entry_view(*final(child)) == child_walk(
                opt_entry_view(*old(child)),
                brres.bytes(),
                T::spec_is_subfile(),
                fuel as nat,
            ).2,
        decreases fuel, 1int, *old(child),
    {
        proof {
            reveal(walk_entry);
        }
        match child.take() {
            None => Ok(()),
            Some(mut b) => {
                let res = b.walk(brres, file, fuel);
                *child = Some(b);
                res
            },
        }
    }

    /// `get_data`, entering nested groups at most `fuel` levels deep.
    #[verifier::spinoff_prover]
    #[verifier::rlimit(60)]
    fn walk<T: FromIndexGroup>(&mut self, brres: RawBrres, file: &mut T, fuel: usize) -> (r: Result<(), Error>)
        ensures
            applied(
                *old(file),
                *final(file),
                brres.bytes(),
                walk_entry(old(self).view_entry(), brres.bytes(), T::spec_is_subfile(), fuel as nat).calls,
                walk_entry(old(self).view_entry(), brres.bytes(), T::spec_is_subfile(), fuel as nat).stop,
                r,
            ),
            r is Ok ==> final(self).view_entry() == walk_entry(
                old(self).view_entry(),
                brres.bytes(),
                T::spec_is_subfile(),
                fuel as nat,
            ).entry,
        decreases fuel, 1int, *old(self),
    {
        let ghost data = brres.bytes();
        let ghost is_sub = T::spec_is_subfile();
        let ghost v = self.view_entry();
        let ghost o = own_step(v, data, is_sub);
        let ghost s = sub_walk(o.2, data, is_sub, fuel as nat);
        let ghost l = child_walk(v.left, data, is_sub, fuel as nat);
        let ghost rr = child_walk(v.right, data, is_sub, fuel as nat);
        let ghost after_left = if l.1 is Some { Seq::<(u32, u16)>::empty() } else { rr.0 };
        let ghost after_sub = if s.1 is Some { Seq::<(u32, u16)>::empty() } else { l.0 + after_left };
        let ghost after_own = if o.1 is Some { Seq::<(u32, u16)>::empty() } else { s.0 + after_sub };
        let ghost w = walk_entry(v, data, is_sub, fuel as nat);
        proof {
            reveal(walk_entry);
        }
        assert(w.calls == o.0 + after_own);
        let ghost empty = Seq::<(u32, u16)>::empty();
        let ghost f0 = *file;

        let r1 = self.step_own(brres, file);
        let ghost f1 = *file;
        proof {
            assert(applied(f0, f0, data, empty, None, Ok(())));
            assert(empty + o.0 =~= o.0);
            lemma_phase(f0, f0, f1, data, empty, o.0, o.1, r1, after_own, w.stop, Ok(()));
        }
        if r1.is_err() {
            proof {
                if o.1 is Some {
                    assert(o.0 + after_own =~= o.0);
                }
            }
            return r1;
        }

        let r2 = Self::walk_sub(&mut self.sub_index, brres, file, fuel);
        let ghost f2 = *file;
        proof {
            lemma_phase(f0, f1, f2, data, o.0, s.0, s.1, r2, after_sub, w.stop, r1);
            assert(o.0 + s.0 + after_sub =~= o.0 + after_own);
        }
        if r2.is_err() {
            proof {
                if s.1 is Some {
                    assert(o.0 + s.0 =~= o.0 + after_own);
                }
            }
            return r2;
        }

        let r3 = Self::walk_child(&mut self.left, brres, file, fuel);
        let ghost f3 = *file;
        proof {
            lemma_phase(f0, f2, f3, data, o.0 + s.0, l.0, l.1, r3, after_left, w.stop, r2);
            assert(o.0 + s.0 + l.0 + after_left =~= o.0 + after_own);
        }
        if r3.is_err() {
            proof {
                if l.1 is Some {
                    assert(o.0 + s.0 + l.0 =~= o.0 + after_own);
                }
            }
            return r3;
        }

        let r4 = Self::walk_child(&mut self.right, brres, file, fuel);
        proof {
            lemma_phase(f0, f3, *file, data, o.0 + s.0 + l.0, rr.0, rr.1, r4, empty, w.stop, r3);
            assert(o.0 + s.0 + l.0 + rr.0 =~= o.0 + after_own);
            assert(o.0 + s.0 + l.0 + rr.0 + empty =~= o.0 + after_own);
        }
        r4
    }
}

// ---------------------------------------------------------------------------
// Listing the names of a group.
// ---------------------------------------------------------------------------

/// A line of the listing of the names under an entry.
pub enum NameLine {
    /// The name of an entry.
    Node(String),
    /// The name of an entry whose nested group the listing enters next.
    Enter(String),
}

/// A listing line as a flag (`true` for entering a nested group) and a name.
pub open spec fn line_view(l: NameLine) -> (bool, Seq<char>) {
    match l {
        NameLine::Node(n) => (false, n@),
        NameLine::Enter(n) => (true, n@),
    }
}

/// The listing of the names under the entry `v`: its own name; then, when it
/// leads to a nested group, a line entering it and the listing of that group's
/// root; then the listings of its left and its right child.
pub open spec fn name_lines(v: EntryView) -> Seq<(bool, Seq<char>)>
    decreases v,
{
    let own = seq![(false, v.name)];
    let sub = match v.sub_index {
        Some(g) => seq![(true, v.name)] + name_lines(g.root),
        None => Seq::empty(),
    };
    let left = match v.left {
        Some(b) => name_lines(*b),
        None => Seq::empty(),
    };
    let right = match v.right {
        Some(b) => name_lines(*b),
        None => Seq::empty(),
    };
    own + sub + left + right
}

impl IndexEntry {
    /// The listing of the names under this entry, nested groups included.
    pub fn entry_names(&self) -> (r: Vec<NameLine>)
        ensures
            r@.map_values(|l: NameLine| line_view(l)) == name_lines(self.view_entry()),
        decreases self,
    {
        let ghost v = self.view_entry();
        let mut out: Vec<NameLine> = Vec::new();
        out.push(NameLine::Node(self.name.clone()));
        let ghost own = out@.map_values(|l: NameLine| line_view(l));
        assert(own =~= seq![(false, v.name)]);
        let ghost mut sub = Seq::<(bool, Seq<char>)>::empty();
        match &self.sub_index {
            Some(g) => {
                out.push(NameLine::Enter(self.name.clone()));
                let mut inner = g.root.entry_names();
                proof {
                    sub = seq![(true, self.name@)] + inner@.map_values(|l: NameLine| line_view(l));
                    assert(g.view_group().root == g.root.view_entry());
                    assert(v.sub_index == Some(Box::new(g.view_group())));
                    assert(sub == seq![(true, v.name)] + name_lines(v.sub_index->Some_0.root));
                }
                out.append(&mut inner);
                assert(out@.map_values(|l: NameLine| line_view(l)) =~= own + sub);
            },
            None => {
                assert(out@.map_values(|l: NameLine| line_view(l)) =~= own + sub);
            },
        }
        let ghost after_sub = out@.map_values(|l: NameLine| line_view(l));
        let ghost mut lv = Seq::<(bool, Seq<char>)>::empty();
        match &self.left {
            Some(b) => {
                let mut inner = b.entry_names();
                proof {
                    lv = inner@.map_values(|l: NameLine| line_view(l));
                }
                out.append(&mut inner);
                assert(out@.map_values(|l: NameLine| line_view(l)) =~= after_sub + lv);
            },
            None => {
                assert(out@.map_values(|l: NameLine| line_view(l)) =~= after_sub + lv);
            },
        }
        let ghost after_left = out@.map_values(|l: NameLine| line_view(l));
        let ghost mut rv = Seq::<(bool, Seq<char>)>::empty();
        match &self.right {
            Some(b) => {
                let mut inner = b.entry_names();
                proof {
                    rv = inner@.map_values(|l: NameLine| line_view(l));
                }
                out.append(&mut inner);
                assert(out@.map_values(|l: NameLine| line_view(l)) =~= after_left + rv);
            },
            None => {
                assert(out@.map_values(|l: NameLine| line_view(l)) =~= after_left + rv);
            },
        }
        assert(name_lines(v) == own + sub + lv + rv);
        out
    }
}

} // verus!
