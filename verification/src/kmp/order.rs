//! The order of the offset table of a `.kmp` file: sections are told apart by
//! their names, so exchanging two entries of the table reads the same file.
use vstd::prelude::*;
use crate::binary::{within, be_u16, be_u32, utf8_text, same_from, lemma_same_from};
use crate::error::Error;
use crate::kmp::sections::{KmpEntry, PathGroup, Ktpt, Enpt, Itpt, Ckpt, Gobj, Poti, Area, Came, Jgpt, Cnpt, Mspt, Stgi};
use crate::kmp::{
    entry_at, header_outcome, kind_at, kind_outcome, kmp_outcome, last_of_kind, poti_section_outcome, route_at,
    section_at, section_outcome, sections_in_range, step_outcome, walk, Kmp, Section, SectionWalk,
};

verus! {

// ---------------------------------------------------------------------------
// A section reads the same from two byte sequences that agree from its start on.
// ---------------------------------------------------------------------------

proof fn lemma_section_frame<T: KmpEntry>(d1: Seq<u8>, d2: Seq<u8>, at: int)
    requires
        same_from(d1, d2, at),
        0 <= at,
    ensures
        section_outcome::<T>(d1, at) == section_outcome::<T>(d2, at),
        section_outcome::<T>(d1, at) is Ok ==> forall|s: Section<T>| #[trigger] s.read_from(d1, at) == s.read_from(d2, at),
{
    lemma_same_from(d1, d2, at);
    if within(d1, at, 8) {
        let n = be_u16(d1, at + 4);
        assert forall|i: int|
            #![trigger T::readable(d1, entry_at::<T>(at, i))]
            #![trigger T::readable(d2, entry_at::<T>(at, i))]
            0 <= i < n implies T::readable(d1, entry_at::<T>(at, i)) == T::readable(d2, entry_at::<T>(at, i)) && (
            T::readable(d1, entry_at::<T>(at, i)) ==> forall|e: T| #[trigger] e.read_from(d1, entry_at::<T>(at, i))
                == e.read_from(d2, entry_at::<T>(at, i))) by {
            assert(T::SIZE * i >= 0) by (nonlinear_arith)
                requires
                    i >= 0,
            ;
            T::lemma_frame(d1, d2, entry_at::<T>(at, i));
        }
        if section_outcome::<T>(d1, at) is Ok {
            assert forall|s: Section<T>| #[trigger] s.read_from(d1, at) == s.read_from(d2, at) by {
                if s.entries@.len() == n {
                    assert forall|i: int|
                        #![trigger s.entries@[i].read_from(d1, entry_at::<T>(at, i))]
                        #![trigger s.entries@[i].read_from(d2, entry_at::<T>(at, i))]
                        0 <= i < n implies s.entries@[i].read_from(d1, entry_at::<T>(at, i))
                        == s.entries@[i].read_from(d2, entry_at::<T>(at, i)) by {
                        assert(T::readable(d1, entry_at::<T>(at, i)));
                    }
                }
            }
        }
    }
}

/// Every route of a POTI section starts after the section's head.
proof fn lemma_route_after(d: Seq<u8>, at: int, i: nat)
    ensures
        route_at(d, at, i) >= at + 8,
    decreases i,
{
    if i > 0 {
        lemma_route_after(d, at, (i - 1) as nat);
    }
}

proof fn lemma_routes_frame(d1: Seq<u8>, d2: Seq<u8>, at: int, n: nat)
    requires
        same_from(d1, d2, at),
        0 <= at,
        forall|i: nat| i < n ==> #[trigger] Poti::readable(d1, route_at(d1, at, i)),
    ensures
        forall|i: nat| i <= n ==> #[trigger] route_at(d1, at, i) == route_at(d2, at, i),
        forall|i: nat| i < n ==> #[trigger] Poti::readable(d2, route_at(d2, at, i)),
    decreases n,
{
    if n > 0 {
        let m = (n - 1) as nat;
        lemma_routes_frame(d1, d2, at, m);
        let r = route_at(d1, at, m);
        lemma_route_after(d1, at, m);
        assert(Poti::readable(d1, r));
        Poti::lemma_frame(d1, d2, r);
        assert(route_at(d1, at, n) == route_at(d2, at, n));
    }
}

proof fn lemma_poti_frame(d1: Seq<u8>, d2: Seq<u8>, at: int)
    requires
        same_from(d1, d2, at),
        0 <= at,
    ensures
        poti_section_outcome(d1, at) == poti_section_outcome(d2, at),
        poti_section_outcome(d1, at) is Ok ==> forall|s: Section<Poti>| #[trigger] s.read_routes_from(d1, at)
            == s.read_routes_from(d2, at),
{
    lemma_same_from(d1, d2, at);
    if within(d1, at, 8) {
        let n = be_u16(d1, at + 4);
        assert(be_u16(d1, at + 4) == be_u16(d2, at + 4));
        let all1 = forall|i: nat| i < n ==> #[trigger] Poti::readable(d1, route_at(d1, at, i));
        let all2 = forall|i: nat| i < n ==> #[trigger] Poti::readable(d2, route_at(d2, at, i));
        if all1 {
            lemma_routes_frame(d1, d2, at, n as nat);
        }
        if all2 {
            lemma_routes_frame(d2, d1, at, n as nat);
        }
        assert(all1 == all2);
        if all1 {
            lemma_routes_frame(d1, d2, at, n as nat);
            assert forall|s: Section<Poti>| #[trigger] s.read_routes_from(d1, at) == s.read_routes_from(d2, at) by {
                assert forall|i: nat|
                    #![trigger s.entries@[i as int].read_from(d1, route_at(d1, at, i))]
                    #![trigger s.entries@[i as int].read_from(d2, route_at(d2, at, i))]
                    i < n && s.entries@.len() == n implies s.entries@[i as int].read_from(d1, route_at(d1, at, i))
                    == s.entries@[i as int].read_from(d2, route_at(d2, at, i)) by {
                    assert(route_at(d1, at, i) == route_at(d2, at, i));
                    lemma_route_after(d1, at, i);
                    assert(Poti::readable(d1, route_at(d1, at, i)));
                    Poti::lemma_frame(d1, d2, route_at(d1, at, i));
                }
            }
        }
    }
}

/// Reading a section of kind `k` at `at` gives the same from two byte sequences
/// that agree from `at` on.
proof fn lemma_kind_frame(d1: Seq<u8>, d2: Seq<u8>, k: int, at: int)
    requires
        same_from(d1, d2, at),
        0 <= at,
    ensures
        kind_outcome(d1, k, at) == kind_outcome(d2, k, at),
{
    reveal(kind_outcome);
    if k == 0 {
        lemma_section_frame::<Ktpt>(d1, d2, at);
    } else if k == 1 {
        lemma_section_frame::<Enpt>(d1, d2, at);
    } else if k == 2 {
        lemma_section_frame::<PathGroup<Enpt>>(d1, d2, at);
    } else if k == 3 {
        lemma_section_frame::<Itpt>(d1, d2, at);
    } else if k == 4 {
        lemma_section_frame::<PathGroup<Itpt>>(d1, d2, at);
    } else if k == 5 {
        lemma_section_frame::<Ckpt>(d1, d2, at);
    } else if k == 6 {
        lemma_section_frame::<PathGroup<Ckpt>>(d1, d2, at);
    } else if k == 7 {
        lemma_section_frame::<Gobj>(d1, d2, at);
    } else if k == 8 {
        lemma_poti_frame(d1, d2, at);
    } else if k == 9 {
        lemma_section_frame::<Area>(d1, d2, at);
    } else if k == 10 {
        lemma_section_frame::<Came>(d1, d2, at);
    } else if k == 11 {
        lemma_section_frame::<Jgpt>(d1, d2, at);
    } else if k == 12 {
        lemma_section_frame::<Cnpt>(d1, d2, at);
    } else if k == 13 {
        lemma_section_frame::<Mspt>(d1, d2, at);
    } else {
        lemma_section_frame::<Stgi>(d1, d2, at);
    }
}

/// The kind of a section named at `at` is the same in two byte sequences that
/// agree from `at` on.
proof fn lemma_kind_at_frame(d1: Seq<u8>, d2: Seq<u8>, at: int)
    requires
        same_from(d1, d2, at),
        within(d1, at, 4),
    ensures
        kind_at(d1, at) == kind_at(d2, at),
{
    reveal(kind_at);
    lemma_same_from(d1, d2, at);
    assert(d1.subrange(at, at + 4) == d2.subrange(at, at + 4));
}

/// Section `p1` of `d1` and section `p2` of `d2` start at the same place, after
/// which the two agree: reading them gives the same.
proof fn lemma_step_frame(d1: Seq<u8>, d2: Seq<u8>, p1: int, p2: int)
    requires
        section_at(d1, p1) == section_at(d2, p2),
        same_from(d1, d2, section_at(d1, p1)),
        0 <= section_at(d1, p1),
    ensures
        step_outcome(d1, p1) == step_outcome(d2, p2),
{
    let at = section_at(d1, p1);
    lemma_same_from(d1, d2, at);
    if within(d1, at, 4) {
        lemma_kind_at_frame(d1, d2, at);
        lemma_kind_frame(d1, d2, kind_at(d1, at), at);
    }
}

/// Going through the sections from `n` on reads them all exactly when each of
/// them starts inside the data and reads well.
proof fn lemma_walk_done(d: Seq<u8>, n: int)
    requires
        0 <= n <= 15,
    ensures
        (walk(d, n) is Done) <==> (forall|p: int| n <= p < 15 ==> section_at(d, p) <= d.len() && #[trigger] step_outcome(d, p) is Ok),
    decreases 15 - n,
{
    if n < 15 {
        lemma_walk_done(d, n + 1);
    }
}

/// The last section of kind `k` among the first `n`, when there is one, is one
/// of them and has that kind.
proof fn lemma_last_of_kind_found(d: Seq<u8>, k: int, n: int)
    ensures
        last_of_kind(d, k, n) >= 0 ==> last_of_kind(d, k, n) < n && kind_at(d, section_at(d, last_of_kind(d, k, n))) == k,
    decreases n,
{
    if n > 0 {
        lemma_last_of_kind_found(d, k, n - 1);
    }
}

/// When section `p` is the only one of kind `k` among the first `n`, it is the last.
proof fn lemma_last_of_kind_unique(d: Seq<u8>, k: int, p: int, n: int)
    requires
        0 <= p < n,
        kind_at(d, section_at(d, p)) == k,
        forall|q: int| 0 <= q < n && q != p ==> #[trigger] kind_at(d, section_at(d, q)) != k,
    ensures
        last_of_kind(d, k, n) == p,
    decreases n,
{
    if n - 1 != p {
        assert(kind_at(d, section_at(d, n - 1)) != k);
        lemma_last_of_kind_unique(d, k, p, n - 1);
    }
}

/// When each of the fifteen kinds is found among the fifteen sections, no two
/// sections have the same kind.
proof fn lemma_kinds_distinct(d: Seq<u8>)
    requires
        forall|k: int| 0 <= k < 15 ==> #[trigger] last_of_kind(d, k, 15) >= 0,
    ensures
        forall|p: int, q: int|
            0 <= p < 15 && 0 <= q < 15 && p != q ==> #[trigger] kind_at(d, section_at(d, p)) != #[trigger] kind_at(d, section_at(d, q)),
{
    let s = Seq::new(15, |p: int| kind_at(d, section_at(d, p)));
    let all = vstd::set_lib::set_int_range(0, 15);
    assert forall|k: int| all.contains(k) implies s.to_set().contains(k) by {
        lemma_last_of_kind_found(d, k, 15);
        let p = last_of_kind(d, k, 15);
        assert(s[p] == k);
    }
    vstd::set_lib::lemma_int_range(0, 15);
    vstd::seq_lib::seq_to_set_is_finite(s);
    s.lemma_cardinality_of_set();
    vstd::set_lib::lemma_len_subset(all, s.to_set());
    s.lemma_no_dup_set_cardinality();
    assert forall|p: int, q: int| 0 <= p < 15 && 0 <= q < 15 && p != q implies kind_at(d, section_at(d, p)) != kind_at(
        d,
        section_at(d, q),
    ) by {
        assert(s[p] != s[q]);
    }
}

// ---------------------------------------------------------------------------
// Exchanging two entries of the offset table.
// ---------------------------------------------------------------------------

/// The bytes `data` with entries `i` and `j` of the offset table exchanged.
pub open spec fn swap_table(data: Seq<u8>, i: int, j: int) -> Seq<u8> {
    Seq::new(
        data.len(),
        |k: int|
            if 0x10 + 4 * i <= k < 0x14 + 4 * i {
                data[k - 4 * i + 4 * j]
            } else if 0x10 + 4 * j <= k < 0x14 + 4 * j {
                data[k - 4 * j + 4 * i]
            } else {
                data[k]
            },
    )
}

/// Where entry `p` of the table comes from once entries `i` and `j` are exchanged.
pub open spec fn swapped(p: int, i: int, j: int) -> int {
    if p == i {
        j
    } else if p == j {
        i
    } else {
        p
    }
}

/// What exchanging two entries of a table that lies inside the data changes:
/// only the table, whose entries move.
proof fn lemma_swap_basics(d1: Seq<u8>, i: int, j: int)
    requires
        0 <= i < 15,
        0 <= j < 15,
        within(d1, 0x10, 60),
    ensures
        swap_table(d1, i, j).len() == d1.len(),
        same_from(d1, swap_table(d1, i, j), 0x4C),
        forall|k: int| 0 <= k < 0x10 ==> #[trigger] swap_table(d1, i, j)[k] == d1[k],
        forall|p: int| 0 <= p < 15 ==> #[trigger] section_at(swap_table(d1, i, j), p) == section_at(d1, swapped(p, i, j)),
{
    let d2 = swap_table(d1, i, j);
    assert forall|p: int| 0 <= p < 15 implies #[trigger] section_at(d2, p) == section_at(d1, swapped(p, i, j)) by {
        let q = swapped(p, i, j);
        let a = 0x10 + 4 * p;
        let b = 0x10 + 4 * q;
        assert(d2[a] == d1[b] && d2[a + 1] == d1[b + 1] && d2[a + 2] == d1[b + 2] && d2[a + 3] == d1[b + 3]);
        assert(be_u32(d2, a) == be_u32(d1, b));
        assert(d2[0xA] == d1[0xA] && d2[0xB] == d1[0xB]);
        assert(be_u16(d2, 0xA) == be_u16(d1, 0xA));
    }
}

/// Under the sections of a file that reads well, each kind's section sits at the
/// same place once two entries of the table are exchanged.
proof fn lemma_kind_moves(d1: Seq<u8>, i: int, j: int, k: int)
    requires
        0 <= i < 15,
        0 <= j < 15,
        0 <= k < 15,
        within(d1, 0x10, 60),
        forall|p: int| 0 <= p < 15 ==> #[trigger] section_at(d1, p) >= 0x4C,
        forall|p: int| 0 <= p < 15 ==> section_at(d1, p) <= d1.len() && #[trigger] step_outcome(d1, p) is Ok,
        forall|x: int| 0 <= x < 15 ==> #[trigger] last_of_kind(d1, x, 15) >= 0,
    ensures
        last_of_kind(swap_table(d1, i, j), k, 15) == swapped(last_of_kind(d1, k, 15), i, j),
        section_at(swap_table(d1, i, j), last_of_kind(swap_table(d1, i, j), k, 15)) == section_at(d1, last_of_kind(d1, k, 15)),
        kind_outcome(d1, k, section_at(d1, last_of_kind(d1, k, 15))) is Ok,
{
    let d2 = swap_table(d1, i, j);
    lemma_swap_basics(d1, i, j);
    lemma_kinds_distinct(d1);
    lemma_last_of_kind_found(d1, k, 15);
    let q = last_of_kind(d1, k, 15);
    assert forall|p: int| 0 <= p < 15 implies #[trigger] kind_at(d2, section_at(d2, p)) == kind_at(d1, section_at(d1, swapped(p, i, j))) by {
        let at = section_at(d1, swapped(p, i, j));
        assert(step_outcome(d1, swapped(p, i, j)) is Ok);
        assert(within(d1, at, 4));
        assert(same_from(d1, d2, at));
        lemma_kind_at_frame(d1, d2, at);
    }
    let sq = swapped(q, i, j);
    assert(swapped(sq, i, j) == q);
    assert forall|p: int| 0 <= p < 15 && p != sq implies #[trigger] kind_at(d2, section_at(d2, p)) != k by {
        assert(swapped(p, i, j) != q);
        assert(kind_at(d1, section_at(d1, swapped(p, i, j))) != kind_at(d1, section_at(d1, q)));
    }
    assert(kind_at(d2, section_at(d2, sq)) == k);
    lemma_last_of_kind_unique(d2, k, sq, 15);
    assert(step_outcome(d1, q) is Ok);
}

/// A file whose sections of each kind sit at the same places in `d1` and `d2`,
/// read well in `d1`, and lie where the two agree, reads the same from both.
proof fn lemma_read_same(d1: Seq<u8>, d2: Seq<u8>, kmp: Kmp)
    requires
        same_from(d1, d2, 0x4C),
        forall|k: int| 0 <= k < 0x10 ==> #[trigger] d2[k] == d1[k],
        d1.len() >= 0x10,
        forall|k: int| 0 <= k < 15 ==> #[trigger] section_at(d2, last_of_kind(d2, k, 15)) == section_at(d1, last_of_kind(d1, k, 15)),
        forall|k: int| 0 <= k < 15 ==> #[trigger] kind_outcome(d1, k, section_at(d1, last_of_kind(d1, k, 15))) is Ok,
        forall|k: int| 0 <= k < 15 ==> #[trigger] section_at(d1, last_of_kind(d1, k, 15)) >= 0x4C,
    ensures
        kmp.read_from(d1) == kmp.read_from(d2),
{
    reveal(kind_outcome);
    let at = |k: int| section_at(d1, last_of_kind(d1, k, 15));
    assert forall|k: int| 0 <= k < 15 implies same_from(d1, d2, #[trigger] at(k)) by {
        assert(section_at(d1, last_of_kind(d1, k, 15)) >= 0x4C);
    }
    assert(d2.subrange(0, 4) =~= d1.subrange(0, 4));
    assert(d2[4] == d1[4] && d2[5] == d1[5] && d2[6] == d1[6] && d2[7] == d1[7]);
    assert(d2[8] == d1[8] && d2[9] == d1[9] && d2[0xA] == d1[0xA] && d2[0xB] == d1[0xB]);
    assert(d2[0xC] == d1[0xC] && d2[0xD] == d1[0xD] && d2[0xE] == d1[0xE] && d2[0xF] == d1[0xF]);
    assert(kmp.header.read_from(d1) == kmp.header.read_from(d2));
    assert forall|k: int| 0 <= k < 15 implies section_at(d2, last_of_kind(d2, k, 15)) == #[trigger] at(k) by {
        assert(section_at(d2, last_of_kind(d2, k, 15)) == section_at(d1, last_of_kind(d1, k, 15)));
    }
    assert forall|k: int| 0 <= k < 15 implies kind_outcome(d1, k, #[trigger] at(k)) is Ok by {
        assert(kind_outcome(d1, k, section_at(d1, last_of_kind(d1, k, 15))) is Ok);
    }
    assert(kmp.ktpt.read_from(d1, at(0)) == kmp.ktpt.read_from(d2, at(0))) by {
        lemma_section_frame::<Ktpt>(d1, d2, at(0));
    }
    assert(kmp.enpt.read_from(d1, at(1)) == kmp.enpt.read_from(d2, at(1))) by {
        lemma_section_frame::<Enpt>(d1, d2, at(1));
    }
    assert(kmp.enph.read_from(d1, at(2)) == kmp.enph.read_from(d2, at(2))) by {
        lemma_section_frame::<PathGroup<Enpt>>(d1, d2, at(2));
    }
    assert(kmp.itpt.read_from(d1, at(3)) == kmp.itpt.read_from(d2, at(3))) by {
        lemma_section_frame::<Itpt>(d1, d2, at(3));
    }
    assert(kmp.itph.read_from(d1, at(4)) == kmp.itph.read_from(d2, at(4))) by {
        lemma_section_frame::<PathGroup<Itpt>>(d1, d2, at(4));
    }
    assert(kmp.ckpt.read_from(d1, at(5)) == kmp.ckpt.read_from(d2, at(5))) by {
        lemma_section_frame::<Ckpt>(d1, d2, at(5));
    }
    assert(kmp.ckph.read_from(d1, at(6)) == kmp.ckph.read_from(d2, at(6))) by {
        lemma_section_frame::<PathGroup<Ckpt>>(d1, d2, at(6));
    }
    assert(kmp.gobj.read_from(d1, at(7)) == kmp.gobj.read_from(d2, at(7))) by {
        lemma_section_frame::<Gobj>(d1, d2, at(7));
    }
    assert(kmp.poti.read_routes_from(d1, at(8)) == kmp.poti.read_routes_from(d2, at(8))) by {
        lemma_poti_frame(d1, d2, at(8));
    }
    assert(kmp.area.read_from(d1, at(9)) == kmp.area.read_from(d2, at(9))) by {
        lemma_section_frame::<Area>(d1, d2, at(9));
    }
    assert(kmp.came.read_from(d1, at(10)) == kmp.came.read_from(d2, at(10))) by {
        lemma_section_frame::<Came>(d1, d2, at(10));
    }
    assert(kmp.jgpt.read_from(d1, at(11)) == kmp.jgpt.read_from(d2, at(11))) by {
        lemma_section_frame::<Jgpt>(d1, d2, at(11));
    }
    assert(kmp.cnpt.read_from(d1, at(12)) == kmp.cnpt.read_from(d2, at(12))) by {
        lemma_section_frame::<Cnpt>(d1, d2, at(12));
    }
    assert(kmp.mspt.read_from(d1, at(13)) == kmp.mspt.read_from(d2, at(13))) by {
        lemma_section_frame::<Mspt>(d1, d2, at(13));
    }
    assert(kmp.stgi.read_from(d1, at(14)) == kmp.stgi.read_from(d2, at(14))) by {
        lemma_section_frame::<Stgi>(d1, d2, at(14));
    }
}

/// Exchanging two entries of the offset table reads the same file: the sections
/// are told apart by their names, not by their place in the table. This holds of
/// a file that reads well and whose sections all start after the table; where a
/// section overlaps the table, exchanging the entries changes the section itself.
pub proof fn lemma_table_order_is_free(data: Seq<u8>, i: int, j: int)
    requires
        0 <= i < 15,
        0 <= j < 15,
        kmp_outcome(data) is Ok,
        sections_in_range(data),
        forall|p: int| 0 <= p < 15 ==> #[trigger] section_at(data, p) >= 0x4C,
    ensures
        kmp_outcome(swap_table(data, i, j)) is Ok,
        sections_in_range(swap_table(data, i, j)),
        forall|kmp: Kmp| #[trigger] kmp.read_from(data) == kmp.read_from(swap_table(data, i, j)),
{
    let d1 = data;
    let d2 = swap_table(d1, i, j);
    lemma_swap_basics(d1, i, j);
    lemma_same_from(d1, d2, 0x4C);
    // The header is untouched.
    assert(d2.subrange(0, 4) =~= d1.subrange(0, 4));
    assert(header_outcome(d2) == header_outcome(d1));
    assert(be_u32(d2, 4) == be_u32(d1, 4) && be_u16(d2, 8) == be_u16(d1, 8) && be_u16(d2, 0xA) == be_u16(d1, 0xA)
        && be_u32(d2, 0xC) == be_u32(d1, 0xC)) by {
        assert(d2[4] == d1[4] && d2[5] == d1[5] && d2[6] == d1[6] && d2[7] == d1[7]);
        assert(d2[8] == d1[8] && d2[9] == d1[9] && d2[0xA] == d1[0xA] && d2[0xB] == d1[0xB]);
        assert(d2[0xC] == d1[0xC] && d2[0xD] == d1[0xD] && d2[0xE] == d1[0xE] && d2[0xF] == d1[0xF]);
    }
    // Every section of `d1` reads well, so every section of `d2` does.
    lemma_walk_done(d1, 0);
    assert(walk(d1, 0) is Done);
    assert forall|p: int| 0 <= p < 15 implies section_at(d2, p) <= d2.len() && #[trigger] step_outcome(d2, p) is Ok by {
        let q = swapped(p, i, j);
        assert(step_outcome(d1, q) is Ok);
        assert(same_from(d1, d2, section_at(d1, q)));
        lemma_step_frame(d1, d2, q, p);
    }
    lemma_walk_done(d2, 0);
    // Every kind is found in `d1`, and its section sits at the same place in `d2`.
    assert forall|k: int| 0 <= k < 15 implies #[trigger] last_of_kind(d1, k, 15) >= 0 by {
        if last_of_kind(d1, k, 15) < 0 {
            assert(exists|x: int| 0 <= x < 15 && #[trigger] last_of_kind(d1, x, 15) < 0);
        }
    }
    assert forall|k: int| 0 <= k < 15 implies {
        &&& last_of_kind(d2, k, 15) >= 0
        &&& #[trigger] section_at(d2, last_of_kind(d2, k, 15)) == section_at(d1, last_of_kind(d1, k, 15))
        &&& kind_outcome(d1, k, section_at(d1, last_of_kind(d1, k, 15))) is Ok
    } by {
        lemma_kind_moves(d1, i, j, k);
    }
    assert(!(exists|k: int| 0 <= k < 15 && #[trigger] last_of_kind(d2, k, 15) < 0)) by {
        if exists|k: int| 0 <= k < 15 && #[trigger] last_of_kind(d2, k, 15) < 0 {
            let k = choose|k: int| 0 <= k < 15 && #[trigger] last_of_kind(d2, k, 15) < 0;
            assert(section_at(d2, last_of_kind(d2, k, 15)) == section_at(d1, last_of_kind(d1, k, 15)));
        }
    }
    assert forall|k: int| 0 <= k < 15 implies #[trigger] kind_outcome(d1, k, section_at(d1, last_of_kind(d1, k, 15))) is Ok by {
        lemma_kind_moves(d1, i, j, k);
    }
    assert forall|k: int| 0 <= k < 15 implies #[trigger] section_at(d1, last_of_kind(d1, k, 15)) >= 0x4C by {
        lemma_last_of_kind_found(d1, k, 15);
    }
    // Each section reads the same from both.
    assert forall|kmp: Kmp| #[trigger] kmp.read_from(d1) == kmp.read_from(d2) by {
        lemma_read_same(d1, d2, kmp);
    }
}

} // verus!
