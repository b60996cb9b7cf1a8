//! The page-table manager: a four-level radix tree with 512 entries per
//! table that maps virtual pages of 4 KiB to physical frames.
use crate::memory::address::canonical;
use crate::memory::frame_allocator::{
    after_allocations, law_allocated_frame_is_usable_and_unused, law_allocation_uses_one_frame,
    law_allocations_keep_issued_frames, lemma_allocations_step, AllocatorView, FrameAllocator,
};
use vstd::prelude::*;

verus! {

/// Number of entries of one table.
pub const ENTRY_COUNT: usize = 512;

/// Number of virtual pages that four levels can tell apart: 2^36.
pub const PAGE_COUNT: u64 = 0x10_0000_0000;

/// What a mapping permits.
#[derive(Clone, Copy, Debug, PartialEq, Eq, Structural)]
pub struct PageFlags {
    /// The mapping is in force.
    pub present: bool,
    /// The page may be written.
    pub writable: bool,
    /// The page may be used from user mode.
    pub user: bool,
    /// No instruction may be fetched from the page.
    pub no_execute: bool,
}

/// Where a virtual page leads.
#[derive(Clone, Copy, Debug, PartialEq, Eq, Structural)]
pub struct Mapping {
    /// Physical address of the frame.
    pub frame: u64,
    /// What the mapping permits.
    pub flags: PageFlags,
}

/// The number of the page that holds `address`: bits 12 to 47.
pub open spec fn page_number(address: u64) -> int {
    (address as int / 4096) % 0x10_0000_0000
}

/// Index into the table of `level` on the way to page `vpn`. Level 4 is the
/// root; level 1 holds the pages.
pub open spec fn index_at(vpn: int, level: int) -> int {
    if level == 4 {
        (vpn / 0x800_0000) % 512
    } else if level == 3 {
        (vpn / 0x4_0000) % 512
    } else if level == 2 {
        (vpn / 512) % 512
    } else {
        vpn % 512
    }
}

/// What tells the table of `level` on the way to page `vpn` from the other
/// tables of that level: the page number without the bits that the table and
/// those below it resolve.
pub open spec fn prefix_at(vpn: int, level: int) -> int {
    if level == 4 {
        0
    } else if level == 3 {
        vpn / 0x800_0000
    } else if level == 2 {
        vpn / 0x4_0000
    } else {
        vpn / 512
    }
}

/// One slot of a table.
#[derive(Clone, Copy)]
enum Entry {
    /// Nothing is mapped through this slot.
    Empty,
    /// The slot leads to the table `child`, which lives in `frame`.
    Table { child: usize, frame: u64 },
    /// The slot maps a page.
    Page { frame: u64, flags: PageFlags },
}

/// What is known of one table besides its entries.
#[derive(Clone, Copy)]
struct TableInfo {
    /// Physical address of the frame that the table lives in.
    frame: u64,
    /// Level of the table, 4 for the root and 1 for a table of pages.
    level: u8,
    /// The prefix of the page numbers that the table serves.
    prefix: u64,
    /// The table whose entry leads here; the root names itself.
    parent: usize,
}

/// The table of `level` on the way to page `vpn`, if the tree reaches that
/// far down.
spec fn descend(infos: Seq<TableInfo>, entries: Seq<Entry>, vpn: int, level: int) -> Option<
    int,
>
    decreases 4 - level,
{
    if level >= 4 {
        Some(0)
    } else {
        match descend(infos, entries, vpn, level + 1) {
            Some(t) => match entries[t * 512 + index_at(vpn, level + 1)] {
                Entry::Table { child, frame } => Some(child as int),
                _ => None,
            },
            None => None,
        }
    }
}

/// Where page `vpn` leads, if it is mapped.
spec fn lookup(infos: Seq<TableInfo>, entries: Seq<Entry>, vpn: int) -> Option<Mapping> {
    match descend(infos, entries, vpn, 1) {
        Some(t) => match entries[t * 512 + index_at(vpn, 1)] {
            Entry::Page { frame, flags } => Some(Mapping { frame, flags }),
            _ => None,
        },
        None => None,
    }
}

/// Number of pages that a table of `level` serves.
pub open spec fn span(level: int) -> int {
    if level >= 3 {
        0x800_0000
    } else if level == 2 {
        0x4_0000
    } else {
        512
    }
}

/// The frame in which the table for the pages of `key` lives, `key` being
/// the table's level and prefix.
spec fn table_frame(infos: Seq<TableInfo>, entries: Seq<Entry>, key: (int, int)) -> u64 {
    match descend(infos, entries, key.1 * span(key.0), key.0) {
        Some(t) => infos[t].frame,
        None => 0,
    }
}

/// The invariant of the tree.
spec fn tree_wf(infos: Seq<TableInfo>, entries: Seq<Entry>) -> bool {
    &&& 1 <= infos.len() <= usize::MAX
    &&& entries.len() == 512 * infos.len()
    &&& infos[0].level == 4
    &&& infos[0].prefix == 0
    &&& forall|t: int|
        #![trigger infos[t]]
        1 <= t < infos.len() ==> {
            &&& 1 <= infos[t].level <= 3
            &&& infos[t].prefix * span(infos[t].level as int) < 0x10_0000_0000
            &&& infos[t].parent < infos.len()
            &&& infos[infos[t].parent as int].level == infos[t].level + 1
            &&& infos[infos[t].parent as int].prefix == infos[t].prefix / 512
            &&& entries[infos[t].parent * 512 + infos[t].prefix % 512] == (Entry::Table {
                child: t as usize,
                frame: infos[t].frame,
            })
        }
    &&& forall|t: int, i: int|
        0 <= t < infos.len() && 0 <= i < 512 ==> match #[trigger] entries[t * 512 + i] {
            Entry::Empty => true,
            Entry::Table { child, frame } => {
                &&& infos[t].level >= 2
                &&& 1 <= child < infos.len()
                &&& infos[child as int].level == infos[t].level - 1
                &&& infos[child as int].prefix == infos[t].prefix * 512 + i
                &&& infos[child as int].frame == frame
            },
            Entry::Page { frame, flags } => infos[t].level == 1,
        }
}

/// The prefix of a level is that of the level above, followed by the index
/// into the table above.
pub proof fn lemma_prefix_step(vpn: int, level: int)
    requires
        0 <= vpn < 0x10_0000_0000,
        1 <= level <= 3,
    ensures
        prefix_at(vpn, level) == prefix_at(vpn, level + 1) * 512 + index_at(vpn, level + 1),
        0 <= index_at(vpn, level + 1) < 512,
        0 <= index_at(vpn, 1) < 512,
        vpn == prefix_at(vpn, 1) * 512 + index_at(vpn, 1),
{
}

/// A table met on the way to a page has the level and the prefix that the
/// page number asks for at that depth.
proof fn lemma_descend_meets(infos: Seq<TableInfo>, entries: Seq<Entry>, vpn: int, level: int)
    requires
        tree_wf(infos, entries),
        0 <= vpn < 0x10_0000_0000,
        1 <= level <= 4,
        descend(infos, entries, vpn, level) is Some,
    ensures
        0 <= descend(infos, entries, vpn, level).unwrap() < infos.len(),
        infos[descend(infos, entries, vpn, level).unwrap()].level == level,
        infos[descend(infos, entries, vpn, level).unwrap()].prefix == prefix_at(vpn, level),
    decreases 4 - level,
{
    if level < 4 {
        lemma_descend_meets(infos, entries, vpn, level + 1);
        lemma_prefix_step(vpn, level);
        let t = descend(infos, entries, vpn, level + 1).unwrap();
        let i = index_at(vpn, level + 1);
        assert(entries[t * 512 + i] is Table);
    }
}

/// Every table of the arena is met on the way to the pages that it serves.
proof fn lemma_table_is_met(infos: Seq<TableInfo>, entries: Seq<Entry>, t: int, vpn: int)
    requires
        tree_wf(infos, entries),
        0 <= t < infos.len(),
        0 <= vpn < 0x10_0000_0000,
        prefix_at(vpn, infos[t].level as int) == infos[t].prefix,
    ensures
        descend(infos, entries, vpn, infos[t].level as int) == Some(t),
    decreases 4 - infos[t].level,
{
    if t == 0 {
    } else {
        let level = infos[t].level as int;
        let p = infos[t].parent as int;
        lemma_prefix_step(vpn, level);
        let above = prefix_at(vpn, level + 1);
        let index = index_at(vpn, level + 1);
        assert(infos[t].prefix == above * 512 + index);
        assert(infos[t].prefix as int / 512 == above && infos[t].prefix as int % 512 == index);
        lemma_table_is_met(infos, entries, p, vpn);
        assert(descend(infos, entries, vpn, level + 1) == Some(p));
        assert(entries[p * 512 + index] == (Entry::Table {
            child: t as usize,
            frame: infos[t].frame,
        }));
    }
}

/// Whether `after` is `before` with one table added: the slot `slot` of an
/// existing table now leads to the new table `n`, whose entries are empty.
spec fn table_added(
    before: Seq<Entry>,
    after: Seq<Entry>,
    slot: int,
    n: int,
    frame: u64,
) -> bool {
    &&& after.len() == before.len() + 512
    &&& 0 <= slot < before.len()
    &&& before[slot] is Empty
    &&& after[slot] == (Entry::Table { child: n as usize, frame })
    &&& forall|k: int| 0 <= k < before.len() && k != slot ==> after[k] == before[k]
    &&& forall|k: int| before.len() <= k < after.len() ==> after[k] is Empty
}

/// Adding a table keeps the tree well-formed.
proof fn lemma_add_table_wf(
    infos: Seq<TableInfo>,
    entries: Seq<Entry>,
    infos2: Seq<TableInfo>,
    entries2: Seq<Entry>,
    vpn0: int,
    level: int,
    t: int,
    frame: u64,
)
    requires
        tree_wf(infos, entries),
        0 <= vpn0 < 0x10_0000_0000,
        2 <= level <= 4,
        descend(infos, entries, vpn0, level) == Some(t),
        table_added(entries, entries2, t * 512 + index_at(vpn0, level), infos.len() as int, frame),
        entries2.len() <= usize::MAX,
        infos2 == infos.push(
            TableInfo {
                frame,
                level: (level - 1) as u8,
                prefix: prefix_at(vpn0, level - 1) as u64,
                parent: t as usize,
            },
        ),
    ensures
        tree_wf(infos2, entries2),
{
    let n = infos.len() as int;
    let slot = t * 512 + index_at(vpn0, level);
    lemma_descend_meets(infos, entries, vpn0, level);
    lemma_prefix_step(vpn0, level - 1);
    assert(entries.len() == 512 * n);
    assert(infos2[0] == infos[0]);
    assert(infos2.len() == n + 1 && entries2.len() == 512 * (n + 1));
    assert forall|u: int| #![trigger infos2[u]] 1 <= u < infos2.len() implies {
        &&& 1 <= infos2[u].level <= 3
        &&& infos2[u].prefix * span(infos2[u].level as int) < 0x10_0000_0000
        &&& infos2[u].parent < infos2.len()
        &&& infos2[infos2[u].parent as int].level == infos2[u].level + 1
        &&& infos2[infos2[u].parent as int].prefix == infos2[u].prefix / 512
        &&& entries2[infos2[u].parent * 512 + infos2[u].prefix % 512] == (Entry::Table {
            child: u as usize,
            frame: infos2[u].frame,
        })
    } by {
        if u < n {
            assert(infos2[u] == infos[u]);
            let p = infos[u].parent as int;
            let k = p * 512 + infos[u].prefix % 512;
            assert(entries[k] is Table);
            assert(entries2[k] == entries[k]);
        } else {
            let above = prefix_at(vpn0, level);
            let index = index_at(vpn0, level);
            assert(prefix_at(vpn0, level - 1) == above * 512 + index);
            assert(prefix_at(vpn0, level - 1) / 512 == above);
            assert(prefix_at(vpn0, level - 1) % 512 == index);
        }
    }
    assert forall|u: int, i: int| 0 <= u < infos2.len() && 0 <= i < 512 implies match #[trigger] entries2[u
        * 512 + i] {
        Entry::Empty => true,
        Entry::Table { child, frame } => {
            &&& infos2[u].level >= 2
            &&& 1 <= child < infos2.len()
            &&& infos2[child as int].level == infos2[u].level - 1
            &&& infos2[child as int].prefix == infos2[u].prefix * 512 + i
            &&& infos2[child as int].frame == frame
        },
        Entry::Page { frame, flags } => infos2[u].level == 1,
    } by {
        if u < n {
            if u * 512 + i != slot {
                assert(entries2[u * 512 + i] == entries[u * 512 + i]);
            } else {
                assert(u == t && i == index_at(vpn0, level));
            }
        }
    }
}

/// Adding a table changes no way that led somewhere, and a way that led
/// nowhere leads nowhere still or to the new table.
proof fn lemma_add_table_descend(
    infos: Seq<TableInfo>,
    entries: Seq<Entry>,
    infos2: Seq<TableInfo>,
    entries2: Seq<Entry>,
    slot: int,
    frame: u64,
    vpn: int,
    level: int,
)
    requires
        tree_wf(infos, entries),
        table_added(entries, entries2, slot, infos.len() as int, frame),
        infos2.len() == infos.len() + 1,
        0 <= vpn < 0x10_0000_0000,
        1 <= level <= 4,
    ensures
        descend(infos, entries, vpn, level) is Some ==> descend(infos2, entries2, vpn, level)
            == descend(infos, entries, vpn, level),
        descend(infos, entries, vpn, level) is None ==> descend(infos2, entries2, vpn, level)
            is None || descend(infos2, entries2, vpn, level) == Some(infos.len() as int),
    decreases 4 - level,
{
    if level < 4 {
        lemma_add_table_descend(infos, entries, infos2, entries2, slot, frame, vpn, level + 1);
        lemma_prefix_step(vpn, level);
        let i = index_at(vpn, level + 1);
        match descend(infos, entries, vpn, level + 1) {
            Some(u) => {
                lemma_descend_meets(infos, entries, vpn, level + 1);
                if u * 512 + i != slot {
                    assert(entries2[u * 512 + i] == entries[u * 512 + i]);
                }
            },
            None => {
                if descend(infos2, entries2, vpn, level + 1) is Some {
                    let n = infos.len() as int;
                    assert(entries2[n * 512 + i] is Empty);
                }
            },
        }
    }
}

/// Adding a table maps and unmaps nothing.
proof fn lemma_add_table_lookup(
    infos: Seq<TableInfo>,
    entries: Seq<Entry>,
    infos2: Seq<TableInfo>,
    entries2: Seq<Entry>,
    slot: int,
    frame: u64,
    vpn: int,
)
    requires
        tree_wf(infos, entries),
        table_added(entries, entries2, slot, infos.len() as int, frame),
        infos2.len() == infos.len() + 1,
        0 <= vpn < 0x10_0000_0000,
    ensures
        lookup(infos2, entries2, vpn) == lookup(infos, entries, vpn),
{
    lemma_add_table_descend(infos, entries, infos2, entries2, slot, frame, vpn, 1);
    lemma_prefix_step(vpn, 1);
    let i = index_at(vpn, 1);
    match descend(infos, entries, vpn, 1) {
        Some(u) => {
            lemma_descend_meets(infos, entries, vpn, 1);
            if u * 512 + i != slot {
                assert(entries2[u * 512 + i] == entries[u * 512 + i]);
            } else {
                assert(entries[u * 512 + i] is Empty);
                assert(entries2[u * 512 + i] is Table);
            }
        },
        None => {
            if descend(infos2, entries2, vpn, 1) is Some {
                let n = infos.len() as int;
                assert(entries2[n * 512 + i] is Empty);
            }
        },
    }
}

/// Changing a slot of a table of pages changes no way through the tree.
proof fn lemma_set_leaf_descend(
    infos: Seq<TableInfo>,
    entries: Seq<Entry>,
    entries2: Seq<Entry>,
    t: int,
    i: int,
    vpn: int,
    level: int,
)
    requires
        tree_wf(infos, entries),
        0 <= t < infos.len(),
        infos[t].level == 1,
        0 <= i < 512,
        entries2 == entries.update(t * 512 + i, entries2[t * 512 + i]),
        0 <= vpn < 0x10_0000_0000,
        1 <= level <= 4,
    ensures
        descend(infos, entries2, vpn, level) == descend(infos, entries, vpn, level),
    decreases 4 - level,
{
    if level < 4 {
        lemma_set_leaf_descend(infos, entries, entries2, t, i, vpn, level + 1);
        lemma_prefix_step(vpn, level);
        match descend(infos, entries, vpn, level + 1) {
            Some(u) => {
                lemma_descend_meets(infos, entries, vpn, level + 1);
                assert(u != t);
                assert(entries2[u * 512 + index_at(vpn, level + 1)] == entries[u * 512 + index_at(
                    vpn,
                    level + 1,
                )]);
            },
            None => {},
        }
    }
}

/// Changing the slot of one page to a page entry or to nothing keeps the
/// tree well-formed and changes where that page leads, and no other.
proof fn lemma_set_leaf(
    infos: Seq<TableInfo>,
    entries: Seq<Entry>,
    entries2: Seq<Entry>,
    vpn0: int,
    t: int,
    vpn: int,
)
    requires
        tree_wf(infos, entries),
        0 <= vpn0 < 0x10_0000_0000,
        descend(infos, entries, vpn0, 1) == Some(t),
        entries2 == entries.update(t * 512 + index_at(vpn0, 1), entries2[t * 512 + index_at(vpn0, 1)]),
        !(entries2[t * 512 + index_at(vpn0, 1)] is Table),
        !(entries[t * 512 + index_at(vpn0, 1)] is Table),
        0 <= vpn < 0x10_0000_0000,
    ensures
        tree_wf(infos, entries2),
        vpn != vpn0 ==> lookup(infos, entries2, vpn) == lookup(infos, entries, vpn),
        lookup(infos, entries2, vpn0) == (match entries2[t * 512 + index_at(vpn0, 1)] {
            Entry::Page { frame, flags } => Some(Mapping { frame, flags }),
            _ => None::<Mapping>,
        }),
{
    let i0 = index_at(vpn0, 1);
    let slot = t * 512 + i0;
    lemma_descend_meets(infos, entries, vpn0, 1);
    lemma_prefix_step(vpn0, 1);
    lemma_prefix_step(vpn, 1);
    lemma_set_leaf_descend(infos, entries, entries2, t, i0, vpn, 1);
    lemma_set_leaf_descend(infos, entries, entries2, t, i0, vpn0, 1);
    assert(entries.len() == 512 * infos.len());
    assert forall|u: int| #![trigger infos[u]] 1 <= u < infos.len() implies entries2[infos[u].parent
        * 512 + infos[u].prefix % 512] == (Entry::Table {
        child: u as usize,
        frame: infos[u].frame,
    }) by {
        let k = infos[u].parent * 512 + infos[u].prefix % 512;
        assert(entries[k] is Table);
        assert(k != slot);
    }
    assert forall|u: int, i: int| 0 <= u < infos.len() && 0 <= i < 512 implies match #[trigger] entries2[u
        * 512 + i] {
        Entry::Empty => true,
        Entry::Table { child, frame } => {
            &&& infos[u].level >= 2
            &&& 1 <= child < infos.len()
            &&& infos[child as int].level == infos[u].level - 1
            &&& infos[child as int].prefix == infos[u].prefix * 512 + i
            &&& infos[child as int].frame == frame
        },
        Entry::Page { frame, flags } => infos[u].level == 1,
    } by {
        if u * 512 + i != slot {
            assert(entries2[u * 512 + i] == entries[u * 512 + i]);
        } else {
            assert(u == t);
        }
    }
    if vpn != vpn0 {
        match descend(infos, entries, vpn, 1) {
            Some(u) => {
                lemma_descend_meets(infos, entries, vpn, 1);
                let i = index_at(vpn, 1);
                if u * 512 + i == slot {
                    assert(u == t && i == i0);
                    assert(vpn == prefix_at(vpn, 1) * 512 + i);
                    assert(vpn0 == prefix_at(vpn0, 1) * 512 + i0);
                    assert(false);
                }
                assert(entries2[u * 512 + i] == entries[u * 512 + i]);
            },
            None => {},
        }
    }
}

/// The frame recorded for a table's level and prefix is the frame of that
/// table.
proof fn lemma_table_frame(infos: Seq<TableInfo>, entries: Seq<Entry>, t: int)
    requires
        tree_wf(infos, entries),
        1 <= t < infos.len(),
    ensures
        table_frame(infos, entries, (infos[t].level as int, infos[t].prefix as int))
            == infos[t].frame,
{
    let level = infos[t].level as int;
    let vpn = infos[t].prefix * span(level);
    assert(prefix_at(vpn, level) == infos[t].prefix);
    lemma_table_is_met(infos, entries, t, vpn);
}

/// What the page-table manager stands for.
pub struct PageTableView {
    /// The pages that are mapped, by page number.
    pub mappings: Map<int, Mapping>,
    /// The tables below the root that exist, each by its level and prefix,
    /// and the frame that each lives in.
    pub tables: Map<(int, int), u64>,
}

impl PageTableView {
    /// Where page `vpn` leads, if it is mapped.
    pub open spec fn mapping_of(self, vpn: int) -> Option<Mapping> {
        if self.mappings.dom().contains(vpn) {
            Some(self.mappings[vpn])
        } else {
            None
        }
    }

    /// Whether the table of `level` on the way to page `vpn` exists.
    pub open spec fn has_table(self, vpn: int, level: int) -> bool {
        self.tables.dom().contains((level, prefix_at(vpn, level)))
    }

    /// How many tables must be made before page `vpn` can be mapped.
    pub open spec fn missing_tables(self, vpn: int) -> nat {
        if !self.has_table(vpn, 3) {
            3
        } else if !self.has_table(vpn, 2) {
            2
        } else if !self.has_table(vpn, 1) {
            1
        } else {
            0
        }
    }

    /// The tables after those that are missing on the way to page `vpn`
    /// were made, from level 3 down to `level`. Each new table lives in the
    /// frame that the allocator, in the state `frames`, hands out next.
    pub open spec fn tables_down_to(self, vpn: int, frames: AllocatorView, level: int) -> Map<
        (int, int),
        u64,
    > {
        let with3 = if level > 3 || self.has_table(vpn, 3) {
            self.tables
        } else {
            self.tables.insert((3, prefix_at(vpn, 3)), frame_taken(frames, 0))
        };
        let n3: nat = if self.has_table(vpn, 3) {
            0
        } else {
            1
        };
        let with2 = if level > 2 || self.has_table(vpn, 2) {
            with3
        } else {
            with3.insert((2, prefix_at(vpn, 2)), frame_taken(frames, n3))
        };
        let n2: nat = if self.has_table(vpn, 2) {
            n3
        } else {
            n3 + 1
        };
        if level > 1 || self.has_table(vpn, 1) {
            with2
        } else {
            with2.insert((1, prefix_at(vpn, 1)), frame_taken(frames, n2))
        }
    }

    /// The state after page `vpn` was mapped: the mapping is there, and so
    /// are the three tables on the way to it, those that were missing in
    /// frames drawn from the allocator in the state `frames`, the highest
    /// table first.
    pub open spec fn after_map(self, vpn: int, mapping: Mapping, frames: AllocatorView) -> PageTableView {
        PageTableView {
            mappings: self.mappings.insert(vpn, mapping),
            tables: self.tables_down_to(vpn, frames, 1),
        }
    }

    /// The state after page `vpn` was unmapped: the mapping is gone, the
    /// tables stay.
    pub open spec fn after_unmap(self, vpn: int) -> PageTableView {
        PageTableView { mappings: self.mappings.remove(vpn), tables: self.tables }
    }
}

/// The frame that the allocator hands out after `k` allocations from the
/// state `frames` on.
pub open spec fn frame_taken(frames: AllocatorView, k: nat) -> u64 {
    match after_allocations(frames, k).next_frame() {
        Some(f) => f as u64,
        None => 0,
    }
}

/// Whether `frame` can hold a table or a page: it is aligned to 4 KiB.
pub open spec fn valid_frame(frame: u64) -> bool {
    frame % 4096 == 0
}

/// Whether `address` is its own canonical form.
pub open spec fn is_canonical(address: u64) -> bool {
    canonical(address) == Some(address)
}

/// Why the page-table manager refused.
#[derive(Clone, Copy, Debug, PartialEq, Eq, Structural)]
pub enum MapError {
    /// The virtual address is not canonical.
    NotCanonical,
    /// The frame address is not aligned to 4 KiB.
    InvalidFrame,
    /// The page is mapped already, to another frame or with other flags.
    PageAlreadyMapped,
    /// The page is not mapped.
    PageNotMapped,
    /// The frame allocator has too few frames left.
    OutOfMemory,
    /// The range is empty or runs beyond the last address.
    InvalidRange,
}

/// What `map_to` answers. A page that leads to the very frame with the very
/// flags already is accepted as it stands; one that leads elsewhere is a
/// collision. A page that is not mapped needs as many frames from the
/// allocator as tables are missing on the way to it.
pub open spec fn map_outcome(
    tables: PageTableView,
    frames: AllocatorView,
    address: u64,
    frame: u64,
    flags: PageFlags,
) -> Result<(), MapError> {
    let vpn = page_number(address);
    if !is_canonical(address) {
        Err(MapError::NotCanonical)
    } else if !valid_frame(frame) {
        Err(MapError::InvalidFrame)
    } else {
        match tables.mapping_of(vpn) {
            Some(m) => if m == (Mapping { frame, flags }) {
                Ok(())
            } else {
                Err(MapError::PageAlreadyMapped)
            },
            None => if frames.available() < tables.missing_tables(vpn) {
                Err(MapError::OutOfMemory)
            } else {
                Ok(())
            },
        }
    }
}

/// What `unmap` answers: the mapping that it removed.
pub open spec fn unmap_outcome(tables: PageTableView, address: u64) -> Result<Mapping, MapError> {
    if !is_canonical(address) {
        Err(MapError::NotCanonical)
    } else {
        match tables.mapping_of(page_number(address)) {
            Some(m) => Ok(m),
            None => Err(MapError::PageNotMapped),
        }
    }
}

/// The flags of a mapping made without saying which: present and writable.
pub open spec fn default_flags() -> PageFlags {
    PageFlags { present: true, writable: true, user: false, no_execute: false }
}

/// The flags asked for, or the default ones.
pub open spec fn flags_or_default(flags: Option<PageFlags>) -> PageFlags {
    match flags {
        Some(f) => f,
        None => default_flags(),
    }
}

/// The address of the frame, and of the page, that holds `address`.
pub open spec fn frame_base(address: u64) -> u64 {
    (address - address % 4096) as u64
}

/// The page tables together with the frame allocator that feeds them.
pub struct MemoryView {
    /// The page tables.
    pub tables: PageTableView,
    /// The frame allocator.
    pub frames: AllocatorView,
}

impl MemoryView {
    /// What mapping the page that holds `address` to the frame at the same
    /// address answers.
    pub open spec fn identity_outcome(self, address: u64, flags: PageFlags) -> Result<(), MapError> {
        map_outcome(self.tables, self.frames, frame_base(address), frame_base(address), flags)
    }

    /// The state after mapping the page that holds `address` to the frame at
    /// the same address. A refusal changes nothing.
    pub open spec fn after_identity(self, address: u64, flags: PageFlags) -> MemoryView {
        if self.identity_outcome(address, flags) is Ok {
            MemoryView {
                tables: self.tables.after_map(
                    page_number(frame_base(address)),
                    Mapping { frame: frame_base(address), flags },
                    self.frames,
                ),
                frames: after_allocations(
                    self.frames,
                    self.tables.missing_tables(page_number(frame_base(address))),
                ),
            }
        } else {
            self
        }
    }

    /// What mapping the page that holds `address` to `frame` answers.
    pub open spec fn mapped_outcome(self, address: u64, frame: u64, flags: PageFlags) -> Result<
        (),
        MapError,
    > {
        map_outcome(self.tables, self.frames, address, frame, flags)
    }

    /// The state after mapping the page that holds `address` to `frame`. A
    /// refusal changes nothing.
    pub open spec fn after_mapped(self, address: u64, frame: u64, flags: PageFlags) -> MemoryView {
        if self.mapped_outcome(address, frame, flags) is Ok {
            MemoryView {
                tables: self.tables.after_map(
                    page_number(address),
                    Mapping { frame, flags },
                    self.frames,
                ),
                frames: after_allocations(
                    self.frames,
                    self.tables.missing_tables(page_number(address)),
                ),
            }
        } else {
            self
        }
    }

    #[verifier::opaque]
    /// What mapping `count` pages in a row answers, page `k` of those from
    /// `first` on to frame `k` of those from `frame` on: the refusal of the
    /// first page that is refused, if any is.
    pub open spec fn region_outcome(
        self,
        first: u64,
        frame: u64,
        count: nat,
        flags: PageFlags,
    ) -> Result<(), MapError>
        decreases count,
    {
        if count == 0 {
            Ok(())
        } else {
            match self.region_outcome(first, frame, (count - 1) as nat, flags) {
                Err(e) => Err(e),
                Ok(_) => self.after_region(first, frame, (count - 1) as nat, flags).mapped_outcome(
                    (first + (count - 1) * 4096) as u64,
                    (frame + (count - 1) * 4096) as u64,
                    flags,
                ),
            }
        }
    }

    #[verifier::opaque]
    /// The state after mapping `count` pages in a row to the frames from
    /// `frame` on: the pages before the first one refused are mapped, the
    /// others are not touched.
    pub open spec fn after_region(self, first: u64, frame: u64, count: nat, flags: PageFlags) -> MemoryView
        decreases count,
    {
        if count == 0 {
            self
        } else {
            match self.region_outcome(first, frame, (count - 1) as nat, flags) {
                Err(e) => self.after_region(first, frame, (count - 1) as nat, flags),
                Ok(_) => self.after_region(first, frame, (count - 1) as nat, flags).after_mapped(
                    (first + (count - 1) * 4096) as u64,
                    (frame + (count - 1) * 4096) as u64,
                    flags,
                ),
            }
        }
    }

    /// The state after the page that holds `address` was unmapped: its
    /// mapping is gone, and its frame is back with the allocator if it came
    /// from there. A page that is not mapped changes nothing.
    pub open spec fn after_unmapped(self, address: u64) -> MemoryView {
        match unmap_outcome(self.tables, address) {
            Ok(m) => MemoryView {
                tables: self.tables.after_unmap(page_number(address)),
                frames: if self.frames.is_issued(m.frame as int) {
                    self.frames.after_release(m.frame as int)
                } else {
                    self.frames
                },
            },
            Err(_) => self,
        }
    }

    #[verifier::opaque]
    /// The state after `count` pages in a row were unmapped, the first
    /// starting at `first`.
    pub open spec fn after_unmapped_run(self, first: u64, count: nat) -> MemoryView
        decreases count,
    {
        if count == 0 {
            self
        } else {
            self.after_unmapped_run(first, (count - 1) as nat).after_unmapped(
                (first + (count - 1) * 4096) as u64,
            )
        }
    }

    /// What mapping the page that holds `address` to a fresh frame answers.
    /// It takes one frame for the page and one for each table that is
    /// missing on the way to it.
    pub open spec fn fresh_outcome(self, address: u64) -> Result<(), MapError> {
        let vpn = page_number(address);
        if !is_canonical(address) {
            Err(MapError::NotCanonical)
        } else if self.tables.mapping_of(vpn) is Some {
            Err(MapError::PageAlreadyMapped)
        } else if self.frames.available() < 1 + self.tables.missing_tables(vpn) {
            Err(MapError::OutOfMemory)
        } else {
            Ok(())
        }
    }

    /// The state after mapping the page that holds `address` to a fresh
    /// frame: the page leads to the frame that the allocator hands out
    /// first, the missing tables take the frames after it. A refusal changes
    /// nothing.
    pub open spec fn after_fresh(self, address: u64, flags: PageFlags) -> MemoryView {
        if self.fresh_outcome(address) is Ok {
            let vpn = page_number(address);
            MemoryView {
                tables: self.tables.after_map(
                    vpn,
                    Mapping { frame: self.frames.next_frame().unwrap() as u64, flags },
                    self.frames.after_allocate(),
                ),
                frames: after_allocations(self.frames, 1 + self.tables.missing_tables(vpn)),
            }
        } else {
            self
        }
    }

    #[verifier::opaque]
    /// What mapping `count` pages in a row to fresh frames answers, the
    /// first page starting at `first`: the refusal of the first page that is
    /// refused, if any is.
    pub open spec fn range_outcome(self, first: u64, count: nat, flags: PageFlags) -> Result<
        (),
        MapError,
    >
        decreases count,
    {
        if count == 0 {
            Ok(())
        } else {
            match self.range_outcome(first, (count - 1) as nat, flags) {
                Err(e) => Err(e),
                Ok(_) => self.after_range(first, (count - 1) as nat, flags).fresh_outcome(
                    (first + (count - 1) * 4096) as u64,
                ),
            }
        }
    }

    #[verifier::opaque]
    /// The state after mapping `count` pages in a row to fresh frames: the
    /// pages before the first one refused are mapped, the others are not
    /// touched.
    pub open spec fn after_range(self, first: u64, count: nat, flags: PageFlags) -> MemoryView
        decreases count,
    {
        if count == 0 {
            self
        } else {
            match self.range_outcome(first, (count - 1) as nat, flags) {
                Err(e) => self.after_range(first, (count - 1) as nat, flags),
                Ok(_) => self.after_range(first, (count - 1) as nat, flags).after_fresh(
                    (first + (count - 1) * 4096) as u64,
                    flags,
                ),
            }
        }
    }
}

/// Whether the `length` bytes from `virtual_start` on can be mapped to the
/// physical memory from `physical_start` on: the virtual range can be mapped
/// at all, the physical range ends inside the address space, and both start
/// at the same place inside their page.
pub open spec fn valid_region(virtual_start: u64, physical_start: u64, length: u64) -> bool {
    &&& valid_range(virtual_start, length)
    &&& physical_start + length - 1 <= u64::MAX
    &&& virtual_start % 4096 == physical_start % 4096
}

/// Number of pages that the `length` bytes from `start` on touch.
pub open spec fn pages_touched(start: u64, length: u64) -> nat {
    ((frame_base((start + length - 1) as u64) - frame_base(start)) / 4096 + 1) as nat
}

/// Whether a range of `length` bytes from `start` on can be mapped at all:
/// it is not empty, ends inside the address space, and lies wholly in one
/// canonical half.
pub open spec fn valid_range(start: u64, length: u64) -> bool {
    &&& length > 0
    &&& start + length - 1 <= u64::MAX
    &&& is_canonical(start)
    &&& is_canonical((start + length - 1) as u64)
    &&& start as int / 0x8000_0000_0000 == (start + length - 1) / 0x8000_0000_0000
}

/// The page-table manager. It owns the hierarchy of tables.
pub struct PageTableManager {
    infos: Vec<TableInfo>,
    entries: Vec<Entry>,
}

impl View for PageTableManager {
    type V = PageTableView;

    closed spec fn view(&self) -> PageTableView {
        PageTableView {
            mappings: Map::new(
                |vpn: int|
                    0 <= vpn < 0x10_0000_0000 && lookup(self.infos@, self.entries@, vpn) is Some,
                |vpn: int| lookup(self.infos@, self.entries@, vpn).unwrap(),
            ),
            tables: Map::new(
                |p: (int, int)|
                    exists|t: int|
                        1 <= t < self.infos.len() && (#[trigger] self.infos[t]).level == p.0
                            && self.infos[t].prefix == p.1,
                |p: (int, int)| table_frame(self.infos@, self.entries@, p),
            ),
        }
    }
}

/// Appends the 512 empty entries of a new table.
fn push_empty_table(entries: &mut Vec<Entry>)
    ensures
        final(entries).len() == old(entries).len() + 512,
        forall|i: int| 0 <= i < old(entries).len() ==> final(entries)[i] == old(entries)[i],
        forall|i: int|
            old(entries).len() <= i < final(entries).len() ==> final(entries)[i] is Empty,
{
    let mut n: usize = 0;
    while n < 512
        invariant
            n <= 512,
            entries.len() == old(entries).len() + n,
            forall|i: int| 0 <= i < old(entries).len() ==> entries[i] == old(entries)[i],
            forall|i: int| old(entries).len() <= i < entries.len() ==> entries[i] is Empty,
        decreases 512 - n,
    {
        entries.push(Entry::Empty);
        n += 1;
    }
}

/// Index into the table of `level` on the way to page `vpn`.
fn index_of(vpn: u64, level: u8) -> (i: usize)
    requires
        vpn < 0x10_0000_0000,
        1 <= level <= 4,
    ensures
        i == index_at(vpn as int, level as int),
        i < 512,
{
    if level == 4 {
        ((vpn / 0x800_0000) % 512) as usize
    } else if level == 3 {
        ((vpn / 0x4_0000) % 512) as usize
    } else if level == 2 {
        ((vpn / 512) % 512) as usize
    } else {
        (vpn % 512) as usize
    }
}

impl PageTableManager {
    /// The invariant of the manager.
    pub closed spec fn wf(&self) -> bool {
        tree_wf(self.infos@, self.entries@)
    }

    /// The levels 1 to 3 at which a table exists on the way to a page are
    /// those to which the tree reaches down.
    proof fn lemma_has_table(&self, vpn: int, level: int)
        requires
            self.wf(),
            0 <= vpn < 0x10_0000_0000,
            1 <= level <= 3,
        ensures
            self@.has_table(vpn, level) <==> descend(self.infos@, self.entries@, vpn, level)
                is Some,
    {
        let infos = self.infos@;
        let entries = self.entries@;
        if descend(infos, entries, vpn, level) is Some {
            lemma_descend_meets(infos, entries, vpn, level);
            let t = descend(infos, entries, vpn, level).unwrap();
            assert(infos[t].level == level && infos[t].prefix == prefix_at(vpn, level));
        }
        if self@.has_table(vpn, level) {
            let t = choose|t: int|
                1 <= t < infos.len() && (#[trigger] infos[t]).level == level && infos[t].prefix
                    == prefix_at(vpn, level);
            lemma_table_is_met(infos, entries, t, vpn);
        }
    }

    /// An empty hierarchy whose root table lives in `root_frame`.
    pub fn new(root_frame: u64) -> (r: Result<PageTableManager, MapError>)
        ensures
            r is Ok <==> valid_frame(root_frame),
            r matches Ok(m) ==> m.wf() && m@ == (PageTableView {
                mappings: Map::empty(),
                tables: Map::empty(),
            }),
            r matches Err(e) ==> e == MapError::InvalidFrame,
    {
        if root_frame % 4096 != 0 {
            return Err(MapError::InvalidFrame);
        }
        let mut infos: Vec<TableInfo> = Vec::new();
        infos.push(TableInfo { frame: root_frame, level: 4, prefix: 0, parent: 0 });
        let mut entries: Vec<Entry> = Vec::new();
        push_empty_table(&mut entries);
        let m = PageTableManager { infos, entries };
        proof {
            assert(m.wf());
            assert forall|vpn: int| 0 <= vpn < 0x10_0000_0000 implies lookup(
                m.infos@,
                m.entries@,
                vpn,
            ) is None by {
                lemma_prefix_step(vpn, 3);
                reveal_with_fuel(descend, 4);
                assert(m.entries@[0 * 512 + index_at(vpn, 4)] is Empty);
            }
            assert(m@.mappings =~= Map::<int, Mapping>::empty());
            assert(m@.tables =~= Map::<(int, int), u64>::empty());
        }
        Ok(m)
    }

    /// Follows the tree towards page `vpn` as far as it reaches: the table
    /// reached last and its level.
    fn walk(&self, vpn: u64) -> (r: (usize, u8))
        requires
            self.wf(),
            vpn < 0x10_0000_0000,
        ensures
            1 <= r.1 <= 4,
            descend(self.infos@, self.entries@, vpn as int, r.1 as int) == Some(r.0 as int),
            r.0 < self.infos.len(),
            r.1 > 1 ==> descend(self.infos@, self.entries@, vpn as int, r.1 - 1) is None,
            self@.missing_tables(vpn as int) == r.1 - 1,
    {
        let mut t: usize = 0;
        let mut level: u8 = 4;
        while level > 1
            invariant
                self.wf(),
                vpn < 0x10_0000_0000,
                1 <= level <= 4,
                t < self.infos.len(),
                descend(self.infos@, self.entries@, vpn as int, level as int) == Some(t as int),
            decreases level,
        {
            let i = index_of(vpn, level);
            assert(self.entries.len() == 512 * self.infos.len());
            match self.entries[t * 512 + i] {
                Entry::Table { child, frame } => {
                    proof {
                        lemma_descend_meets(self.infos@, self.entries@, vpn as int, level as int);
                    }
                    t = child;
                    level = level - 1;
                },
                _ => {
                    proof {
                        self.lemma_missing(vpn as int, level as int);
                    }
                    return (t, level);
                },
            }
        }
        proof {
            self.lemma_missing(vpn as int, 1);
        }
        (t, level)
    }

    /// When the tree reaches down to `level` on the way to a page and no
    /// further, `level - 1` tables are missing.
    proof fn lemma_missing(&self, vpn: int, level: int)
        requires
            self.wf(),
            0 <= vpn < 0x10_0000_0000,
            1 <= level <= 4,
            descend(self.infos@, self.entries@, vpn, level) is Some,
            level > 1 ==> descend(self.infos@, self.entries@, vpn, level - 1) is None,
        ensures
            self@.missing_tables(vpn) == level - 1,
    {
        reveal_with_fuel(descend, 4);
        self.lemma_has_table(vpn, 1);
        self.lemma_has_table(vpn, 2);
        self.lemma_has_table(vpn, 3);
    }

    /// The frame in which the table of `level` on the way to `address`
    /// lives, level 3 being the one below the root and level 1 the one that
    /// holds the pages. `None` means that there is no such table.
    pub fn table_frame(&self, address: u64, level: u8) -> (r: Option<u64>)
        requires
            self.wf(),
        ensures
            r == (if is_canonical(address) && 1 <= level <= 3 && self@.has_table(
                page_number(address),
                level as int,
            ) {
                Some(self@.tables[(level as int, prefix_at(page_number(address), level as int))])
            } else {
                None
            }),
    {
        let top: u64 = address / 0x8000_0000_0000;
        if (top != 0 && top != 0x1_ffff) || level < 1 || level > 3 {
            return None;
        }
        let vpn: u64 = (address / 4096) % 0x10_0000_0000;
        let mut t: usize = 0;
        let mut l: u8 = 4;
        while l > level
            invariant
                self.wf(),
                vpn < 0x10_0000_0000,
                vpn == page_number(address),
                is_canonical(address),
                1 <= level <= 3,
                level <= l <= 4,
                t < self.infos.len(),
                descend(self.infos@, self.entries@, vpn as int, l as int) == Some(t as int),
            decreases l,
        {
            let i = index_of(vpn, l);
            assert(self.entries.len() == 512 * self.infos.len());
            match self.entries[t * 512 + i] {
                Entry::Table { child, frame } => {
                    proof {
                        lemma_descend_meets(self.infos@, self.entries@, vpn as int, l as int);
                    }
                    t = child;
                    l = l - 1;
                },
                _ => {
                    proof {
                        self.lemma_no_table_below(vpn as int, l - 1, level as int);
                    }
                    return None;
                },
            }
        }
        proof {
            self.lemma_has_table(vpn as int, level as int);
            lemma_descend_meets(self.infos@, self.entries@, vpn as int, level as int);
            lemma_table_frame(self.infos@, self.entries@, t as int);
        }
        Some(self.infos[t].frame)
    }

    /// Where the tree does not reach down to a level, it has no table at
    /// that level or below.
    proof fn lemma_no_table_below(&self, vpn: int, reached: int, level: int)
        requires
            self.wf(),
            0 <= vpn < 0x10_0000_0000,
            1 <= level <= reached <= 3,
            descend(self.infos@, self.entries@, vpn, reached) is None,
        ensures
            !self@.has_table(vpn, level),
    {
        reveal_with_fuel(descend, 4);
        self.lemma_has_table(vpn, level);
    }

    /// Where the page that holds `address` leads. `None` means that the
    /// address is not canonical or that its page is not mapped.
    pub fn translate(&self, address: u64) -> (r: Option<Mapping>)
        requires
            self.wf(),
        ensures
            r == (if is_canonical(address) {
                self@.mapping_of(page_number(address))
            } else {
                None
            }),
    {
        let top: u64 = address / 0x8000_0000_0000;
        if top != 0 && top != 0x1_ffff {
            return None;
        }
        let vpn: u64 = (address / 4096) % 0x10_0000_0000;
        let (t, level) = self.walk(vpn);
        if level > 1 {
            proof {
                reveal_with_fuel(descend, 4);
            }
            return None;
        }
        let i = index_of(vpn, 1);
        assert(self.entries.len() == 512 * self.infos.len());
        match self.entries[t * 512 + i] {
            Entry::Page { frame, flags } => Some(Mapping { frame, flags }),
            _ => None,
        }
    }

    /// Hangs a new, empty table that lives in `frame` below the slot that
    /// the way to page `vpn` takes in table `t` of `level`.
    fn add_table(&mut self, t: usize, level: u8, vpn: u64, frame: u64) -> (n: usize)
        requires
            old(self).wf(),
            vpn < 0x10_0000_0000,
            2 <= level <= 4,
            descend(old(self).infos@, old(self).entries@, vpn as int, level as int) == Some(
                t as int,
            ),
            descend(old(self).infos@, old(self).entries@, vpn as int, level - 1) is None,
        ensures
            final(self).wf(),
            descend(final(self).infos@, final(self).entries@, vpn as int, level - 1) == Some(
                n as int,
            ),
            level > 2 ==> descend(final(self).infos@, final(self).entries@, vpn as int, level - 2)
                is None,
            level == 2 ==> final(self).entries@[n * 512 + index_at(vpn as int, 1)] is Empty,
            final(self)@.mappings == old(self)@.mappings,
            final(self)@.tables == old(self)@.tables.insert(
                (level - 1, prefix_at(vpn as int, level - 1)),
                frame,
            ),
    {
        proof {
            lemma_descend_meets(self.infos@, self.entries@, vpn as int, level as int);
            lemma_prefix_step(vpn as int, level - 1);
            assert(self.entries.len() == 512 * self.infos.len());
        }
        let i = index_of(vpn, level);
        let n: usize = self.infos.len();
        let prefix: u64 = self.infos[t].prefix * 512 + i as u64;
        let slot: usize = t * 512 + i;
        assert(self.entries@[slot as int] is Empty) by {
            match self.entries@[slot as int] {
                Entry::Table { child, frame } => {
                    assert(descend(self.infos@, self.entries@, vpn as int, level - 1) is Some);
                },
                Entry::Page { frame, flags } => {},
                Entry::Empty => {},
            }
        }
        self.infos.push(TableInfo { frame, level: level - 1, prefix, parent: t });
        push_empty_table(&mut self.entries);
        self.entries.set(slot, Entry::Table { child: n, frame });
        proof {
            let infos = old(self).infos@;
            let entries = old(self).entries@;
            let infos2 = self.infos@;
            let entries2 = self.entries@;
            assert(table_added(entries, entries2, slot as int, n as int, frame));
            lemma_add_table_wf(
                infos,
                entries,
                infos2,
                entries2,
                vpn as int,
                level as int,
                t as int,
                frame,
            );
            lemma_add_table_descend(
                infos,
                entries,
                infos2,
                entries2,
                slot as int,
                frame,
                vpn as int,
                level as int,
            );
            assert(descend(infos2, entries2, vpn as int, level - 1) == Some(n as int));
            if level > 2 {
                lemma_prefix_step(vpn as int, level - 2);
                assert(entries2[n * 512 + index_at(vpn as int, level - 1)] is Empty);
            } else {
                lemma_prefix_step(vpn as int, 1);
            }
            assert forall|v: int| 0 <= v < 0x10_0000_0000 implies lookup(infos2, entries2, v)
                == lookup(infos, entries, v) by {
                lemma_add_table_lookup(infos, entries, infos2, entries2, slot as int, frame, v);
            }
            assert(self@.mappings =~= old(self)@.mappings);
            let added = (level - 1, prefix_at(vpn as int, level - 1));
            let wanted = old(self)@.tables.insert(added, frame);
            assert forall|p: (int, int)| self@.tables.dom().contains(p) <==> wanted.dom().contains(
                p,
            ) by {
                if self@.tables.dom().contains(p) {
                    let u = choose|u: int|
                        1 <= u < infos2.len() && (#[trigger] infos2[u]).level == p.0
                            && infos2[u].prefix == p.1;
                    if u < n {
                        assert(infos[u] == infos2[u]);
                    }
                }
                if old(self)@.tables.dom().contains(p) {
                    let u = choose|u: int|
                        1 <= u < infos.len() && (#[trigger] infos[u]).level == p.0 && infos[u].prefix
                            == p.1;
                    assert(infos2[u] == infos[u]);
                }
                if p == added {
                    assert(infos2[n as int].level == p.0 && infos2[n as int].prefix == p.1);
                }
            }
            assert forall|p: (int, int)| wanted.dom().contains(p) implies self@.tables[p]
                == wanted[p] by {
                if p == added {
                    lemma_table_frame(infos2, entries2, n as int);
                } else {
                    let u = choose|u: int|
                        1 <= u < infos.len() && (#[trigger] infos[u]).level == p.0 && infos[u].prefix
                            == p.1;
                    assert(infos2[u] == infos[u]);
                    lemma_table_frame(infos, entries, u);
                    lemma_table_frame(infos2, entries2, u);
                }
            }
            assert(self@.tables =~= wanted);
        }
        n
    }

    /// Puts `entry`, a page or nothing, into the slot of page `vpn` in its
    /// table of pages `t`.
    fn set_leaf(&mut self, t: usize, vpn: u64, entry: Entry)
        requires
            old(self).wf(),
            vpn < 0x10_0000_0000,
            descend(old(self).infos@, old(self).entries@, vpn as int, 1) == Some(t as int),
            !(entry is Table),
        ensures
            final(self).wf(),
            final(self)@.tables == old(self)@.tables,
            final(self)@.mappings == (match entry {
                Entry::Page { frame, flags } => old(self)@.mappings.insert(
                    vpn as int,
                    Mapping { frame, flags },
                ),
                _ => old(self)@.mappings.remove(vpn as int),
            }),
    {
        proof {
            lemma_descend_meets(self.infos@, self.entries@, vpn as int, 1);
            assert(self.entries.len() == 512 * self.infos.len());
        }
        let i = index_of(vpn, 1);
        let slot: usize = t * 512 + i;
        self.entries.set(slot, entry);
        proof {
            let infos = self.infos@;
            let entries = old(self).entries@;
            let entries2 = self.entries@;
            assert(entries2 == entries.update(slot as int, entries2[slot as int]));
            assert(!(entries[slot as int] is Table));
            assert forall|v: int| 0 <= v < 0x10_0000_0000 implies {
                &&& tree_wf(infos, entries2)
                &&& v != vpn ==> lookup(infos, entries2, v) == lookup(infos, entries, v)
            } by {
                lemma_set_leaf(infos, entries, entries2, vpn as int, t as int, v);
            }
            lemma_set_leaf(infos, entries, entries2, vpn as int, t as int, vpn as int);
            match entry {
                Entry::Page { frame, flags } => {
                    assert(self@.mappings =~= old(self)@.mappings.insert(
                        vpn as int,
                        Mapping { frame, flags },
                    ));
                },
                _ => {
                    assert(self@.mappings =~= old(self)@.mappings.remove(vpn as int));
                },
            }
            assert forall|p: (int, int)| old(self)@.tables.dom().contains(p) implies self@.tables[p]
                == old(self)@.tables[p] by {
                let u = choose|u: int|
                    1 <= u < infos.len() && (#[trigger] infos[u]).level == p.0 && infos[u].prefix
                        == p.1;
                lemma_table_frame(infos, entries, u);
                lemma_table_frame(infos, entries2, u);
            }
            assert(self@.tables =~= old(self)@.tables);
        }
    }

    /// Maps the page that holds `address` to `frame` with `flags`. Tables
    /// that are missing on the way are made in frames drawn from
    /// `allocator`. A refusal changes nothing, neither here nor in the
    /// allocator.
    pub fn map_to(
        &mut self,
        address: u64,
        frame: u64,
        flags: PageFlags,
        allocator: &mut FrameAllocator,
    ) -> (r: Result<(), MapError>)
        requires
            old(self).wf(),
            old(allocator).wf(),
        ensures
            final(self).wf(),
            final(allocator).wf(),
            r == map_outcome(old(self)@, old(allocator)@, address, frame, flags),
            r is Ok ==> final(self)@ == old(self)@.after_map(
                page_number(address),
                Mapping { frame, flags },
                old(allocator)@,
            ),
            r is Ok ==> final(allocator)@ == after_allocations(
                old(allocator)@,
                old(self)@.missing_tables(page_number(address)),
            ),
            r is Err ==> final(self)@ == old(self)@ && final(allocator)@ == old(allocator)@,
    {
        let top: u64 = address / 0x8000_0000_0000;
        if top != 0 && top != 0x1_ffff {
            return Err(MapError::NotCanonical);
        }
        if frame % 4096 != 0 {
            return Err(MapError::InvalidFrame);
        }
        let vpn: u64 = (address / 4096) % 0x10_0000_0000;
        let (t0, level0) = self.walk(vpn);
        proof {
            assert(forall|l: int|
                1 <= l <= 3 ==> (self@.has_table(vpn as int, l) <==> level0 <= l)) by {
                reveal_with_fuel(descend, 4);
                self.lemma_has_table(vpn as int, 1);
                self.lemma_has_table(vpn as int, 2);
                self.lemma_has_table(vpn as int, 3);
            }
            assert(level0 > 1 ==> self@.mapping_of(vpn as int) is None) by {
                reveal_with_fuel(descend, 4);
            }
            assert(self.entries.len() == 512 * self.infos.len());
        }
        if level0 == 1 {
            let i = index_of(vpn, 1);
            match self.entries[t0 * 512 + i] {
                Entry::Page { frame: there, flags: these } => {
                    if there == frame && these == flags {
                        proof {
                            let m = Mapping { frame, flags };
                            assert(self@.mappings.insert(vpn as int, m) =~= self@.mappings);
                            assert(self@.after_map(vpn as int, m, allocator@).tables =~= self@.tables);
                        }
                        return Ok(());
                    }
                    return Err(MapError::PageAlreadyMapped);
                },
                _ => {},
            }
        }
        let missing: usize = (level0 - 1) as usize;
        if !allocator.can_allocate(missing) {
            return Err(MapError::OutOfMemory);
        }
        let mut t: usize = t0;
        let mut level: u8 = level0;
        while level > 1
            invariant
                self.wf(),
                allocator.wf(),
                old(allocator)@.wf(),
                vpn < 0x10_0000_0000,
                1 <= level <= level0 <= 4,
                descend(self.infos@, self.entries@, vpn as int, level as int) == Some(t as int),
                level > 1 ==> descend(self.infos@, self.entries@, vpn as int, level - 1) is None,
                level == 1 ==> !(self.entries@[t * 512 + index_at(vpn as int, 1)] is Page),
                self@.mappings == old(self)@.mappings,
                self@.tables == old(self)@.tables_down_to(
                    vpn as int,
                    old(allocator)@,
                    level as int,
                ),
                allocator@ == after_allocations(old(allocator)@, (level0 - level) as nat),
                old(allocator)@.available() >= level0 - 1,
                forall|l: int|
                    1 <= l <= 3 ==> (old(self)@.has_table(vpn as int, l) <==> level0 <= l),
            decreases level,
        {
            proof {
                    lemma_allocations_step(old(allocator)@, (level0 - level) as nat);
                law_allocation_uses_one_frame(allocator@);
            }
            match allocator.allocate_frame() {
                Ok(table_frame) => {
                    assert(table_frame == frame_taken(old(allocator)@, (level0 - level) as nat));
                    let n = self.add_table(t, level, vpn, table_frame);
                    proof {
                        assert(self@.tables =~= old(self)@.tables_down_to(
                            vpn as int,
                            old(allocator)@,
                            level - 1,
                        ));
                    }
                    t = n;
                    level = level - 1;
                },
                Err(_) => {
                    assert(false);
                    return Err(MapError::OutOfMemory);
                },
            }
        }
        self.set_leaf(t, vpn, Entry::Page { frame, flags });
        Ok(())
    }

    /// Removes the mapping of the page that holds `address` and returns it.
    /// The frame goes back to `allocator` if that is where it came from. The
    /// caller flushes the page's entry of the translation cache.
    pub fn unmap(&mut self, address: u64, allocator: &mut FrameAllocator) -> (r: Result<
        Mapping,
        MapError,
    >)
        requires
            old(self).wf(),
            old(allocator).wf(),
        ensures
            final(self).wf(),
            final(allocator).wf(),
            r == unmap_outcome(old(self)@, address),
            r is Err ==> final(self)@ == old(self)@ && final(allocator)@ == old(allocator)@,
            r matches Ok(m) ==> final(self)@ == old(self)@.after_unmap(page_number(address))
                && final(allocator)@ == (if old(allocator)@.is_issued(m.frame as int) {
                old(allocator)@.after_release(m.frame as int)
            } else {
                old(allocator)@
            }),
    {
        let top: u64 = address / 0x8000_0000_0000;
        if top != 0 && top != 0x1_ffff {
            return Err(MapError::NotCanonical);
        }
        let vpn: u64 = (address / 4096) % 0x10_0000_0000;
        let (t, level) = self.walk(vpn);
        proof {
            reveal_with_fuel(descend, 4);
            assert(self.entries.len() == 512 * self.infos.len());
        }
        if level > 1 {
            return Err(MapError::PageNotMapped);
        }
        let i = index_of(vpn, 1);
        match self.entries[t * 512 + i] {
            Entry::Page { frame, flags } => {
                self.set_leaf(t, vpn, Entry::Empty);
                let _ = allocator.deallocate_frame(frame);
                Ok(Mapping { frame, flags })
            },
            _ => Err(MapError::PageNotMapped),
        }
    }

    /// Maps the page that holds `physical_address` to the frame at the very
    /// same address, so that the virtual address equals the physical one.
    /// Without flags the mapping is present and writable. A page that is
    /// mapped this way already is accepted as it stands.
    pub fn identity_map(
        &mut self,
        physical_address: u64,
        flags: Option<PageFlags>,
        allocator: &mut FrameAllocator,
    ) -> (r: Result<(), MapError>)
        requires
            old(self).wf(),
            old(allocator).wf(),
        ensures
            final(self).wf(),
            final(allocator).wf(),
            r == map_outcome(
                old(self)@,
                old(allocator)@,
                frame_base(physical_address),
                frame_base(physical_address),
                flags_or_default(flags),
            ),
            r is Ok ==> final(self)@ == old(self)@.after_map(
                page_number(frame_base(physical_address)),
                Mapping {
                    frame: frame_base(physical_address),
                    flags: flags_or_default(flags),
                },
                old(allocator)@,
            ),
            r is Ok ==> final(allocator)@ == after_allocations(
                old(allocator)@,
                old(self)@.missing_tables(page_number(frame_base(physical_address))),
            ),
            r is Err ==> final(self)@ == old(self)@ && final(allocator)@ == old(allocator)@,
    {
        let base: u64 = physical_address - physical_address % 4096;
        let flags = match flags {
            Some(f) => f,
            None => PageFlags { present: true, writable: true, user: false, no_execute: false },
        };
        self.map_to(base, base, flags, allocator)
    }

    /// Maps the page that holds `address` to a frame drawn from `allocator`
    /// and returns that frame. A refusal changes nothing.
    pub fn map_fresh(&mut self, address: u64, flags: PageFlags, allocator: &mut FrameAllocator) -> (r:
        Result<u64, MapError>)
        requires
            old(self).wf(),
            old(allocator).wf(),
        ensures
            final(self).wf(),
            final(allocator).wf(),
            r is Ok <==> (MemoryView { tables: old(self)@, frames: old(allocator)@ }).fresh_outcome(
                address,
            ) is Ok,
            r matches Err(e) ==> (MemoryView {
                tables: old(self)@,
                frames: old(allocator)@,
            }).fresh_outcome(address) == Err::<(), MapError>(e),
            r matches Ok(frame) ==> old(allocator)@.next_frame() == Some(frame as int),
            (MemoryView { tables: final(self)@, frames: final(allocator)@ }) == (MemoryView {
                tables: old(self)@,
                frames: old(allocator)@,
            }).after_fresh(address, flags),
    {
        let top: u64 = address / 0x8000_0000_0000;
        if top != 0 && top != 0x1_ffff {
            return Err(MapError::NotCanonical);
        }
        if self.translate(address).is_some() {
            return Err(MapError::PageAlreadyMapped);
        }
        let vpn: u64 = (address / 4096) % 0x10_0000_0000;
        let (_, level) = self.walk(vpn);
        let needed: usize = level as usize;
        if !allocator.can_allocate(needed) {
            return Err(MapError::OutOfMemory);
        }
        proof {
            law_allocation_uses_one_frame(allocator@);
            lemma_allocations_step(allocator@, 1);
            assert(after_allocations(allocator@, 1) == allocator@.after_allocate()) by {
                reveal_with_fuel(after_allocations, 2);
            }
            lemma_allocations_shift(allocator@, (level - 1) as nat);
        }
        match allocator.allocate_frame() {
            Ok(frame) => {
                proof {
                    law_allocated_frame_is_usable_and_unused(old(allocator)@, frame as int);
                }
                let mapped = self.map_to(address, frame, flags, allocator);
                assert(mapped is Ok);
                Ok(frame)
            },
            Err(_) => {
                assert(false);
                Err(MapError::OutOfMemory)
            },
        }
    }

    /// Maps every page that the `length` bytes from `virtual_start` on touch
    /// to a frame of its own, drawn from `allocator`, lowest page first.
    /// Without flags the mappings are present and writable. A range that is
    /// empty, leaves the address space or a canonical half is refused before
    /// anything is mapped; otherwise mapping stops at the first page that is
    /// refused, and the pages before it stay mapped.
    pub fn range_map(
        &mut self,
        virtual_start: u64,
        length: u64,
        flags: Option<PageFlags>,
        allocator: &mut FrameAllocator,
    ) -> (r: Result<(), MapError>)
        requires
            old(self).wf(),
            old(allocator).wf(),
        ensures
            final(self).wf(),
            final(allocator).wf(),
            !valid_range(virtual_start, length) ==> r == Err::<(), MapError>(MapError::InvalidRange)
                && final(self)@ == old(self)@ && final(allocator)@ == old(allocator)@,
            valid_range(virtual_start, length) ==> r == (MemoryView {
                tables: old(self)@,
                frames: old(allocator)@,
            }).range_outcome(
                frame_base(virtual_start),
                pages_touched(virtual_start, length),
                flags_or_default(flags),
            ),
            valid_range(virtual_start, length) ==> (MemoryView {
                tables: final(self)@,
                frames: final(allocator)@,
            }) == (MemoryView { tables: old(self)@, frames: old(allocator)@ }).after_range(
                frame_base(virtual_start),
                pages_touched(virtual_start, length),
                flags_or_default(flags),
            ),
    {
        if length == 0 || length - 1 > u64::MAX - virtual_start {
            return Err(MapError::InvalidRange);
        }
        let last: u64 = virtual_start + (length - 1);
        let top: u64 = virtual_start / 0x8000_0000_0000;
        if (top != 0 && top != 0x1_ffff) || last / 0x8000_0000_0000 != top {
            return Err(MapError::InvalidRange);
        }
        let chosen = match flags {
            Some(f) => f,
            None => PageFlags { present: true, writable: true, user: false, no_execute: false },
        };
        let first: u64 = virtual_start - virtual_start % 4096;
        let count: u64 = (last - last % 4096 - first) / 4096 + 1;
        let ghost start = MemoryView { tables: self@, frames: allocator@ };
        assert(valid_range(virtual_start, length));
        assert(count == pages_touched(virtual_start, length));
        proof {
            reveal(MemoryView::range_outcome);
            reveal(MemoryView::after_range);
            assert(start.range_outcome(first, 0, chosen) is Ok);
            assert(start.after_range(first, 0, chosen) == start);
        }
        let mut done: u64 = 0;
        while done < count
            invariant
                self.wf(),
                allocator.wf(),
                done <= count,
                first + (count - 1) * 4096 <= u64::MAX,
                valid_range(virtual_start, length),
                count == pages_touched(virtual_start, length),
                first == frame_base(virtual_start),
                chosen == flags_or_default(flags),
                start == (MemoryView { tables: old(self)@, frames: old(allocator)@ }),
                start.range_outcome(first, done as nat, chosen) is Ok,
                (MemoryView { tables: self@, frames: allocator@ }) == start.after_range(
                    first,
                    done as nat,
                    chosen,
                ),
            decreases count - done,
        {
            let address: u64 = first + done * 4096;
            let ghost before = MemoryView { tables: self@, frames: allocator@ };
            proof {
                lemma_range_step(start, first, done as nat, chosen);
            }
            match self.map_fresh(address, chosen, allocator) {
                Ok(_) => {},
                Err(e) => {
                    proof {
                        lemma_range_stops(start, first, (done + 1) as nat, count as nat, chosen);
                    }
                    return Err(e);
                },
            }
            done = done + 1;
        }
        Ok(())
    }
}

/// What one more page adds to a range whose pages were all mapped so far.
pub proof fn lemma_range_step(start: MemoryView, first: u64, done: nat, flags: PageFlags)
    requires
        start.range_outcome(first, done, flags) is Ok,
    ensures
        start.range_outcome(first, done + 1, flags) == start.after_range(
            first,
            done,
            flags,
        ).fresh_outcome((first + done * 4096) as u64),
        start.after_range(first, done + 1, flags) == start.after_range(
            first,
            done,
            flags,
        ).after_fresh((first + done * 4096) as u64, flags),
        start.range_outcome(first, 0, flags) is Ok,
        start.after_range(first, 0, flags) == start,
{
    reveal(MemoryView::range_outcome);
    reveal(MemoryView::after_range);
}

impl PageTableManager {
    /// Maps every page that the `length` bytes from `virtual_start` on touch
    /// to the frame that holds the matching bytes from `physical_start` on,
    /// lowest page first. Without flags the mappings are present and
    /// writable. A page that is mapped that way already is accepted as it
    /// stands. A range that cannot be mapped to that memory is refused
    /// before anything is mapped; otherwise mapping stops at the first page
    /// that is refused, and the pages before it stay mapped.
    pub fn map_region(
        &mut self,
        virtual_start: u64,
        physical_start: u64,
        length: u64,
        flags: Option<PageFlags>,
        allocator: &mut FrameAllocator,
    ) -> (r: Result<(), MapError>)
        requires
            old(self).wf(),
            old(allocator).wf(),
        ensures
            final(self).wf(),
            final(allocator).wf(),
            !valid_region(virtual_start, physical_start, length) ==> r == Err::<(), MapError>(
                MapError::InvalidRange,
            ) && final(self)@ == old(self)@ && final(allocator)@ == old(allocator)@,
            valid_region(virtual_start, physical_start, length) ==> r == (MemoryView {
                tables: old(self)@,
                frames: old(allocator)@,
            }).region_outcome(
                frame_base(virtual_start),
                frame_base(physical_start),
                pages_touched(virtual_start, length),
                flags_or_default(flags),
            ),
            valid_region(virtual_start, physical_start, length) ==> (MemoryView {
                tables: final(self)@,
                frames: final(allocator)@,
            }) == (MemoryView { tables: old(self)@, frames: old(allocator)@ }).after_region(
                frame_base(virtual_start),
                frame_base(physical_start),
                pages_touched(virtual_start, length),
                flags_or_default(flags),
            ),
    {
        if length == 0 || length - 1 > u64::MAX - virtual_start || length - 1 > u64::MAX
            - physical_start {
            return Err(MapError::InvalidRange);
        }
        let last: u64 = virtual_start + (length - 1);
        let top: u64 = virtual_start / 0x8000_0000_0000;
        if (top != 0 && top != 0x1_ffff) || last / 0x8000_0000_0000 != top {
            return Err(MapError::InvalidRange);
        }
        if virtual_start % 4096 != physical_start % 4096 {
            return Err(MapError::InvalidRange);
        }
        let chosen = match flags {
            Some(f) => f,
            None => PageFlags { present: true, writable: true, user: false, no_execute: false },
        };
        let first: u64 = virtual_start - virtual_start % 4096;
        let frame: u64 = physical_start - physical_start % 4096;
        let count: u64 = (last - last % 4096 - first) / 4096 + 1;
        let ghost start = MemoryView { tables: self@, frames: allocator@ };
        assert(valid_region(virtual_start, physical_start, length));
        assert(count == pages_touched(virtual_start, length));
        assert(frame + (count - 1) * 4096 <= u64::MAX);
        proof {
            reveal(MemoryView::region_outcome);
            reveal(MemoryView::after_region);
            assert(start.region_outcome(first, frame, 0, chosen) is Ok);
            assert(start.after_region(first, frame, 0, chosen) == start);
        }
        let mut done: u64 = 0;
        while done < count
            invariant
                self.wf(),
                allocator.wf(),
                done <= count,
                first + (count - 1) * 4096 <= u64::MAX,
                frame + (count - 1) * 4096 <= u64::MAX,
                valid_region(virtual_start, physical_start, length),
                count == pages_touched(virtual_start, length),
                first == frame_base(virtual_start),
                frame == frame_base(physical_start),
                chosen == flags_or_default(flags),
                start == (MemoryView { tables: old(self)@, frames: old(allocator)@ }),
                start.region_outcome(first, frame, done as nat, chosen) is Ok,
                (MemoryView { tables: self@, frames: allocator@ }) == start.after_region(
                    first,
                    frame,
                    done as nat,
                    chosen,
                ),
            decreases count - done,
        {
            proof {
                lemma_region_step(start, first, frame, done as nat, chosen);
            }
            match self.map_to(first + done * 4096, frame + done * 4096, chosen, allocator) {
                Ok(()) => {},
                Err(e) => {
                    proof {
                        lemma_region_stops(start, first, frame, (done + 1) as nat, count as nat, chosen);
                    }
                    return Err(e);
                },
            }
            done = done + 1;
        }
        Ok(())
    }

    /// Unmaps every page that the `length` bytes from `virtual_start` on
    /// touch; the frames that came from `allocator` go back to it. A page
    /// that is not mapped is passed over. A range that is empty, leaves the
    /// address space or a canonical half is refused and nothing changes.
    pub fn unmap_region(&mut self, virtual_start: u64, length: u64, allocator: &mut FrameAllocator) -> (r:
        Result<(), MapError>)
        requires
            old(self).wf(),
            old(allocator).wf(),
        ensures
            final(self).wf(),
            final(allocator).wf(),
            r == (if valid_range(virtual_start, length) {
                Ok::<(), MapError>(())
            } else {
                Err::<(), MapError>(MapError::InvalidRange)
            }),
            r is Err ==> final(self)@ == old(self)@ && final(allocator)@ == old(allocator)@,
            r is Ok ==> (MemoryView { tables: final(self)@, frames: final(allocator)@ })
                == (MemoryView { tables: old(self)@, frames: old(allocator)@ }).after_unmapped_run(
                frame_base(virtual_start),
                pages_touched(virtual_start, length),
            ),
    {
        if length == 0 || length - 1 > u64::MAX - virtual_start {
            return Err(MapError::InvalidRange);
        }
        let last: u64 = virtual_start + (length - 1);
        let top: u64 = virtual_start / 0x8000_0000_0000;
        if (top != 0 && top != 0x1_ffff) || last / 0x8000_0000_0000 != top {
            return Err(MapError::InvalidRange);
        }
        let first: u64 = virtual_start - virtual_start % 4096;
        let count: u64 = (last - last % 4096 - first) / 4096 + 1;
        let ghost start = MemoryView { tables: self@, frames: allocator@ };
        assert(valid_range(virtual_start, length));
        assert(count == pages_touched(virtual_start, length));
        proof {
            reveal(MemoryView::after_unmapped_run);
            assert(start.after_unmapped_run(first, 0) == start);
        }
        let mut done: u64 = 0;
        while done < count
            invariant
                self.wf(),
                allocator.wf(),
                done <= count,
                first + (count - 1) * 4096 <= u64::MAX,
                start == (MemoryView { tables: old(self)@, frames: old(allocator)@ }),
                (MemoryView { tables: self@, frames: allocator@ }) == start.after_unmapped_run(
                    first,
                    done as nat,
                ),
            decreases count - done,
        {
            proof {
                reveal(MemoryView::after_unmapped_run);
                assert(start.after_unmapped_run(first, (done + 1) as nat) == start.after_unmapped_run(
                    first,
                    done as nat,
                ).after_unmapped((first + done * 4096) as u64));
            }
            let _ = self.unmap(first + done * 4096, allocator);
            done = done + 1;
        }
        Ok(())
    }
}

/// What one more page adds to a region whose pages were all mapped so far.
pub proof fn lemma_region_step(
    start: MemoryView,
    first: u64,
    frame: u64,
    done: nat,
    flags: PageFlags,
)
    requires
        start.region_outcome(first, frame, done, flags) is Ok,
    ensures
        start.region_outcome(first, frame, done + 1, flags) == start.after_region(
            first,
            frame,
            done,
            flags,
        ).mapped_outcome((first + done * 4096) as u64, (frame + done * 4096) as u64, flags),
        start.after_region(first, frame, done + 1, flags) == start.after_region(
            first,
            frame,
            done,
            flags,
        ).after_mapped((first + done * 4096) as u64, (frame + done * 4096) as u64, flags),
{
    reveal(MemoryView::region_outcome);
    reveal(MemoryView::after_region);
}

/// Once a page of a region is refused, the refusal and the state stay as
/// they are however far the region goes on.
pub proof fn lemma_region_stops(
    start: MemoryView,
    first: u64,
    frame: u64,
    failed: nat,
    count: nat,
    flags: PageFlags,
)
    requires
        failed <= count,
        start.region_outcome(first, frame, failed, flags) is Err,
    ensures
        start.region_outcome(first, frame, count, flags) == start.region_outcome(
            first,
            frame,
            failed,
            flags,
        ),
        start.after_region(first, frame, count, flags) == start.after_region(
            first,
            frame,
            failed,
            flags,
        ),
    decreases count - failed,
{
    reveal(MemoryView::region_outcome);
    reveal(MemoryView::after_region);
    if failed < count {
        lemma_region_stops(start, first, frame, failed, (count - 1) as nat, flags);
    }
}

/// After a run of pages was unmapped, none of its pages leads anywhere:
/// every leaf of the run is absent.
pub proof fn law_unmapped_run_leaves_no_leaf(start: MemoryView, first: u64, count: nat, k: int)
    requires
        valid_pages(first, count),
        0 <= k < count,
    ensures
        start.after_unmapped_run(first, count).tables.mapping_of(
            page_number(page_address(first, k)),
        ) is None,
    decreases count,
{
    reveal(MemoryView::after_unmapped_run);
    let n = (count - 1) as nat;
    let before = start.after_unmapped_run(first, n);
    lemma_pages_differ(first, count, n as int, k);
    if k < n {
        assert(valid_pages(first, n));
        law_unmapped_run_leaves_no_leaf(start, first, n, k);
    }
}

/// Allocations after one allocation are one allocation more.
pub proof fn lemma_allocations_shift(v: AllocatorView, count: nat)
    requires
        v.wf(),
    ensures
        after_allocations(v.after_allocate(), count) == after_allocations(v, count + 1),
    decreases count,
{
    reveal_with_fuel(after_allocations, 2);
    if count > 0 {
        lemma_allocations_shift(v, (count - 1) as nat);
    }
}

/// Once a page of a range is refused, the refusal and the state stay as
/// they are however far the range goes on.
pub proof fn lemma_range_stops(
    start: MemoryView,
    first: u64,
    failed: nat,
    count: nat,
    flags: PageFlags,
)
    requires
        failed <= count,
        start.range_outcome(first, failed, flags) is Err,
    ensures
        start.range_outcome(first, count, flags) == start.range_outcome(first, failed, flags),
        start.after_range(first, count, flags) == start.after_range(first, failed, flags),
    decreases count - failed,
{
    reveal(MemoryView::range_outcome);
    reveal(MemoryView::after_range);
    if failed < count {
        lemma_range_stops(start, first, failed, (count - 1) as nat, flags);
    }
}

/// Mapping a page and unmapping it again leaves the page without a mapping,
/// and hands back the mapping that was made. After that the page can be
/// mapped again whatever the allocator has left, because no table is missing
/// on the way to it; and mapping it anew restores the state that the first
/// mapping made.
pub proof fn law_map_unmap_map(
    tables: PageTableView,
    address: u64,
    frame: u64,
    flags: PageFlags,
    first: AllocatorView,
    frames: AllocatorView,
)
    requires
        is_canonical(address),
        valid_frame(frame),
        frames.wf(),
    ensures
        unmap_outcome(
            tables.after_map(page_number(address), Mapping { frame, flags }, first),
            address,
        ) == Ok::<Mapping, MapError>(Mapping { frame, flags }),
        tables.after_map(page_number(address), Mapping { frame, flags }, first).after_unmap(
            page_number(address),
        ).mapping_of(page_number(address)) is None,
        map_outcome(
            tables.after_map(page_number(address), Mapping { frame, flags }, first).after_unmap(
                page_number(address),
            ),
            frames,
            address,
            frame,
            flags,
        ) is Ok,
        tables.after_map(page_number(address), Mapping { frame, flags }, first).after_unmap(
            page_number(address),
        ).after_map(page_number(address), Mapping { frame, flags }, frames) == tables.after_map(
            page_number(address),
            Mapping { frame, flags },
            first,
        ),
{
    let vpn = page_number(address);
    let m = Mapping { frame, flags };
    let mapped = tables.after_map(vpn, m, first);
    let unmapped = mapped.after_unmap(vpn);
    assert(unmapped.missing_tables(vpn) == 0);
    assert(unmapped.after_map(vpn, m, frames).mappings =~= mapped.mappings);
    assert(unmapped.after_map(vpn, m, frames).tables =~= mapped.tables);
}

/// Unmapping touches no other page: every other page leads where it led.
pub proof fn law_unmap_touches_one_page(tables: PageTableView, vpn: int, other: int)
    requires
        other != vpn,
    ensures
        tables.after_unmap(vpn).mapping_of(other) == tables.mapping_of(other),
        tables.after_unmap(vpn).mapping_of(vpn) is None,
{
}

/// Mapping touches no other page: every other page leads where it led. And
/// it moves no table: every table that was there lives where it lived.
pub proof fn law_map_touches_one_page(
    tables: PageTableView,
    vpn: int,
    mapping: Mapping,
    frames: AllocatorView,
    other: int,
    table: (int, int),
)
    requires
        other != vpn,
        tables.tables.dom().contains(table),
    ensures
        tables.after_map(vpn, mapping, frames).mapping_of(other) == tables.mapping_of(other),
        tables.after_map(vpn, mapping, frames).mapping_of(vpn) == Some(mapping),
        tables.after_map(vpn, mapping, frames).tables.dom().contains(table),
        tables.after_map(vpn, mapping, frames).tables[table] == tables.tables[table],
{
}

/// The address of page `k` of a run of pages that starts at `first`.
pub open spec fn page_address(first: u64, k: int) -> u64 {
    (first + k * 4096) as u64
}

/// Whether a run of `count` pages from `first` on lies wholly in one
/// canonical half of the address space.
pub open spec fn valid_pages(first: u64, count: nat) -> bool {
    &&& first % 4096 == 0
    &&& count > 0
    &&& first + count * 4096 - 1 <= u64::MAX
    &&& is_canonical(first)
    &&& first as int / 0x8000_0000_0000 == (first + count * 4096 - 1) / 0x8000_0000_0000
}

/// The pages of a run in one canonical half are canonical and have numbers
/// of their own.
pub proof fn lemma_pages_differ(first: u64, count: nat, i: int, j: int)
    requires
        valid_pages(first, count),
        0 <= i < count,
        0 <= j < count,
    ensures
        is_canonical(page_address(first, i)),
        page_address(first, i) % 4096 == 0,
        i != j ==> page_number(page_address(first, i)) != page_number(page_address(first, j)),
{
    let half = first as int / 0x8000_0000_0000;
    let a = first + i * 4096;
    let b = first + j * 4096;
    assert(a / 0x8000_0000_0000 == half && b / 0x8000_0000_0000 == half);
    assert(a / 4096 == first as int / 4096 + i);
    assert(b / 4096 == first as int / 4096 + j);
    assert(half * 0x8_0000_0000 <= a / 4096 < (half + 1) * 0x8_0000_0000);
    assert(half * 0x8_0000_0000 <= b / 4096 < (half + 1) * 0x8_0000_0000);
}

/// A range of pages that was mapped page by page to fresh frames: every page
/// leads to a frame of its own, aligned, with the flags asked for; that
/// frame was not in use before and is in use now; and every frame that was in
/// use before still is.
pub proof fn law_range_map_gives_each_page_its_own_frame(
    start: MemoryView,
    first: u64,
    count: nat,
    flags: PageFlags,
    i: int,
    j: int,
)
    requires
        start.frames.wf(),
        valid_pages(first, count),
        start.range_outcome(first, count, flags) is Ok,
        0 <= i < count,
        0 <= j < count,
    ensures
        start.after_range(first, count, flags).frames.wf(),
        start.after_range(first, count, flags).tables.mapping_of(
            page_number(page_address(first, i)),
        ) is Some,
        start.after_range(first, count, flags).tables.mapping_of(
            page_number(page_address(first, i)),
        ).unwrap().flags == flags,
        start.after_range(first, count, flags).tables.mapping_of(
            page_number(page_address(first, i)),
        ).unwrap().frame % 4096 == 0,
        start.after_range(first, count, flags).frames.is_issued(
            start.after_range(first, count, flags).tables.mapping_of(
                page_number(page_address(first, i)),
            ).unwrap().frame as int,
        ),
        !start.frames.is_issued(
            start.after_range(first, count, flags).tables.mapping_of(
                page_number(page_address(first, i)),
            ).unwrap().frame as int,
        ),
        i != j ==> start.after_range(first, count, flags).tables.mapping_of(
            page_number(page_address(first, i)),
        ).unwrap().frame != start.after_range(first, count, flags).tables.mapping_of(
            page_number(page_address(first, j)),
        ).unwrap().frame,
        forall|g: int|
            start.frames.is_issued(g) ==> start.after_range(first, count, flags).frames.is_issued(g),
    decreases count,
{
    reveal(MemoryView::range_outcome);
    reveal(MemoryView::after_range);
    let n = (count - 1) as nat;
    let before = start.after_range(first, n, flags);
    let after = start.after_range(first, count, flags);
    let last = page_address(first, n as int);
    let vpn = page_number(last);
    lemma_pages_differ(first, count, n as int, n as int);
    assert(after == before.after_fresh(last, flags));
    assert(before.fresh_outcome(last) is Ok);
    if n > 0 {
        assert(valid_pages(first, n));
        law_range_map_gives_each_page_its_own_frame(start, first, n, flags, 0, 0);
    }
    assert(before.frames.wf());
    law_allocation_uses_one_frame(before.frames);
    let frame = before.frames.next_frame().unwrap();
    law_allocated_frame_is_usable_and_unused(before.frames, frame);
    let missing = before.tables.missing_tables(vpn);
    lemma_allocations_shift(before.frames, missing);
    let one = before.frames.after_allocate();
    law_allocations_keep_issued_frames(one, missing, frame);
    assert(after.frames == after_allocations(one, missing));
    assert(0 <= frame <= u64::MAX) by {
        let r = choose|r: int|
            0 <= r < before.frames.map.len() && #[trigger] before.frames.map[r].holds_frame(frame);
        assert(before.frames.map[r].end() <= u64::MAX);
    }
    assert forall|g: int| start.frames.is_issued(g) implies after.frames.is_issued(g) by {
        assert(before.frames.is_issued(g));
        assert(one.is_issued(g));
        law_allocations_keep_issued_frames(one, missing, g);
    }
    assert(!start.frames.is_issued(frame));
    if i < n {
        lemma_pages_differ(first, count, i, n as int);
        law_range_map_gives_each_page_its_own_frame(start, first, n, flags, i, i);
        let vi = page_number(page_address(first, i));
        let fi = before.tables.mapping_of(vi).unwrap().frame;
        assert(after.tables.mapping_of(vi) == before.tables.mapping_of(vi));
        assert(one.is_issued(fi as int));
        law_allocations_keep_issued_frames(one, missing, fi as int);
    }
    if j < n {
        lemma_pages_differ(first, count, j, n as int);
        law_range_map_gives_each_page_its_own_frame(start, first, n, flags, j, j);
        let vj = page_number(page_address(first, j));
        assert(after.tables.mapping_of(vj) == before.tables.mapping_of(vj));
    }
    if i < n && j < n && i != j {
        law_range_map_gives_each_page_its_own_frame(start, first, n, flags, i, j);
    }
}

/// The physical address that a virtual address leads to, if its page is
/// mapped: the page's frame and the offset inside the page.
pub open spec fn physical_of(tables: PageTableView, address: int) -> Option<int> {
    match tables.mapping_of(page_number(address as u64)) {
        Some(m) => Some(m.frame + address % 4096),
        None => None,
    }
}

/// Physical memory after `bytes` were written through the page tables to the
/// virtual addresses from `address` on, lowest address first. Memory is a
/// map from physical addresses to bytes; a byte whose page is not mapped is
/// lost.
pub open spec fn written_through(
    memory: Map<int, u8>,
    tables: PageTableView,
    address: int,
    bytes: Seq<u8>,
) -> Map<int, u8>
    decreases bytes.len(),
{
    if bytes.len() == 0 {
        memory
    } else {
        let before = written_through(memory, tables, address, bytes.drop_last());
        match physical_of(tables, address + bytes.len() - 1) {
            Some(p) => before.insert(p, bytes.last()),
            None => before,
        }
    }
}

/// The `count` bytes read through the page tables from the virtual addresses
/// from `address` on.
pub open spec fn read_through(
    memory: Map<int, u8>,
    tables: PageTableView,
    address: int,
    count: nat,
) -> Seq<u8> {
    Seq::new(count, |k: int| memory[physical_of(tables, address + k).unwrap()])
}

/// Whether the `count` virtual addresses from `address` on are all mapped
/// and lead to physical addresses of their own.
pub open spec fn maps_without_alias(tables: PageTableView, address: int, count: nat) -> bool {
    &&& forall|k: int| 0 <= k < count ==> (#[trigger] physical_of(tables, address + k)) is Some
    &&& forall|a: int, b: int|
        0 <= a < count && 0 <= b < count && a != b ==> #[trigger] physical_of(tables, address + a)
            != #[trigger] physical_of(tables, address + b)
}

/// What is written through a run of addresses that are mapped without alias
/// is read back unchanged.
pub proof fn law_write_then_read_round_trips(
    memory: Map<int, u8>,
    tables: PageTableView,
    address: int,
    bytes: Seq<u8>,
)
    requires
        maps_without_alias(tables, address, bytes.len()),
    ensures
        read_through(written_through(memory, tables, address, bytes), tables, address, bytes.len())
            == bytes,
{
    let after = written_through(memory, tables, address, bytes);
    assert forall|k: int| 0 <= k < bytes.len() implies after[physical_of(
        tables,
        address + k,
    ).unwrap()] == bytes[k] by {
        lemma_written_byte_stays(memory, tables, address, bytes, k);
    }
    assert(read_through(after, tables, address, bytes.len()) =~= bytes);
}

/// A byte written through a run of addresses that are mapped without alias
/// is what memory holds at its place when the run is written.
proof fn lemma_written_byte_stays(
    memory: Map<int, u8>,
    tables: PageTableView,
    address: int,
    bytes: Seq<u8>,
    k: int,
)
    requires
        maps_without_alias(tables, address, bytes.len()),
        0 <= k < bytes.len(),
    ensures
        written_through(memory, tables, address, bytes).dom().contains(
            physical_of(tables, address + k).unwrap(),
        ),
        written_through(memory, tables, address, bytes)[physical_of(tables, address + k).unwrap()]
            == bytes[k],
    decreases bytes.len(),
{
    let last = bytes.len() - 1;
    assert(physical_of(tables, address + last) is Some);
    assert(physical_of(tables, address + k) is Some);
    if k < last {
        let shorter = bytes.drop_last();
        assert(maps_without_alias(tables, address, shorter.len())) by {
            assert forall|a: int, b: int|
                0 <= a < shorter.len() && 0 <= b < shorter.len() && a != b implies #[trigger] physical_of(
                tables,
                address + a,
            ) != #[trigger] physical_of(tables, address + b) by {
                assert(0 <= a < bytes.len() && 0 <= b < bytes.len());
            }
        }
        lemma_written_byte_stays(memory, tables, address, shorter, k);
        assert(physical_of(tables, address + k) != physical_of(tables, address + last));
    }
}

/// A range that can be mapped is a run of pages in one canonical half.
pub proof fn lemma_valid_range_pages(virtual_start: u64, length: u64)
    requires
        valid_range(virtual_start, length),
    ensures
        valid_pages(frame_base(virtual_start), pages_touched(virtual_start, length)),
        frame_base(virtual_start) <= virtual_start,
        virtual_start + length <= frame_base(virtual_start) + pages_touched(virtual_start, length)
            * 4096,
{
    let first = frame_base(virtual_start);
    let last = (virtual_start + length - 1) as u64;
    let count = pages_touched(virtual_start, length);
    assert(first + count * 4096 - 1 == frame_base(last) + 4095);
    assert(first as int / 0x8000_0000_0000 == virtual_start as int / 0x8000_0000_0000);
    assert((frame_base(last) + 4095) / 0x8000_0000_0000 == last as int / 0x8000_0000_0000);
}

/// Two addresses of a range that was mapped page by page to fresh frames:
/// both are mapped, and they lead to different physical addresses unless
/// they are the same address.
pub proof fn lemma_range_map_separates(
    start: MemoryView,
    virtual_start: u64,
    length: u64,
    flags: PageFlags,
    a: int,
    b: int,
)
    requires
        start.frames.wf(),
        valid_range(virtual_start, length),
        start.range_outcome(
            frame_base(virtual_start),
            pages_touched(virtual_start, length),
            flags,
        ) is Ok,
        0 <= a < length,
        0 <= b < length,
    ensures
        physical_of(
            start.after_range(
                frame_base(virtual_start),
                pages_touched(virtual_start, length),
                flags,
            ).tables,
            virtual_start + a,
        ) is Some,
        a != b ==> physical_of(
            start.after_range(
                frame_base(virtual_start),
                pages_touched(virtual_start, length),
                flags,
            ).tables,
            virtual_start + a,
        ) != physical_of(
            start.after_range(
                frame_base(virtual_start),
                pages_touched(virtual_start, length),
                flags,
            ).tables,
            virtual_start + b,
        ),
{
    let first = frame_base(virtual_start);
    let count = pages_touched(virtual_start, length);
    let tables = start.after_range(first, count, flags).tables;
    lemma_valid_range_pages(virtual_start, length);
    let x = virtual_start + a;
    let y = virtual_start + b;
    let i = (x - first) / 4096;
    let j = (y - first) / 4096;
    assert(0 <= i < count && 0 <= j < count);
    assert(page_address(first, i) == x - x % 4096);
    assert(page_address(first, j) == y - y % 4096);
    assert(page_number(x as u64) == page_number(page_address(first, i)));
    assert(page_number(y as u64) == page_number(page_address(first, j)));
    law_range_map_gives_each_page_its_own_frame(start, first, count, flags, i, j);
    law_range_map_gives_each_page_its_own_frame(start, first, count, flags, j, i);
    let fi = tables.mapping_of(page_number(page_address(first, i))).unwrap().frame as int;
    let fj = tables.mapping_of(page_number(page_address(first, j))).unwrap().frame as int;
    assert(physical_of(tables, x) == Some(fi + x % 4096));
    assert(physical_of(tables, y) == Some(fj + y % 4096));
    if a != b {
        if i == j {
            assert(x % 4096 != y % 4096);
        } else {
            lemma_aligned_frames_apart(fi, fj, x % 4096, y % 4096);
        }
    }
}

/// Addresses inside two different aligned frames differ.
proof fn lemma_aligned_frames_apart(f: int, g: int, p: int, q: int)
    requires
        f % 4096 == 0,
        g % 4096 == 0,
        f != g,
        0 <= p < 4096,
        0 <= q < 4096,
    ensures
        f + p != g + q,
{
    assert((f + p) / 4096 == f / 4096);
    assert((g + q) / 4096 == g / 4096);
}

/// Bytes written through a range right after it was mapped are read back
/// unchanged: the pages of the range lead to frames of their own, so no
/// byte of the range overwrites another.
pub proof fn law_range_map_round_trips(
    start: MemoryView,
    virtual_start: u64,
    length: u64,
    flags: PageFlags,
    memory: Map<int, u8>,
    bytes: Seq<u8>,
)
    requires
        start.frames.wf(),
        valid_range(virtual_start, length),
        start.range_outcome(
            frame_base(virtual_start),
            pages_touched(virtual_start, length),
            flags,
        ) is Ok,
        bytes.len() == length,
    ensures
        read_through(
            written_through(
                memory,
                start.after_range(
                    frame_base(virtual_start),
                    pages_touched(virtual_start, length),
                    flags,
                ).tables,
                virtual_start as int,
                bytes,
            ),
            start.after_range(
                frame_base(virtual_start),
                pages_touched(virtual_start, length),
                flags,
            ).tables,
            virtual_start as int,
            length as nat,
        ) == bytes,
{
    let tables = start.after_range(
        frame_base(virtual_start),
        pages_touched(virtual_start, length),
        flags,
    ).tables;
    assert forall|k: int| 0 <= k < length implies (#[trigger] physical_of(
        tables,
        virtual_start + k,
    )) is Some by {
        lemma_range_map_separates(start, virtual_start, length, flags, k, k);
    }
    assert forall|a: int, b: int| 0 <= a < length && 0 <= b < length && a != b implies #[trigger] physical_of(
        tables,
        virtual_start + a,
    ) != #[trigger] physical_of(tables, virtual_start + b) by {
        lemma_range_map_separates(start, virtual_start, length, flags, a, b);
    }
    law_write_then_read_round_trips(memory, tables, virtual_start as int, bytes);
}

} // verus!
