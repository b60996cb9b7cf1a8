//! The physical frame allocator: a forward cursor over the usable regions of
//! the physical memory map, plus the frames that were handed back.
use vstd::prelude::*;

verus! {

/// What a region of the physical memory map may be used for.
#[derive(Clone, Copy, Debug, PartialEq, Eq, Structural)]
pub enum RegionKind {
    /// Free memory that the kernel may hand out.
    Usable,
    /// Memory taken by firmware, the bootloader or devices.
    Reserved,
}

/// One entry of the physical memory map.
#[derive(Clone, Copy, Debug)]
pub struct MemoryRegion {
    /// Physical address of the first byte.
    pub start: u64,
    /// Number of bytes.
    pub length: u64,
    /// Whether frames may be drawn from the region.
    pub kind: RegionKind,
}

impl MemoryRegion {
    /// Address one past the last byte of the region.
    pub open spec fn end(self) -> int {
        self.start + self.length
    }

    /// The lowest frame-aligned address at or above the start.
    pub open spec fn first_frame(self) -> int {
        ((self.start + 4095) / 4096) * 4096
    }

    /// How many whole frames of a usable region can be handed out.
    pub open spec fn frame_count(self) -> nat {
        if self.kind == RegionKind::Usable && self.first_frame() + 4096 <= self.end() {
            ((self.end() - self.first_frame()) / 4096) as nat
        } else {
            0
        }
    }

    /// The frames of the region, lowest first.
    pub open spec fn frames(self) -> Seq<int> {
        Seq::new(self.frame_count(), |i: int| self.first_frame() + i * 4096)
    }

    /// Whether the frame at `frame` lies wholly inside this usable region.
    pub open spec fn holds_frame(self, frame: int) -> bool {
        &&& self.kind == RegionKind::Usable
        &&& self.start <= frame
        &&& frame + 4096 <= self.end()
    }
}

/// Every frame that the memory map offers, in the order in which the cursor
/// reaches them: region after region, lowest address first.
pub open spec fn usable_frames(map: Seq<MemoryRegion>) -> Seq<int>
    decreases map.len(),
{
    if map.len() == 0 {
        Seq::empty()
    } else {
        usable_frames(map.drop_last()) + map.last().frames()
    }
}

/// A memory map is valid when every region ends inside the address space and
/// the regions are ordered by address without overlap.
pub open spec fn valid_memory_map(map: Seq<MemoryRegion>) -> bool {
    &&& forall|i: int| 0 <= i < map.len() ==> (#[trigger] map[i]).end() <= u64::MAX
    &&& forall|i: int, j: int|
        0 <= i < j < map.len() ==> (#[trigger] map[i]).end() <= (#[trigger] map[j]).start
}

/// Why a memory map was turned down.
#[derive(Clone, Copy, Debug, PartialEq, Eq, Structural)]
pub enum MemoryMapError {
    /// A region's end lies beyond the last address.
    RegionOverflow,
    /// A region starts before its predecessor ends.
    Unordered,
}

/// Why the allocator could not do what was asked.
#[derive(Clone, Copy, Debug, PartialEq, Eq, Structural)]
pub enum FrameError {
    /// No frame is left, neither ahead of the cursor nor handed back.
    OutOfMemory,
    /// The frame handed back is not one that is currently issued.
    NotIssued,
}

/// The lowest index at which `map` breaks `valid_memory_map`, read as the
/// reason to refuse it.
pub open spec fn memory_map_defect(map: Seq<MemoryRegion>, at: int) -> Option<MemoryMapError> {
    if map[at].end() > u64::MAX {
        Some(MemoryMapError::RegionOverflow)
    } else if at > 0 && map[at - 1].end() > map[at].start {
        Some(MemoryMapError::Unordered)
    } else {
        None
    }
}

/// Checks a memory map: every region must fit in the address space and start
/// no earlier than its predecessor ends. The error is that of the first
/// region at fault.
pub fn check_memory_map(map: &Vec<MemoryRegion>) -> (r: Result<(), MemoryMapError>)
    ensures
        r is Ok <==> valid_memory_map(map@),
        r matches Err(e) ==> exists|at: int|
            0 <= at < map.len() && memory_map_defect(map@, at) == Some(e) && forall|k: int|
                0 <= k < at ==> memory_map_defect(map@, k) is None,
{
    let mut i: usize = 0;
    while i < map.len()
        invariant
            i <= map.len(),
            forall|k: int| 0 <= k < i ==> memory_map_defect(map@, k) is None,
            valid_memory_map(map@.take(i as int)),
        decreases map.len() - i,
    {
        let region = &map[i];
        if region.length > u64::MAX - region.start {
            assert(memory_map_defect(map@, i as int) == Some(MemoryMapError::RegionOverflow));
            return Err(MemoryMapError::RegionOverflow);
        }
        if i > 0 {
            let prev = &map[i - 1];
            assert(memory_map_defect(map@, i - 1) is None);
            if prev.start + prev.length > region.start {
                assert(memory_map_defect(map@, i as int) == Some(MemoryMapError::Unordered));
                return Err(MemoryMapError::Unordered);
            }
        }
        proof {
            let before = map@.take(i as int);
            let after = map@.take(i + 1);
            assert forall|a: int, b: int| 0 <= a < b < after.len() implies (#[trigger] after[a]).end()
                <= (#[trigger] after[b]).start by {
                if b < i {
                    assert(before[a].end() <= before[b].start);
                } else if a + 1 < i {
                    assert(before[a].end() <= before[i - 1].start);
                }
            }
        }
        i += 1;
    }
    assert(map@.take(i as int) == map@);
    Ok(())
}


/// Number of frames that the regions before `region` offer.
pub open spec fn frames_before(map: Seq<MemoryRegion>, region: int) -> nat {
    usable_frames(map.take(region)).len()
}

/// The frames up to a region are followed by that region's own frames.
pub proof fn lemma_frames_step(map: Seq<MemoryRegion>, region: int)
    requires
        0 <= region < map.len(),
    ensures
        usable_frames(map.take(region + 1)) == usable_frames(map.take(region))
            + map[region].frames(),
        frames_before(map, region + 1) == frames_before(map, region) + map[region].frame_count(),
{
    assert(map.take(region + 1).drop_last() == map.take(region));
}

/// The frames of the first `region` regions open the sequence of all frames.
pub proof fn lemma_frames_prefix(map: Seq<MemoryRegion>, region: int)
    requires
        0 <= region <= map.len(),
    ensures
        frames_before(map, region) <= usable_frames(map).len(),
        forall|i: int|
            0 <= i < frames_before(map, region) ==> usable_frames(map.take(region))[i]
                == usable_frames(map)[i],
    decreases map.len() - region,
{
    if region == map.len() {
        assert(map.take(region) == map);
    } else {
        lemma_frames_step(map, region);
        lemma_frames_prefix(map, region + 1);
    }
}

/// The number of frames before a region grows with the region.
pub proof fn lemma_frames_before_monotonic(map: Seq<MemoryRegion>, a: int, b: int)
    requires
        0 <= a <= b <= map.len(),
    ensures
        frames_before(map, a) <= frames_before(map, b),
    decreases b - a,
{
    if a < b {
        lemma_frames_step(map, b - 1);
        lemma_frames_before_monotonic(map, a, b - 1);
    }
}

/// Frame `k` of region `region` stands at place `frames_before + k`.
pub proof fn lemma_frame_at(map: Seq<MemoryRegion>, region: int, k: int)
    requires
        0 <= region < map.len(),
        0 <= k < map[region].frame_count(),
    ensures
        frames_before(map, region) + k < usable_frames(map).len(),
        usable_frames(map)[frames_before(map, region) + k] == map[region].first_frame() + k
            * 4096,
{
    lemma_frames_step(map, region);
    lemma_frames_prefix(map, region + 1);
    let upto = usable_frames(map.take(region + 1));
    assert(upto[frames_before(map, region) + k] == map[region].frames()[k]);
}

/// The region and the place inside it of the frame at place `i`.
pub open spec fn locate(map: Seq<MemoryRegion>, i: int) -> (int, int)
    decreases map.len(),
{
    if map.len() == 0 {
        (0, 0)
    } else if i >= usable_frames(map.drop_last()).len() {
        (map.len() - 1, i - usable_frames(map.drop_last()).len())
    } else {
        locate(map.drop_last(), i)
    }
}

/// `locate` finds, for every place, the region and the offset that
/// `lemma_frame_at` would map back to it.
pub proof fn lemma_locate(map: Seq<MemoryRegion>, i: int)
    requires
        0 <= i < usable_frames(map).len(),
    ensures
        0 <= locate(map, i).0 < map.len(),
        0 <= locate(map, i).1 < map[locate(map, i).0].frame_count(),
        i == frames_before(map, locate(map, i).0) + locate(map, i).1,
        usable_frames(map)[i] == map[locate(map, i).0].first_frame() + locate(map, i).1 * 4096,
    decreases map.len(),
{
    let shorter = map.drop_last();
    if i >= usable_frames(shorter).len() {
        assert(map.take(map.len() - 1) == shorter);
    } else {
        lemma_locate(shorter, i);
        let r = locate(shorter, i).0;
        assert(shorter.take(r) == map.take(r));
    }
}

/// Every offered frame is aligned and lies wholly inside a usable region of
/// the map.
pub proof fn lemma_frame_is_usable(map: Seq<MemoryRegion>, i: int)
    requires
        0 <= i < usable_frames(map).len(),
    ensures
        usable_frames(map)[i] % 4096 == 0,
        0 <= locate(map, i).0 < map.len(),
        map[locate(map, i).0].holds_frame(usable_frames(map)[i]),
{
    lemma_locate(map, i);
    let region = map[locate(map, i).0];
    let k = locate(map, i).1;
    assert(region.first_frame() + k * 4096 + 4096 <= region.end()) by {
        assert(k + 1 <= (region.end() - region.first_frame()) / 4096);
    }
}

/// In a valid map the frames come in strictly rising order, so no frame is
/// offered twice.
pub proof fn lemma_frames_increasing(map: Seq<MemoryRegion>, i: int, j: int)
    requires
        valid_memory_map(map),
        0 <= i < j < usable_frames(map).len(),
    ensures
        usable_frames(map)[i] < usable_frames(map)[j],
{
    lemma_locate(map, i);
    lemma_locate(map, j);
    lemma_frame_is_usable(map, i);
    let (ri, ki) = locate(map, i);
    let (rj, kj) = locate(map, j);
    if ri > rj {
        lemma_frames_before_monotonic(map, rj + 1, ri);
        lemma_frames_step(map, rj);
    } else if ri < rj {
        assert(map[ri].end() <= map[rj].start);
    }
}

/// What the allocator stands for: the memory map, how many of its frames the
/// cursor has passed, and the frames handed back and not yet reused.
pub struct AllocatorView {
    /// The physical memory map that the allocator was made from.
    pub map: Seq<MemoryRegion>,
    /// Number of frames of `usable_frames(map)` that the cursor has passed.
    pub cursor: nat,
    /// Frames handed back, oldest first.
    pub released: Seq<int>,
}

impl AllocatorView {
    /// Every frame that the map offers, in cursor order.
    pub open spec fn frames(self) -> Seq<int> {
        usable_frames(self.map)
    }

    /// Whether the cursor has passed `frame`.
    pub open spec fn handed_out(self, frame: int) -> bool {
        exists|i: int| 0 <= i < self.cursor && #[trigger] self.frames()[i] == frame
    }

    /// Whether `frame` is in use: handed out and not handed back since.
    pub open spec fn is_issued(self, frame: int) -> bool {
        self.handed_out(frame) && !self.released.contains(frame)
    }

    /// The invariant of the model.
    pub open spec fn wf(self) -> bool {
        &&& valid_memory_map(self.map)
        &&& self.cursor <= self.frames().len()
        &&& forall|k: int|
            0 <= k < self.released.len() ==> self.handed_out(#[trigger] self.released[k])
        &&& self.released.no_duplicates()
    }

    /// The frame that the next allocation returns, if any is left: the one
    /// handed back last, else the one under the cursor.
    pub open spec fn next_frame(self) -> Option<int> {
        if self.released.len() > 0 {
            Some(self.released.last())
        } else if self.cursor < self.frames().len() {
            Some(self.frames()[self.cursor as int])
        } else {
            None
        }
    }

    /// The state after an allocation.
    pub open spec fn after_allocate(self) -> AllocatorView {
        if self.released.len() > 0 {
            AllocatorView { released: self.released.drop_last(), ..self }
        } else if self.cursor < self.frames().len() {
            AllocatorView { cursor: self.cursor + 1, ..self }
        } else {
            self
        }
    }

    /// How many allocations can still succeed.
    pub open spec fn available(self) -> int {
        self.released.len() + self.frames().len() - self.cursor
    }

    /// The state after `frame` was handed back.
    pub open spec fn after_release(self, frame: int) -> AllocatorView {
        AllocatorView { released: self.released.push(frame), ..self }
    }
}

/// A forward-cursor allocator of physical frames.
pub struct FrameAllocator {
    regions: Vec<MemoryRegion>,
    region: usize,
    index: u64,
    released: Vec<u64>,
}

/// Number of whole frames of a region.
fn region_frame_count(region: &MemoryRegion) -> (n: u64)
    requires
        region.end() <= u64::MAX,
    ensures
        n == region.frame_count(),
        n > 0 ==> region.first_frame() == region.start + (if region.start % 4096 == 0 {
            0int
        } else {
            4096 - region.start % 4096
        }),
{
    match region.kind {
        RegionKind::Reserved => 0,
        RegionKind::Usable => {
            let rem: u64 = region.start % 4096;
            let pad: u64 = if rem == 0 {
                0
            } else {
                4096 - rem
            };
            assert(region.first_frame() == region.start + pad);
            if region.length < pad || region.length - pad < 4096 {
                0
            } else {
                (region.length - pad) / 4096
            }
        },
    }
}

impl View for FrameAllocator {
    type V = AllocatorView;

    closed spec fn view(&self) -> AllocatorView {
        AllocatorView {
            map: self.regions@,
            cursor: (frames_before(self.regions@, self.region as int) + self.index) as nat,
            released: self.released@.map_values(|f: u64| f as int),
        }
    }
}

impl FrameAllocator {
    /// The invariant of the allocator: that of its model, and a cursor that
    /// stands inside the map.
    pub open spec fn wf(&self) -> bool {
        self@.wf() && self.cursor_in_map()
    }

    /// Whether the cursor stands at a frame of a region of the map, or
    /// behind the last region.
    pub closed spec fn cursor_in_map(&self) -> bool {
        &&& self.region <= self.regions.len()
        &&& self.region < self.regions.len() ==> self.index
            <= self.regions[self.region as int].frame_count()
        &&& self.region == self.regions.len() ==> self.index == 0
    }

    /// Makes an allocator over `map` with the cursor before its first frame.
    /// A map with a region that overflows the address space, or whose
    /// regions are not in rising order without overlap, is refused.
    pub fn new(map: Vec<MemoryRegion>) -> (r: Result<FrameAllocator, MemoryMapError>)
        ensures
            r is Ok <==> valid_memory_map(map@),
            r matches Ok(a) ==> a.wf() && a@ == (AllocatorView {
                map: map@,
                cursor: 0,
                released: Seq::empty(),
            }),
            r matches Err(e) ==> exists|at: int|
                0 <= at < map.len() && memory_map_defect(map@, at) == Some(e) && forall|k: int|
                    0 <= k < at ==> memory_map_defect(map@, k) is None,
    {
        match check_memory_map(&map) {
            Err(e) => Err(e),
            Ok(()) => {
                let a = FrameAllocator { regions: map, region: 0, index: 0, released: Vec::new() };
                proof {
                    assert(a.regions@.take(0) == Seq::<MemoryRegion>::empty());
                    assert(a@.released == Seq::<int>::empty());
                }
                Ok(a)
            },
        }
    }

    /// Hands out one unused frame: the one handed back last if there is one,
    /// else the next frame ahead of the cursor. Fails with `OutOfMemory`
    /// exactly when neither exists.
    pub fn allocate_frame(&mut self) -> (r: Result<u64, FrameError>)
        requires
            old(self).wf(),
        ensures
            final(self).wf(),
            final(self)@ == old(self)@.after_allocate(),
            match r {
                Ok(frame) => old(self)@.next_frame() == Some(frame as int),
                Err(e) => e == FrameError::OutOfMemory && old(self)@.next_frame() is None,
            },
    {
        if self.released.len() > 0 {
            let frame = self.released.pop().unwrap();
            proof {
                assert(self@.released == old(self)@.released.drop_last());
                law_allocated_frame_is_usable_and_unused(old(self)@, frame as int);
            }
            return Ok(frame);
        }
        assert(self@.released == Seq::<int>::empty());
        while self.region < self.regions.len()
            invariant
                self.wf(),
                self@ == old(self)@,
                self.released.len() == 0,
            decreases self.regions.len() - self.region,
        {
            let region = self.regions[self.region];
            let count = region_frame_count(&region);
            proof {
                lemma_frames_step(self.regions@, self.region as int);
            }
            if self.index < count {
                proof {
                    lemma_frame_at(self.regions@, self.region as int, self.index as int);
                    assert(region.first_frame() + self.index * 4096 + 4096 <= region.end()) by {
                        assert(self.index + 1 <= (region.end() - region.first_frame()) / 4096);
                    }
                }
                let rem: u64 = region.start % 4096;
                let pad: u64 = if rem == 0 {
                    0
                } else {
                    4096 - rem
                };
                let frame: u64 = region.start + pad + self.index * 4096;
                self.index = self.index + 1;
                proof {
                    assert(self@.released == old(self)@.released);
                    law_allocated_frame_is_usable_and_unused(old(self)@, frame as int);
                }
                return Ok(frame);
            }
            self.region = self.region + 1;
            self.index = 0;
        }
        proof {
            assert(self.regions@.take(self.region as int) == self.regions@);
        }
        Err(FrameError::OutOfMemory)
    }

    /// Whether `count` allocations in a row would all succeed.
    pub fn can_allocate(&self, count: usize) -> (b: bool)
        requires
            self.wf(),
        ensures
            b == (self@.available() >= count),
    {
        let mut have: usize = self.released.len();
        if have >= count {
            return true;
        }
        let mut r: usize = self.region;
        while r < self.regions.len()
            invariant
                self.wf(),
                self.region <= r <= self.regions.len(),
                have < count,
                have + self@.cursor == self.released.len() + frames_before(self.regions@, r as int)
                    + (if r == self.region {
                    self.index as int
                } else {
                    0
                }),
            decreases self.regions.len() - r,
        {
            let region = self.regions[r];
            let total = region_frame_count(&region);
            let skip: u64 = if r == self.region {
                self.index
            } else {
                0
            };
            let rest: u64 = total - skip;
            proof {
                lemma_frames_step(self.regions@, r as int);
                lemma_frames_prefix(self.regions@, r + 1);
            }
            if rest >= (count - have) as u64 {
                return true;
            }
            have = have + rest as usize;
            r += 1;
        }
        proof {
            assert(self.regions@.take(r as int) == self.regions@);
        }
        false
    }

    /// How many frames of region `r` the cursor has passed.
    closed spec fn passed(&self, r: int) -> int {
        if r < self.region {
            self.regions[r].frame_count() as int
        } else if r == self.region && r < self.regions.len() {
            self.index as int
        } else {
            0
        }
    }

    /// Whether the cursor has passed `frame`, whether or not it came back.
    fn was_handed_out(&self, frame: u64) -> (b: bool)
        requires
            self.wf(),
        ensures
            b == self@.handed_out(frame as int),
    {
        let mut r: usize = 0;
        while r < self.regions.len() && r <= self.region
            invariant
                self.wf(),
                r <= self.regions.len(),
                forall|q: int| 0 <= q < r ==> !region_offers(self.regions[q], self.passed(q), frame as int),
            decreases self.regions.len() - r,
        {
            let region = self.regions[r];
            let count = region_frame_count(&region);
            let limit: u64 = if r < self.region {
                count
            } else {
                self.index
            };
            if limit > 0 {
                let rem: u64 = region.start % 4096;
                let pad: u64 = if rem == 0 {
                    0
                } else {
                    4096 - rem
                };
                assert(region.first_frame() + 4096 <= region.end());
                let first: u64 = region.start + pad;
                if frame >= first && (frame - first) % 4096 == 0 && (frame - first) / 4096 < limit {
                    proof {
                        let k = (frame - first) / 4096;
                        lemma_frame_at(self.regions@, r as int, k);
                        lemma_frames_step(self.regions@, r as int);
                        if r < self.region {
                            lemma_frames_before_monotonic(self.regions@, r + 1, self.region as int);
                        }
                        let i = frames_before(self.regions@, r as int) + k;
                        assert(self@.frames()[i] == frame as int);
                    }
                    return true;
                }
            }
            r += 1;
        }
        proof {
            if self@.handed_out(frame as int) {
                let i = choose|i: int| 0 <= i < self@.cursor && #[trigger] self@.frames()[i] == frame as int;
                let map = self.regions@;
                lemma_locate(map, i);
                let (ri, ki) = locate(map, i);
                if ri > self.region {
                    lemma_frames_step(map, self.region as int);
                    lemma_frames_before_monotonic(map, self.region + 1, ri);
                }
                assert(region_offers(self.regions[ri], self.passed(ri), frame as int));
            }
        }
        false
    }

    /// Whether `frame` was handed back and not reused since.
    fn is_released(&self, frame: u64) -> (b: bool)
        ensures
            b == self@.released.contains(frame as int),
    {
        let mut i: usize = 0;
        while i < self.released.len()
            invariant
                i <= self.released.len(),
                forall|k: int| 0 <= k < i ==> self.released[k] != frame,
            decreases self.released.len() - i,
        {
            if self.released[i] == frame {
                assert(self@.released[i as int] == frame as int);
                return true;
            }
            i += 1;
        }
        false
    }

    /// Whether `frame` is in use: handed out and not handed back since.
    pub fn is_issued(&self, frame: u64) -> (b: bool)
        requires
            self.wf(),
        ensures
            b == self@.is_issued(frame as int),
    {
        self.was_handed_out(frame) && !self.is_released(frame)
    }

    /// Takes back a frame that is in use, so that a later allocation may
    /// hand it out again. A frame that is not in use is refused with
    /// `NotIssued`, and nothing changes.
    pub fn deallocate_frame(&mut self, frame: u64) -> (r: Result<(), FrameError>)
        requires
            old(self).wf(),
        ensures
            final(self).wf(),
            r is Ok <==> old(self)@.is_issued(frame as int),
            r is Ok ==> final(self)@ == old(self)@.after_release(frame as int),
            r matches Err(e) ==> e == FrameError::NotIssued && final(self)@ == old(self)@,
    {
        if !self.is_issued(frame) {
            return Err(FrameError::NotIssued);
        }
        self.released.push(frame);
        proof {
            let before = old(self)@;
            let after = self@;
            assert(after.released == before.released.push(frame as int));
            law_release_frees_only_that_frame(before, frame as int);
        }
        Ok(())
    }
}

/// Whether `frame` is one of the first `limit` frames of `region`.
pub open spec fn region_offers(region: MemoryRegion, limit: int, frame: int) -> bool {
    &&& region.first_frame() <= frame
    &&& (frame - region.first_frame()) % 4096 == 0
    &&& (frame - region.first_frame()) / 4096 < limit
}

/// What the cursor has passed stays passed while the map stays and the
/// cursor does not go back.
pub proof fn lemma_handed_out_stays(a: AllocatorView, b: AllocatorView, frame: int)
    requires
        a.map == b.map,
        a.cursor <= b.cursor,
        a.handed_out(frame),
    ensures
        b.handed_out(frame),
{
    let i = choose|i: int| 0 <= i < a.cursor && #[trigger] a.frames()[i] == frame;
    assert(b.frames()[i] == frame);
}

/// A frame that an allocation returns is frame-aligned, lies wholly inside a
/// region that the memory map marks usable, and was not in use; afterwards it
/// is in use, and no other frame changed hands.
pub proof fn law_allocated_frame_is_usable_and_unused(v: AllocatorView, frame: int)
    requires
        v.wf(),
        v.next_frame() == Some(frame),
    ensures
        frame % 4096 == 0,
        exists|r: int| 0 <= r < v.map.len() && #[trigger] v.map[r].holds_frame(frame),
        !v.is_issued(frame),
        v.after_allocate().wf(),
        v.after_allocate().is_issued(frame),
        forall|other: int|
            other != frame ==> (v.after_allocate().is_issued(other) <==> v.is_issued(other)),
{
    let after = v.after_allocate();
    if v.released.len() > 0 {
        let last = v.released.len() - 1;
        assert(v.released[last] == frame);
        assert(v.handed_out(v.released[last]));
        let i = choose|i: int| 0 <= i < v.cursor && #[trigger] v.frames()[i] == frame;
        lemma_frame_is_usable(v.map, i);
        assert(v.map[locate(v.map, i).0].holds_frame(frame));
        assert(after.released == v.released.take(last));
        lemma_handed_out_stays(v, after, frame);
        assert forall|k: int| 0 <= k < after.released.len() implies after.handed_out(
            #[trigger] after.released[k],
        ) by {
            assert(v.handed_out(v.released[k]));
            lemma_handed_out_stays(v, after, v.released[k]);
        }
        assert(!after.released.contains(frame)) by {
            if after.released.contains(frame) {
                let k = choose|k: int| 0 <= k < after.released.len() && after.released[k] == frame;
                assert(v.released[k] == v.released[last]);
            }
        }
        assert forall|other: int| other != frame implies (after.is_issued(other) <==> v.is_issued(
            other,
        )) by {
            if v.handed_out(other) {
                lemma_handed_out_stays(v, after, other);
            }
            if after.handed_out(other) {
                lemma_handed_out_stays(after, v, other);
            }
            if v.released.contains(other) {
                let k = choose|k: int| 0 <= k < v.released.len() && v.released[k] == other;
                assert(after.released[k] == other);
            }
            if after.released.contains(other) {
                let k = choose|k: int| 0 <= k < after.released.len() && after.released[k] == other;
                assert(v.released[k] == other);
            }
        }
    } else {
        let c = v.cursor as int;
        lemma_frame_is_usable(v.map, c);
        assert(v.map[locate(v.map, c).0].holds_frame(frame));
        assert(!v.handed_out(frame)) by {
            if v.handed_out(frame) {
                let i = choose|i: int| 0 <= i < v.cursor && #[trigger] v.frames()[i] == frame;
                lemma_frames_increasing(v.map, i, c);
            }
        }
        assert(after.frames()[c] == frame);
        assert(after.handed_out(frame));
        assert(after.released == v.released);
        assert forall|other: int| other != frame implies (after.handed_out(other) <==> v.handed_out(
            other,
        )) by {
            if after.handed_out(other) {
                let i = choose|i: int| 0 <= i < after.cursor && #[trigger] after.frames()[i] == other;
                assert(v.frames()[i] == other);
            }
            if v.handed_out(other) {
                let i = choose|i: int| 0 <= i < v.cursor && #[trigger] v.frames()[i] == other;
                assert(after.frames()[i] == other);
            }
        }
    }
}

/// Handing back a frame that is in use frees that frame and no other.
pub proof fn law_release_frees_only_that_frame(v: AllocatorView, frame: int)
    requires
        v.wf(),
        v.is_issued(frame),
    ensures
        v.after_release(frame).wf(),
        !v.after_release(frame).is_issued(frame),
        forall|other: int|
            other != frame ==> (v.after_release(frame).is_issued(other) <==> v.is_issued(other)),
{
    let after = v.after_release(frame);
    let n = v.released.len() as int;
    assert(after.released[n] == frame);
    assert forall|k: int| 0 <= k < after.released.len() implies after.handed_out(
        #[trigger] after.released[k],
    ) by {
        if k < n {
            assert(v.handed_out(v.released[k]));
            let i = choose|i: int| 0 <= i < v.cursor && #[trigger] v.frames()[i] == v.released[k];
            assert(after.frames()[i] == after.released[k]);
        } else {
            let i = choose|i: int| 0 <= i < v.cursor && #[trigger] v.frames()[i] == frame;
            assert(after.frames()[i] == after.released[k]);
        }
    }
    assert forall|a: int, b: int| 0 <= a < b < after.released.len() implies after.released[a]
        != after.released[b] by {
        if b == n {
            assert(v.released[a] == after.released[a]);
        } else {
            assert(v.released[a] != v.released[b]);
        }
    }
    assert forall|other: int| other != frame implies (after.is_issued(other) <==> v.is_issued(
        other,
    )) by {
        if after.released.contains(other) {
            let k = choose|k: int| 0 <= k < after.released.len() && after.released[k] == other;
            assert(v.released[k] == other);
        }
        if v.released.contains(other) {
            let k = choose|k: int| 0 <= k < v.released.len() && v.released[k] == other;
            assert(after.released[k] == other);
        }
    }
}

/// One request made of the allocator.
pub enum FrameRequest {
    /// Ask for a frame.
    Allocate,
    /// Hand the frame at this address back.
    Release(int),
}

/// The state after one request. Handing back a frame that is not in use
/// changes nothing.
pub open spec fn after_request(v: AllocatorView, request: FrameRequest) -> AllocatorView {
    match request {
        FrameRequest::Allocate => v.after_allocate(),
        FrameRequest::Release(frame) => if v.is_issued(frame) {
            v.after_release(frame)
        } else {
            v
        },
    }
}

/// The state after a run of requests, earliest first.
pub open spec fn after_requests(v: AllocatorView, requests: Seq<FrameRequest>) -> AllocatorView
    decreases requests.len(),
{
    if requests.len() == 0 {
        v
    } else {
        after_request(after_requests(v, requests.drop_last()), requests.last())
    }
}

/// The frame that request `i` of the run obtains, if it is an allocation
/// that succeeds.
pub open spec fn frame_obtained(v: AllocatorView, requests: Seq<FrameRequest>, i: int) -> Option<
    int,
> {
    if requests[i] is Allocate {
        after_requests(v, requests.take(i)).next_frame()
    } else {
        None
    }
}

/// Requests keep the model well-formed.
pub proof fn lemma_requests_keep_wf(v: AllocatorView, requests: Seq<FrameRequest>)
    requires
        v.wf(),
    ensures
        after_requests(v, requests).wf(),
    decreases requests.len(),
{
    if requests.len() > 0 {
        lemma_requests_keep_wf(v, requests.drop_last());
        let before = after_requests(v, requests.drop_last());
        match requests.last() {
            FrameRequest::Allocate => {
                if before.next_frame() is Some {
                    law_allocated_frame_is_usable_and_unused(before, before.next_frame().unwrap());
                }
            },
            FrameRequest::Release(frame) => {
                if before.is_issued(frame) {
                    law_release_frees_only_that_frame(before, frame);
                }
            },
        }
    }
}

/// A frame obtained by request `i` stays in use up to request `upto` if no
/// request in between hands it back.
proof fn lemma_stays_issued(
    v: AllocatorView,
    requests: Seq<FrameRequest>,
    i: int,
    upto: int,
    frame: int,
)
    requires
        v.wf(),
        0 <= i < upto <= requests.len(),
        frame_obtained(v, requests, i) == Some(frame),
        forall|k: int| i < k < upto ==> requests[k] != FrameRequest::Release(frame),
    ensures
        after_requests(v, requests.take(upto)).is_issued(frame),
    decreases upto - i,
{
    let before = after_requests(v, requests.take(upto - 1));
    assert(requests.take(upto).drop_last() == requests.take(upto - 1));
    lemma_requests_keep_wf(v, requests.take(upto - 1));
    if upto == i + 1 {
        law_allocated_frame_is_usable_and_unused(before, frame);
    } else {
        lemma_stays_issued(v, requests, i, upto - 1, frame);
        match requests[upto - 1] {
            FrameRequest::Allocate => {
                if before.next_frame() is Some {
                    law_allocated_frame_is_usable_and_unused(before, before.next_frame().unwrap());
                }
            },
            FrameRequest::Release(other) => {
                if before.is_issued(other) {
                    law_release_frees_only_that_frame(before, other);
                }
            },
        }
    }
}

/// In any run of requests, two allocations obtain the same frame only if a
/// request between them handed that frame back.
pub proof fn law_no_frame_issued_twice(
    v: AllocatorView,
    requests: Seq<FrameRequest>,
    i: int,
    j: int,
    frame: int,
)
    requires
        v.wf(),
        0 <= i < j < requests.len(),
        frame_obtained(v, requests, i) == Some(frame),
        frame_obtained(v, requests, j) == Some(frame),
    ensures
        exists|k: int| i < k < j && requests[k] == FrameRequest::Release(frame),
{
    if forall|k: int| i < k < j ==> requests[k] != FrameRequest::Release(frame) {
        lemma_stays_issued(v, requests, i, j, frame);
        let before = after_requests(v, requests.take(j));
        lemma_requests_keep_wf(v, requests.take(j));
        law_allocated_frame_is_usable_and_unused(before, frame);
    }
}

/// The state after `count` allocations in a row.
pub open spec fn after_allocations(v: AllocatorView, count: nat) -> AllocatorView
    decreases count,
{
    if count == 0 {
        v
    } else {
        after_allocations(v, (count - 1) as nat).after_allocate()
    }
}

/// An allocation succeeds exactly when something is available, and then one
/// frame fewer is.
pub proof fn law_allocation_uses_one_frame(v: AllocatorView)
    requires
        v.wf(),
    ensures
        v.next_frame() is Some <==> v.available() > 0,
        v.after_allocate().wf(),
        v.available() > 0 ==> v.after_allocate().available() == v.available() - 1,
        v.available() == 0 ==> v.after_allocate() == v,
        v.after_allocate().map == v.map,
{
    if v.next_frame() is Some {
        law_allocated_frame_is_usable_and_unused(v, v.next_frame().unwrap());
    }
}

/// One allocation after some allocations is one allocation more.
pub proof fn lemma_allocations_step(v: AllocatorView, count: nat)
    requires
        v.wf(),
    ensures
        after_allocations(v, count).wf(),
        after_allocations(v, count + 1) == after_allocations(v, count).after_allocate(),
        count <= v.available() ==> after_allocations(v, count).available() == v.available()
            - count,
    decreases count,
{
    if count > 0 {
        lemma_allocations_step(v, (count - 1) as nat);
        law_allocation_uses_one_frame(after_allocations(v, (count - 1) as nat));
    }
}

/// Allocations take no frame away from whoever holds it: a frame that is in
/// use stays in use however many allocations follow.
pub proof fn law_allocations_keep_issued_frames(v: AllocatorView, count: nat, frame: int)
    requires
        v.wf(),
        v.is_issued(frame),
    ensures
        after_allocations(v, count).wf(),
        after_allocations(v, count).is_issued(frame),
        after_allocations(v, count).map == v.map,
    decreases count,
{
    if count > 0 {
        law_allocations_keep_issued_frames(v, (count - 1) as nat, frame);
        let before = after_allocations(v, (count - 1) as nat);
        law_allocation_uses_one_frame(before);
        if before.next_frame() is Some {
            law_allocated_frame_is_usable_and_unused(before, before.next_frame().unwrap());
        }
    }
}

} // verus!
