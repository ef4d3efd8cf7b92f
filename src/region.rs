use vstd::prelude::*;

use crate::layout::{
    all_aligned, all_within, pairwise_disjoint, FlashLayout, RamLayout, Section, SectionFlags, FLASH_SIZE, RAM_END_ADDRESS,
    RAM_START_ADDRESS,
};

verus! {

/// Size of one flash protection region: 32 KiB.
pub const FLASH_REGION_SIZE: usize = 0x8000;

/// Size of one RAM protection region: 8 KiB.
pub const RAM_REGION_SIZE: usize = 0x2000;

/// Number of flash protection regions, covering all of flash.
pub const FLASH_REGION_COUNT: usize = 32;

/// Number of RAM protection regions, covering all of RAM.
pub const RAM_REGION_COUNT: usize = 32;

/// Index of the first region a section governs, in a window that starts at
/// `base` and is cut into regions of `region_size` bytes.
pub open spec fn start_region(s: Section, base: int, region_size: int) -> int {
    (s.address - base) / region_size
}

/// One past the index of the last region a section governs.
pub open spec fn end_region(s: Section, base: int, region_size: int) -> int {
    start_region(s, base, region_size) + (s.size as int) / region_size
}

/// Region `n` is one of those a section governs.
pub open spec fn covers(s: Section, base: int, region_size: int, n: int) -> bool {
    start_region(s, base, region_size) <= n < end_region(s, base, region_size)
}

/// What programming the sections `s` does to the regions `before`, giving
/// `after`: a locked region keeps its permissions; an unlocked region that a
/// section governs is locked with that section's permissions; any other
/// region stays unlocked.
pub open spec fn programmed(
    before: Seq<Option<SectionFlags>>,
    after: Seq<Option<SectionFlags>>,
    s: Seq<Section>,
    base: int,
    region_size: int,
) -> bool {
    &&& after.len() == before.len()
    &&& forall|n: int| 0 <= n < before.len() && before[n] is Some ==> after[n] == before[n]
    &&& forall|n: int, i: int|
        #![trigger s[i], after[n]]
        0 <= n < before.len() && before[n] is None && 0 <= i < s.len() && covers(s[i], base, region_size, n)
            ==> after[n] == Some(s[i].permissions)
    &&& forall|n: int|
        0 <= n < before.len() && before[n] is None && (forall|i: int|
            0 <= i < s.len() ==> !#[trigger] covers(s[i], base, region_size, n)) ==> after[n] is None
}

/// `x / d + y / d <= (x + y) / d` for non-negative `x`, `y`.
proof fn lemma_div_sum_le(x: int, y: int, d: int)
    requires
        0 <= x,
        0 <= y,
        0 < d,
    ensures
        x / d + y / d <= (x + y) / d,
{
    let qx = x / d;
    let qy = y / d;
    let q = (x + y) / d;
    assert(d * qx <= x) by (nonlinear_arith)
        requires qx == x / d, 0 < d;
    assert(d * qy <= y) by (nonlinear_arith)
        requires qy == y / d, 0 < d;
    assert(x + y < d * (q + 1)) by (nonlinear_arith)
        requires q == (x + y) / d, 0 < d;
    assert(qx + qy <= q) by (nonlinear_arith)
        requires d * qx <= x, d * qy <= y, x + y < d * (q + 1), 0 < d;
}

/// The regions of a section in a window stay within the window's region count.
pub proof fn lemma_regions_in_range(s: Section, base: int, window_end: int, region_size: int)
    requires
        0 < region_size,
        s.lies_within(base, window_end),
    ensures
        0 <= start_region(s, base, region_size),
        end_region(s, base, region_size) <= (window_end - base) / region_size,
{
    lemma_div_sum_le(s.address - base, s.size as int, region_size);
    vstd::arithmetic::div_mod::lemma_div_is_ordered(s.end() - base, window_end - base, region_size);
    vstd::arithmetic::div_mod::lemma_div_pos_is_pos(s.address - base, region_size);
}

/// Sections that do not overlap govern disjoint ranges of regions, aligned
/// or not.
pub proof fn lemma_region_ranges_disjoint(a: Section, b: Section, base: int, region_size: int, n: int)
    requires
        0 < region_size,
        base <= a.address,
        base <= b.address,
        !a.overlaps(b),
    ensures
        !(covers(a, base, region_size, n) && covers(b, base, region_size, n)),
{
    if b.address >= a.end() {
        lemma_div_sum_le(a.address - base, a.size as int, region_size);
        vstd::arithmetic::div_mod::lemma_div_is_ordered(a.end() - base, b.address - base, region_size);
    } else {
        lemma_div_sum_le(b.address - base, b.size as int, region_size);
        vstd::arithmetic::div_mod::lemma_div_is_ordered(b.end() - base, a.address - base, region_size);
    }
}

/// For a region-aligned section whose size is a whole number of regions,
/// the regions it governs cover exactly its bytes: their count is
/// `size / region_size`, the first starts at the section's address and the
/// last ends at the section's end.
pub proof fn lemma_aligned_regions_exact(s: Section, base: int, region_size: int)
    requires
        0 < region_size,
        base <= s.address,
        (s.address - base) % region_size == 0,
        (s.size as int) % region_size == 0,
    ensures
        end_region(s, base, region_size) - start_region(s, base, region_size) == (s.size as int) / region_size,
        base + start_region(s, base, region_size) * region_size == s.address,
        base + end_region(s, base, region_size) * region_size == s.end(),
{
    let start = start_region(s, base, region_size);
    let count = (s.size as int) / region_size;
    vstd::arithmetic::div_mod::lemma_fundamental_div_mod(s.address - base, region_size);
    vstd::arithmetic::div_mod::lemma_fundamental_div_mod(s.size as int, region_size);
    assert(start * region_size == s.address - base) by (nonlinear_arith)
        requires s.address - base == region_size * start + 0;
    assert((start + count) * region_size == s.address - base + s.size) by (nonlinear_arith)
        requires s.address - base == region_size * start, s.size == region_size * count;
}

/// Every byte of an aligned section lies in a region the section governs:
/// the region of the byte at `a` is `(a - base) / region_size`.
pub proof fn lemma_byte_region_covered(s: Section, base: int, region_size: int, a: int)
    requires
        0 < region_size,
        base <= s.address,
        s.aligned_to(base, region_size),
        s.address <= a < s.end(),
    ensures
        covers(s, base, region_size, (a - base) / region_size),
{
    lemma_aligned_regions_exact(s, base, region_size);
    let e = end_region(s, base, region_size);
    let q = (a - base) / region_size;
    vstd::arithmetic::div_mod::lemma_div_is_ordered(s.address - base, a - base, region_size);
    assert(region_size * q <= a - base) by (nonlinear_arith)
        requires q == (a - base) / region_size, 0 < region_size;
    assert(q < e) by (nonlinear_arith)
        requires region_size * q <= a - base, a - base < e * region_size, 0 < region_size;
}

/// The regions a section governs tile it exactly: the first starts at its
/// address and the last ends at its end. They lie among the `count` regions.
pub open spec fn regions_tile(s: Section, base: int, region_size: int, count: int) -> bool {
    &&& 0 <= start_region(s, base, region_size)
    &&& end_region(s, base, region_size) <= count
    &&& base + start_region(s, base, region_size) * region_size == s.address
    &&& base + end_region(s, base, region_size) * region_size == s.end()
}

/// After programming, every byte of every section lies in a region locked
/// with that section's permissions, unless the region was locked before.
pub open spec fn bytes_protected(
    before: Seq<Option<SectionFlags>>,
    after: Seq<Option<SectionFlags>>,
    s: Seq<Section>,
    base: int,
    region_size: int,
) -> bool {
    forall|i: int, a: int|
        #![trigger s[i], after[(a - base) / region_size]]
        0 <= i < s.len() && s[i].address <= a < s[i].end() && before[(a - base) / region_size] is None
            ==> after[(a - base) / region_size] == Some(s[i].permissions)
}

/// The permission registers of a memory's protection regions. An entry is
/// `None` while the region is unlocked, as after reset, and
/// `Some(permissions)` once it has been locked with those permissions.
/// Locking is one-way: a locked region ignores further writes.
pub struct ProtectionRegions {
    regions: Vec<Option<SectionFlags>>,
}

impl View for ProtectionRegions {
    type V = Seq<Option<SectionFlags>>;

    closed spec fn view(&self) -> Seq<Option<SectionFlags>> {
        self.regions@
    }
}

impl ProtectionRegions {
    /// `count` regions, all unlocked.
    pub fn new(count: usize) -> (r: ProtectionRegions)
        ensures
            r@.len() == count,
            forall|n: int| 0 <= n < count ==> #[trigger] r@[n] is None,
    {
        let mut regions: Vec<Option<SectionFlags>> = Vec::new();
        let mut i: usize = 0;
        while i < count
            invariant
                i <= count,
                regions@.len() == i,
                forall|n: int| 0 <= n < i ==> #[trigger] regions@[n] is None,
            decreases count - i,
        {
            regions.push(None);
            i = i + 1;
        }
        ProtectionRegions { regions }
    }

    /// Number of regions.
    pub fn len(&self) -> (r: usize)
        ensures
            r == self@.len(),
    {
        self.regions.len()
    }

    /// The state of region `n`.
    pub fn get(&self, n: usize) -> (r: Option<SectionFlags>)
        requires
            n < self@.len(),
        ensures
            r == self@[n as int],
    {
        self.regions[n]
    }

    /// Writes `permissions` to region `n` together with its lock bit; a
    /// region that is already locked keeps what it has.
    pub fn lock(&mut self, n: usize, permissions: SectionFlags)
        requires
            n < old(self)@.len(),
        ensures
            final(self)@ == (if old(self)@[n as int] is None {
                old(self)@.update(n as int, Some(permissions))
            } else {
                old(self)@
            }),
    {
        if self.regions[n].is_none() {
            self.regions.set(n, Some(permissions));
        }
    }
}

/// Locks, for each section in turn, every region it governs with its
/// permissions, in a window `[base, window_end)` of regions of
/// `region_size` bytes.
fn program_sections(
    regions: &mut ProtectionRegions,
    sections: &[Section],
    base: usize,
    window_end: usize,
    region_size: usize,
)
    requires
        0 < region_size,
        base <= window_end,
        old(regions)@.len() == (window_end - base) / (region_size as int),
        all_within(sections@, base as int, window_end as int),
        all_aligned(sections@, base as int, region_size as int),
        pairwise_disjoint(sections@),
    ensures
        programmed(old(regions)@, final(regions)@, sections@, base as int, region_size as int),
        forall|i: int| 0 <= i < sections@.len() ==> regions_tile(#[trigger] sections@[i], base as int, region_size as int, old(regions)@.len() as int),
        bytes_protected(old(regions)@, final(regions)@, sections@, base as int, region_size as int),
{
    let ghost before = regions@;
    let ghost s = sections@;
    let ghost b = base as int;
    let ghost rs = region_size as int;
    let mut i: usize = 0;
    while i < sections.len()
        invariant
            s == sections@,
            b == base as int,
            rs == region_size as int,
            0 < region_size,
            base <= window_end,
            before.len() == (window_end - base) / rs,
            all_within(s, b, window_end as int),
            pairwise_disjoint(s),
            i <= s.len(),
            regions@.len() == before.len(),
            forall|n: int| 0 <= n < before.len() && before[n] is Some ==> regions@[n] == before[n],
            forall|n: int, k: int|
                0 <= n < before.len() && before[n] is None && 0 <= k < i && #[trigger] covers(s[k], b, rs, n)
                    ==> #[trigger] regions@[n] == Some(s[k].permissions),
            forall|n: int|
                0 <= n < before.len() && before[n] is None && (forall|k: int|
                    0 <= k < i ==> !#[trigger] covers(s[k], b, rs, n)) ==> regions@[n] is None,
        decreases s.len() - i,
    {
        let section = sections[i];
        proof {
            assert(s[i as int].lies_within(b, window_end as int));
            lemma_regions_in_range(section, b, window_end as int, rs);
        }
        let start = (section.address - base) / region_size;
        let end = start + section.size / region_size;
        let mut n: usize = start;
        while n < end
            invariant
                s == sections@,
                b == base as int,
                rs == region_size as int,
                0 < region_size,
                pairwise_disjoint(s),
                all_within(s, b, window_end as int),
                i < s.len(),
                section == s[i as int],
                start == start_region(section, b, rs),
                end == end_region(section, b, rs),
                end <= before.len(),
                start <= n <= end,
                regions@.len() == before.len(),
                forall|m: int| 0 <= m < before.len() && before[m] is Some ==> regions@[m] == before[m],
                forall|m: int, k: int|
                    0 <= m < before.len() && before[m] is None && 0 <= k < i && #[trigger] covers(s[k], b, rs, m)
                        ==> #[trigger] regions@[m] == Some(s[k].permissions),
                forall|m: int|
                    0 <= m < before.len() && before[m] is None && start <= m < n ==> #[trigger] regions@[m] == Some(
                        section.permissions,
                    ),
                forall|m: int|
                    0 <= m < before.len() && before[m] is None && !(start <= m < n) && (forall|k: int|
                        0 <= k < i ==> !#[trigger] covers(s[k], b, rs, m)) ==> regions@[m] is None,
            decreases end - n,
        {
            proof {
                assert forall|k: int| 0 <= k < i implies !#[trigger] covers(s[k], b, rs, n as int) by {
                    assert(!s[k].overlaps(s[i as int]));
                    assert(s[k].lies_within(b, window_end as int));
                    assert(s[i as int].lies_within(b, window_end as int));
                    lemma_region_ranges_disjoint(s[k], section, b, rs, n as int);
                }
            }
            regions.lock(n, section.permissions);
            n = n + 1;
        }
        proof {
            assert forall|m: int, k: int|
                0 <= m < before.len() && before[m] is None && 0 <= k < i + 1 && #[trigger] covers(s[k], b, rs, m)
                    implies #[trigger] regions@[m] == Some(s[k].permissions) by {
                if k == i {
                    assert(start <= m < end);
                }
            }
            assert forall|m: int|
                0 <= m < before.len() && before[m] is None && (forall|k: int|
                    0 <= k < i + 1 ==> !#[trigger] covers(s[k], b, rs, m)) implies regions@[m] is None by {
                assert(!covers(s[i as int], b, rs, m));
            }
        }
        i = i + 1;
    }
    proof {
        assert forall|k: int| 0 <= k < s.len() implies regions_tile(#[trigger] s[k], b, rs, before.len() as int) by {
            assert(s[k].lies_within(b, window_end as int));
            assert(s[k].aligned_to(b, rs));
            lemma_aligned_regions_exact(s[k], b, rs);
            lemma_regions_in_range(s[k], b, window_end as int, rs);
        }
        assert forall|k: int, a: int|
            #![trigger s[k], regions@[(a - b) / rs]]
            0 <= k < s.len() && s[k].address <= a < s[k].end() && before[(a - b) / rs] is None
                implies regions@[(a - b) / rs] == Some(s[k].permissions) by {
            assert(s[k].lies_within(b, window_end as int));
            assert(s[k].aligned_to(b, rs));
            lemma_byte_region_covered(s[k], b, rs, a);
            lemma_regions_in_range(s[k], b, window_end as int, rs);
            vstd::arithmetic::div_mod::lemma_div_pos_is_pos(a - b, rs);
        }
    }
}

/// Programs the flash protection regions from a validated layout: every
/// unlocked region a section governs is locked with that section's
/// permissions, and no other region changes. The regions of each section
/// tile it exactly, so each of its bytes is governed by its permissions.
pub fn config_flash(regions: &mut ProtectionRegions, layout: &FlashLayout)
    requires
        layout.wf(),
        old(regions)@.len() == FLASH_REGION_COUNT,
    ensures
        programmed(old(regions)@, final(regions)@, layout@, 0, FLASH_REGION_SIZE as int),
        forall|i: int| 0 <= i < layout@.len() ==> regions_tile(#[trigger] layout@[i], 0, FLASH_REGION_SIZE as int, FLASH_REGION_COUNT as int),
        bytes_protected(old(regions)@, final(regions)@, layout@, 0, FLASH_REGION_SIZE as int),
{
    let sections = layout.sections();
    assert(FLASH_SIZE as int / FLASH_REGION_SIZE as int == FLASH_REGION_COUNT);
    program_sections(regions, sections, 0, FLASH_SIZE, FLASH_REGION_SIZE);
}

/// Programs the RAM protection regions from a validated layout: every
/// unlocked region a section governs, counted from `RAM_START_ADDRESS`, is
/// locked with that section's permissions, and no other region changes. The
/// regions of each section tile it exactly, so each of its bytes is governed
/// by its permissions.
pub fn config_ram(regions: &mut ProtectionRegions, layout: &RamLayout)
    requires
        layout.wf(),
        old(regions)@.len() == RAM_REGION_COUNT,
    ensures
        programmed(old(regions)@, final(regions)@, layout@, RAM_START_ADDRESS as int, RAM_REGION_SIZE as int),
        forall|i: int|
            0 <= i < layout@.len() ==> regions_tile(#[trigger] layout@[i], RAM_START_ADDRESS as int, RAM_REGION_SIZE as int, RAM_REGION_COUNT as int),
        bytes_protected(old(regions)@, final(regions)@, layout@, RAM_START_ADDRESS as int, RAM_REGION_SIZE as int),
{
    let sections = layout.sections();
    assert((RAM_END_ADDRESS - RAM_START_ADDRESS) as int / RAM_REGION_SIZE as int == RAM_REGION_COUNT);
    program_sections(regions, sections, RAM_START_ADDRESS, RAM_END_ADDRESS, RAM_REGION_SIZE);
}

} // verus!
