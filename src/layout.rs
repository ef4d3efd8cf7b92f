use vstd::prelude::*;

use crate::error::{FlashLayoutError, RamLayoutError};
use crate::region::{FLASH_REGION_SIZE, RAM_REGION_SIZE};

verus! {

/// Size of the flash window `[0, FLASH_SIZE)`: 1 MiB.
pub const FLASH_SIZE: usize = 0x10_0000;

/// First byte of the RAM window.
pub const RAM_START_ADDRESS: usize = 0x2000_0000;

/// One past the last byte of the RAM window (256 KiB of RAM).
pub const RAM_END_ADDRESS: usize = 0x2000_0000 + 0x4_0000;

/// Register bit that grants execute access.
pub const EXECUTE_BIT: u32 = 0b0000_0001;

/// Register bit that grants write access.
pub const WRITE_BIT: u32 = 0b0000_0010;

/// Register bit that grants read access.
pub const READ_BIT: u32 = 0b0000_0100;

/// Register bit that marks a region secure.
pub const SECURE_BIT: u32 = 0b0001_0000;

/// The access rights of one partition, one flag per capability.
#[derive(Debug, Clone, Copy, PartialEq, Eq, Structural)]
pub struct SectionFlags {
    pub execute: bool,
    pub write: bool,
    pub read: bool,
    pub secure: bool,
}

impl SectionFlags {
    /// The register encoding of the flags: the sum of the bits of the flags that are set.
    pub open spec fn spec_bits(self) -> u32 {
        ((if self.execute { EXECUTE_BIT } else { 0 }) + (if self.write { WRITE_BIT } else { 0 })
            + (if self.read { READ_BIT } else { 0 }) + (if self.secure { SECURE_BIT } else { 0 })) as u32
    }

    /// Encodes the flags as the bits of a protection register.
    pub fn bits(&self) -> (r: u32)
        ensures
            r == self.spec_bits(),
    {
        let mut r: u32 = 0;
        if self.execute {
            r = r + EXECUTE_BIT;
        }
        if self.write {
            r = r + WRITE_BIT;
        }
        if self.read {
            r = r + READ_BIT;
        }
        if self.secure {
            r = r + SECURE_BIT;
        }
        r
    }

    /// Decodes register bits; bits that name no flag are dropped.
    pub fn from_bits_truncate(bits: u32) -> (r: SectionFlags)
        ensures
            r.execute == (bits & EXECUTE_BIT != 0),
            r.write == (bits & WRITE_BIT != 0),
            r.read == (bits & READ_BIT != 0),
            r.secure == (bits & SECURE_BIT != 0),
    {
        SectionFlags {
            execute: bits & EXECUTE_BIT != 0,
            write: bits & WRITE_BIT != 0,
            read: bits & READ_BIT != 0,
            secure: bits & SECURE_BIT != 0,
        }
    }

    /// The flags set in either operand.
    pub fn union(self, other: SectionFlags) -> (r: SectionFlags)
        ensures
            r.execute == (self.execute || other.execute),
            r.write == (self.write || other.write),
            r.read == (self.read || other.read),
            r.secure == (self.secure || other.secure),
    {
        SectionFlags {
            execute: self.execute || other.execute,
            write: self.write || other.write,
            read: self.read || other.read,
            secure: self.secure || other.secure,
        }
    }

    /// The flags set in both operands.
    pub fn intersection(self, other: SectionFlags) -> (r: SectionFlags)
        ensures
            r.execute == (self.execute && other.execute),
            r.write == (self.write && other.write),
            r.read == (self.read && other.read),
            r.secure == (self.secure && other.secure),
    {
        SectionFlags {
            execute: self.execute && other.execute,
            write: self.write && other.write,
            read: self.read && other.read,
            secure: self.secure && other.secure,
        }
    }
}

impl Default for SectionFlags {
    /// Read, write and execute, non-secure.
    fn default() -> (r: SectionFlags)
        ensures
            r == (SectionFlags { execute: true, write: true, read: true, secure: false }),
    {
        SectionFlags { execute: true, write: true, read: true, secure: false }
    }
}

/// One contiguous byte range `[address, address + size)` of flash or RAM,
/// with the rights that code gets to it.
#[derive(Debug, Clone, Copy, PartialEq, Eq, Structural)]
pub struct Section {
    pub address: usize,
    pub size: usize,
    pub permissions: SectionFlags,
}

impl Section {
    /// One past the last byte of the section.
    pub open spec fn end(self) -> int {
        self.address + self.size
    }

    /// The section lies in the window `[start, end)`.
    pub open spec fn lies_within(self, start: int, end: int) -> bool {
        start <= self.address && self.end() <= end
    }

    /// The section starts on a region boundary of a window that starts at
    /// `base` and is cut into regions of `region_size` bytes, and its size is
    /// a whole number of regions.
    pub open spec fn aligned_to(self, base: int, region_size: int) -> bool {
        (self.address - base) % region_size == 0 && (self.size as int) % region_size == 0
    }

    /// The half-open ranges of the two sections share a byte; sections that
    /// merely touch do not overlap.
    pub open spec fn overlaps(self, other: Section) -> bool {
        self.address < other.end() && other.address < self.end()
    }
}

/// Every section lies in the window `[start, end)`.
pub open spec fn all_within(s: Seq<Section>, start: int, end: int) -> bool {
    forall|i: int| 0 <= i < s.len() ==> #[trigger] s[i].lies_within(start, end)
}

/// No section is empty.
pub open spec fn all_nonempty(s: Seq<Section>) -> bool {
    forall|i: int| 0 <= i < s.len() ==> #[trigger] s[i].size > 0
}

/// Every section is aligned to the regions of the window that starts at `base`.
pub open spec fn all_aligned(s: Seq<Section>, base: int, region_size: int) -> bool {
    forall|i: int| 0 <= i < s.len() ==> #[trigger] s[i].aligned_to(base, region_size)
}

/// No two sections of the list overlap.
pub open spec fn pairwise_disjoint(s: Seq<Section>) -> bool {
    forall|i: int, j: int| 0 <= i < j < s.len() ==> !(#[trigger] s[i].overlaps(#[trigger] s[j]))
}

/// What validation says of a flash partition table: the bootloader (the first
/// entry) starts at 0, then no section is empty, then every section lies in
/// flash, then every section is aligned to the flash regions, then none
/// overlap.
pub open spec fn flash_verdict(s: Seq<Section>) -> Result<(), FlashLayoutError> {
    if s.len() > 0 && s[0].address != 0 {
        Err(FlashLayoutError::InvalidBootloaderStart)
    } else if !all_nonempty(s) {
        Err(FlashLayoutError::EmptySection)
    } else if !all_within(s, 0, FLASH_SIZE as int) {
        Err(FlashLayoutError::TooLarge)
    } else if !all_aligned(s, 0, FLASH_REGION_SIZE as int) {
        Err(FlashLayoutError::Misaligned)
    } else if !pairwise_disjoint(s) {
        Err(FlashLayoutError::SectionsOverlap)
    } else {
        Ok(())
    }
}

/// What validation says of a RAM partition table: no section is empty, then
/// every section lies in the RAM window, then every section is aligned to the
/// RAM regions, then none overlap.
pub open spec fn ram_verdict(s: Seq<Section>) -> Result<(), RamLayoutError> {
    if !all_nonempty(s) {
        Err(RamLayoutError::EmptySection)
    } else if !all_within(s, RAM_START_ADDRESS as int, RAM_END_ADDRESS as int) {
        Err(RamLayoutError::TooLarge)
    } else if !all_aligned(s, RAM_START_ADDRESS as int, RAM_REGION_SIZE as int) {
        Err(RamLayoutError::Misaligned)
    } else if !pairwise_disjoint(s) {
        Err(RamLayoutError::SectionsOverlap)
    } else {
        Ok(())
    }
}

/// Sections of an accepted table, flash or RAM, never overlap, whichever two
/// distinct entries are taken and in either order.
pub proof fn lemma_accepted_sections_disjoint(s: Seq<Section>)
    requires
        flash_verdict(s) == Ok::<(), FlashLayoutError>(()) || ram_verdict(s) == Ok::<(), RamLayoutError>(()),
    ensures
        forall|i: int, j: int|
            0 <= i < s.len() && 0 <= j < s.len() && i != j ==> !(#[trigger] s[i].overlaps(#[trigger] s[j])),
{
    assert forall|i: int, j: int| 0 <= i < s.len() && 0 <= j < s.len() && i != j implies !(#[trigger] s[i].overlaps(
        #[trigger] s[j],
    )) by {
        if i > j {
            assert(!s[j].overlaps(s[i]));
        }
    }
}

/// Sections that only touch, one ending where the other starts, do not overlap.
pub proof fn lemma_touching_sections_disjoint(a: Section, b: Section)
    requires
        a.end() == b.address,
    ensures
        !a.overlaps(b),
        !b.overlaps(a),
{
}

/// Every section of an accepted flash table lies in `[0, FLASH_SIZE)`.
pub proof fn lemma_accepted_flash_sections_in_window(s: Seq<Section>)
    requires
        flash_verdict(s) == Ok::<(), FlashLayoutError>(()),
    ensures
        forall|i: int| 0 <= i < s.len() ==> 0 <= #[trigger] s[i].address && s[i].end() <= FLASH_SIZE,
{
    assert forall|i: int| 0 <= i < s.len() implies 0 <= #[trigger] s[i].address && s[i].end() <= FLASH_SIZE by {
        assert(s[i].lies_within(0, FLASH_SIZE as int));
    }
}

/// Every section of an accepted RAM table lies in `[RAM_START_ADDRESS, RAM_END_ADDRESS)`.
pub proof fn lemma_accepted_ram_sections_in_window(s: Seq<Section>)
    requires
        ram_verdict(s) == Ok::<(), RamLayoutError>(()),
    ensures
        forall|i: int|
            0 <= i < s.len() ==> RAM_START_ADDRESS <= #[trigger] s[i].address && s[i].end() <= RAM_END_ADDRESS,
{
    assert forall|i: int| 0 <= i < s.len() implies RAM_START_ADDRESS <= #[trigger] s[i].address && s[i].end()
        <= RAM_END_ADDRESS by {
        assert(s[i].lies_within(RAM_START_ADDRESS as int, RAM_END_ADDRESS as int));
    }
}

/// A flash table whose first entry does not start at 0 is refused as a
/// misplaced bootloader, whatever the other entries hold.
pub proof fn lemma_misplaced_bootloader_rejected(s: Seq<Section>)
    requires
        s.len() > 0,
        s[0].address != 0,
    ensures
        flash_verdict(s) == Err::<(), FlashLayoutError>(FlashLayoutError::InvalidBootloaderStart),
{
}

/// Tests whether every section lies in `[start, end)`.
fn sections_within(sections: &[Section], start: usize, end: usize) -> (r: bool)
    ensures
        r == all_within(sections@, start as int, end as int),
{
    let mut i: usize = 0;
    while i < sections.len()
        invariant
            i <= sections@.len(),
            all_within(sections@.subrange(0, i as int), start as int, end as int),
        decreases sections@.len() - i,
    {
        let section = sections[i];
        if section.address < start || section.address > end || section.size > end - section.address {
            assert(!sections@[i as int].lies_within(start as int, end as int));
            return false;
        }
        assert(sections@.subrange(0, i + 1) =~= sections@.subrange(0, i as int).push(section));
        i = i + 1;
    }
    assert(sections@.subrange(0, i as int) =~= sections@);
    true
}

/// Tests whether no section is empty.
fn sections_nonempty(sections: &[Section]) -> (r: bool)
    ensures
        r == all_nonempty(sections@),
{
    let mut i: usize = 0;
    while i < sections.len()
        invariant
            i <= sections@.len(),
            forall|k: int| 0 <= k < i ==> #[trigger] sections@[k].size > 0,
        decreases sections@.len() - i,
    {
        if sections[i].size == 0 {
            return false;
        }
        i = i + 1;
    }
    true
}

/// Tests whether every section is aligned to the regions of `region_size`
/// bytes of a window that starts at `base`.
fn sections_aligned(sections: &[Section], base: usize, region_size: usize) -> (r: bool)
    requires
        0 < region_size,
        forall|i: int| 0 <= i < sections@.len() ==> base <= #[trigger] sections@[i].address,
    ensures
        r == all_aligned(sections@, base as int, region_size as int),
{
    let mut i: usize = 0;
    while i < sections.len()
        invariant
            0 < region_size,
            i <= sections@.len(),
            forall|i: int| 0 <= i < sections@.len() ==> base <= #[trigger] sections@[i].address,
            forall|k: int| 0 <= k < i ==> #[trigger] sections@[k].aligned_to(base as int, region_size as int),
        decreases sections@.len() - i,
    {
        let section = sections[i];
        assert(base <= sections@[i as int].address);
        if (section.address - base) % region_size != 0 || section.size % region_size != 0 {
            assert(!sections@[i as int].aligned_to(base as int, region_size as int));
            return false;
        }
        i = i + 1;
    }
    true
}

/// Tests whether two sections of the list overlap. The sections' ends must
/// fit in `usize`, which holds once they lie in a window.
fn sections_disjoint(sections: &[Section]) -> (r: bool)
    requires
        forall|i: int| 0 <= i < sections@.len() ==> #[trigger] sections@[i].end() <= usize::MAX,
    ensures
        r == pairwise_disjoint(sections@),
{
    let n = sections.len();
    let mut i: usize = 0;
    while i < n
        invariant
            n == sections@.len(),
            i <= n,
            forall|i: int| 0 <= i < sections@.len() ==> #[trigger] sections@[i].end() <= usize::MAX,
            forall|a: int, b: int|
                0 <= a < i && a < b < n ==> !(#[trigger] sections@[a].overlaps(#[trigger] sections@[b])),
        decreases n - i,
    {
        let section = sections[i];
        assert(sections@[i as int].end() <= usize::MAX);
        let section_end = section.address + section.size;
        let mut j: usize = i + 1;
        while j < n
            invariant
                n == sections@.len(),
                i < n,
                i + 1 <= j <= n,
                section == sections@[i as int],
                section_end == section.end(),
                forall|i: int| 0 <= i < sections@.len() ==> #[trigger] sections@[i].end() <= usize::MAX,
                forall|b: int| i < b < j ==> !(#[trigger] sections@[i as int].overlaps(sections@[b])),
            decreases n - j,
        {
            let other = sections[j];
            assert(sections@[j as int].end() <= usize::MAX);
            let other_end = other.address + other.size;
            if section.address < other_end && other.address < section_end {
                assert(sections@[i as int].overlaps(sections@[j as int]));
                return false;
            }
            j = j + 1;
        }
        i = i + 1;
    }
    true
}

/// A validated flash partition table.
pub struct FlashLayout<'s> {
    sections: &'s [Section],
}

impl<'s> View for FlashLayout<'s> {
    type V = Seq<Section>;

    closed spec fn view(&self) -> Seq<Section> {
        self.sections@
    }
}

impl<'s> FlashLayout<'s> {
    /// The table passed validation.
    pub open spec fn wf(&self) -> bool {
        flash_verdict(self@) == Ok::<(), FlashLayoutError>(())
    }

    /// Validates a flash partition table. The first entry is the bootloader,
    /// which must start at address 0; no entry may be empty; every entry must
    /// lie in flash and be aligned to the flash protection regions; no two
    /// entries may overlap. Checked in that order.
    pub fn new(sections: &'s [Section]) -> (r: Result<FlashLayout<'s>, FlashLayoutError>)
        ensures
            match r {
                Ok(layout) => flash_verdict(sections@) == Ok::<(), FlashLayoutError>(())
                    && layout@ == sections@ && layout.wf(),
                Err(e) => flash_verdict(sections@) == Err::<(), FlashLayoutError>(e),
            },
    {
        if sections.len() > 0 && sections[0].address != 0 {
            return Err(FlashLayoutError::InvalidBootloaderStart);
        }
        if !sections_nonempty(sections) {
            return Err(FlashLayoutError::EmptySection);
        }
        if !sections_within(sections, 0, FLASH_SIZE) {
            return Err(FlashLayoutError::TooLarge);
        }
        if !sections_aligned(sections, 0, FLASH_REGION_SIZE) {
            return Err(FlashLayoutError::Misaligned);
        }
        assert forall|i: int| 0 <= i < sections@.len() implies #[trigger] sections@[i].end() <= usize::MAX by {
            assert(sections@[i].lies_within(0, FLASH_SIZE as int));
        }
        if !sections_disjoint(sections) {
            return Err(FlashLayoutError::SectionsOverlap);
        }
        Ok(FlashLayout { sections })
    }

    /// The partitions, in the order given.
    pub fn sections(&self) -> (r: &'s [Section])
        ensures
            r@ == self@,
    {
        self.sections
    }
}

/// A validated RAM partition table.
pub struct RamLayout<'s> {
    sections: &'s [Section],
}

impl<'s> View for RamLayout<'s> {
    type V = Seq<Section>;

    closed spec fn view(&self) -> Seq<Section> {
        self.sections@
    }
}

impl<'s> RamLayout<'s> {
    /// The table passed validation.
    pub open spec fn wf(&self) -> bool {
        ram_verdict(self@) == Ok::<(), RamLayoutError>(())
    }

    /// Validates a RAM partition table: no entry may be empty, every entry
    /// must lie in the RAM window and be aligned to the RAM protection
    /// regions, and no two entries may overlap. Checked in that order.
    pub fn new(sections: &'s [Section]) -> (r: Result<RamLayout<'s>, RamLayoutError>)
        ensures
            match r {
                Ok(layout) => ram_verdict(sections@) == Ok::<(), RamLayoutError>(())
                    && layout@ == sections@ && layout.wf(),
                Err(e) => ram_verdict(sections@) == Err::<(), RamLayoutError>(e),
            },
    {
        if !sections_nonempty(sections) {
            return Err(RamLayoutError::EmptySection);
        }
        if !sections_within(sections, RAM_START_ADDRESS, RAM_END_ADDRESS) {
            return Err(RamLayoutError::TooLarge);
        }
        assert forall|i: int| 0 <= i < sections@.len() implies RAM_START_ADDRESS <= #[trigger] sections@[i].address by {
            assert(sections@[i].lies_within(RAM_START_ADDRESS as int, RAM_END_ADDRESS as int));
        }
        if !sections_aligned(sections, RAM_START_ADDRESS, RAM_REGION_SIZE) {
            return Err(RamLayoutError::Misaligned);
        }
        assert forall|i: int| 0 <= i < sections@.len() implies #[trigger] sections@[i].end() <= usize::MAX by {
            assert(sections@[i].lies_within(RAM_START_ADDRESS as int, RAM_END_ADDRESS as int));
        }
        if !sections_disjoint(sections) {
            return Err(RamLayoutError::SectionsOverlap);
        }
        Ok(RamLayout { sections })
    }

    /// The partitions, in the order given.
    pub fn sections(&self) -> (r: &'s [Section])
        ensures
            r@ == self@,
    {
        self.sections
    }
}

} // verus!
