use nrf9160_boot::error::{FlashLayoutError, RamLayoutError};
use nrf9160_boot::layout::{FLASH_SIZE, RAM_END_ADDRESS, RAM_START_ADDRESS};
use nrf9160_boot::{FlashLayout, RamLayout, Section, SectionFlags};

fn rx() -> SectionFlags {
    SectionFlags { execute: true, write: false, read: true, secure: false }
}

fn section(address: usize, size: usize) -> Section {
    Section { address, size, permissions: rx() }
}

#[test]
fn adjacent_flash_sections_accepted() {
    let sections = [section(0x0, 0x4_0000), section(0x4_0000, 0xC_0000)];
    let layout = FlashLayout::new(&sections).unwrap();
    assert_eq!(layout.sections().len(), 2);
    assert_eq!(layout.sections()[1], sections[1]);
}

#[test]
fn overlapping_flash_sections_rejected() {
    let sections = [section(0x0, 0x5_0000), section(0x4_0000, 0xC_0000)];
    assert!(matches!(FlashLayout::new(&sections), Err(FlashLayoutError::SectionsOverlap)));
}

#[test]
fn ram_section_past_window_rejected() {
    let sections = [section(0x2002_0000, 0x3_0000)];
    assert!(matches!(RamLayout::new(&sections), Err(RamLayoutError::TooLarge)));
}

#[test]
fn bootloader_not_first_rejected() {
    let sections = [section(0x4_0000, 0x4_0000), section(0x0, 0x4_0000)];
    assert!(matches!(
        FlashLayout::new(&sections),
        Err(FlashLayoutError::InvalidBootloaderStart)
    ));
}

#[test]
fn misplaced_bootloader_wins_over_other_errors() {
    let sections = [section(0x1000, 0x20_0000), section(0x1000, 0x10)];
    assert!(matches!(
        FlashLayout::new(&sections),
        Err(FlashLayoutError::InvalidBootloaderStart)
    ));
}

#[test]
fn flash_section_past_end_rejected() {
    let sections = [section(0x0, FLASH_SIZE + 1)];
    assert!(matches!(FlashLayout::new(&sections), Err(FlashLayoutError::TooLarge)));
}

#[test]
fn flash_section_filling_flash_accepted() {
    let sections = [section(0x0, FLASH_SIZE)];
    assert!(FlashLayout::new(&sections).is_ok());
}

#[test]
fn flash_section_end_overflowing_rejected() {
    let sections = [section(0x0, 0x4_0000), section(usize::MAX, 2)];
    assert!(matches!(FlashLayout::new(&sections), Err(FlashLayoutError::TooLarge)));
}

#[test]
fn window_checked_before_overlap() {
    let sections = [section(0x0, 0x5_0000), section(0x4_0000, 0x10_0000)];
    assert!(matches!(FlashLayout::new(&sections), Err(FlashLayoutError::TooLarge)));
}

#[test]
fn overlap_found_between_distant_entries() {
    let sections = [
        section(0x0, 0x1_0000),
        section(0x2_0000, 0x1_0000),
        section(0x4_0000, 0x1_0000),
        section(0x0_8000, 0x8000),
    ];
    assert!(matches!(FlashLayout::new(&sections), Err(FlashLayoutError::SectionsOverlap)));
}

#[test]
fn empty_tables_accepted() {
    assert!(FlashLayout::new(&[]).is_ok());
    assert!(RamLayout::new(&[]).is_ok());
}

#[test]
fn misaligned_flash_section_rejected() {
    let sections = [section(0x0, 0x4000), section(0x4000, 0xF_C000)];
    assert!(matches!(FlashLayout::new(&sections), Err(FlashLayoutError::Misaligned)));
    let sections = [section(0x0, 0x8000), section(0x1_0000, 0x9000)];
    assert!(matches!(FlashLayout::new(&sections), Err(FlashLayoutError::Misaligned)));
}

#[test]
fn misaligned_ram_section_rejected() {
    let sections = [section(0x2000_1000, 0x1000)];
    assert!(matches!(RamLayout::new(&sections), Err(RamLayoutError::Misaligned)));
    let sections = [section(0x2000_2000, 0x3000)];
    assert!(matches!(RamLayout::new(&sections), Err(RamLayoutError::Misaligned)));
}

#[test]
fn empty_sections_rejected() {
    let sections = [section(0x0, 0x8000), section(0x8000, 0)];
    assert!(matches!(FlashLayout::new(&sections), Err(FlashLayoutError::EmptySection)));
    let sections = [section(0x2000_0000, 0)];
    assert!(matches!(RamLayout::new(&sections), Err(RamLayoutError::EmptySection)));
}

#[test]
fn ram_section_below_window_rejected() {
    let sections = [section(RAM_START_ADDRESS - 0x2000, 0x4000)];
    assert!(matches!(RamLayout::new(&sections), Err(RamLayoutError::TooLarge)));
}

#[test]
fn ram_device_map_accepted() {
    let sections = [
        section(0x2000_0000, 0x1_0000),
        section(0x2001_0000, 0x1_0000),
        section(0x2002_0000, 0x2_0000),
    ];
    let layout = RamLayout::new(&sections).unwrap();
    assert_eq!(layout.sections().len(), 3);
    assert_eq!(RAM_END_ADDRESS, 0x2004_0000);
}

#[test]
fn overlapping_ram_sections_rejected() {
    let sections = [section(0x2000_0000, 0x1_0000), section(0x2000_8000, 0x1_0000)];
    assert!(matches!(RamLayout::new(&sections), Err(RamLayoutError::SectionsOverlap)));
}

#[test]
fn flag_bits_encode_each_flag() {
    let all = SectionFlags { execute: true, write: true, read: true, secure: true };
    assert_eq!(all.bits(), 0b1_0111);
    assert_eq!(rx().bits(), 0b101);
    let none = SectionFlags { execute: false, write: false, read: false, secure: false };
    assert_eq!(none.bits(), 0);
}

#[test]
fn flag_bits_truncate_unknown_bits() {
    let flags = SectionFlags::from_bits_truncate(0xFFFF_FF0A);
    assert_eq!(flags, SectionFlags { execute: false, write: true, read: false, secure: false });
    assert_eq!(SectionFlags::from_bits_truncate(0b1_0101).bits(), 0b1_0101);
}

#[test]
fn flag_union_and_default() {
    let secure = SectionFlags { execute: false, write: false, read: false, secure: true };
    let u = rx().union(secure);
    assert_eq!(u.bits(), 0b1_0101);
    assert_eq!(SectionFlags::default().bits(), 0b111);
}

#[test]
fn flag_intersection_keeps_common_flags() {
    let rw = SectionFlags { execute: false, write: true, read: true, secure: true };
    assert_eq!(rx().intersection(rw), SectionFlags { execute: false, write: false, read: true, secure: false });
    assert_eq!(rx().intersection(rw).bits(), 0b100);
}
