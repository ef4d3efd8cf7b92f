use nrf9160_boot::region::{FLASH_REGION_COUNT, RAM_REGION_COUNT};
use nrf9160_boot::{config_flash, config_ram, FlashLayout, ProtectionRegions, RamLayout, Section, SectionFlags};

fn flags(execute: bool, write: bool, read: bool, secure: bool) -> SectionFlags {
    SectionFlags { execute, write, read, secure }
}

#[test]
fn flash_regions_follow_sections() {
    let boot = flags(true, false, true, true);
    let app = flags(true, true, true, false);
    let sections = [
        Section { address: 0x0, size: 0x4_0000, permissions: boot },
        Section { address: 0x4_0000, size: 0xC_0000, permissions: app },
    ];
    let layout = FlashLayout::new(&sections).unwrap();
    let mut regions = ProtectionRegions::new(FLASH_REGION_COUNT);
    config_flash(&mut regions, &layout);
    assert_eq!(regions.len(), 32);
    for n in 0..8 {
        assert_eq!(regions.get(n), Some(boot));
    }
    for n in 8..32 {
        assert_eq!(regions.get(n), Some(app));
    }
}

#[test]
fn uncovered_flash_regions_stay_unlocked() {
    let app = flags(true, true, true, false);
    let sections = [Section { address: 0x0, size: 0x1_0000, permissions: app }];
    let layout = FlashLayout::new(&sections).unwrap();
    let mut regions = ProtectionRegions::new(FLASH_REGION_COUNT);
    config_flash(&mut regions, &layout);
    assert_eq!(regions.get(0), Some(app));
    assert_eq!(regions.get(1), Some(app));
    assert_eq!(regions.get(2), None);
    assert_eq!(regions.get(31), None);
}

#[test]
fn locked_region_keeps_permissions() {
    let boot = flags(true, false, true, true);
    let app = flags(true, true, true, false);
    let sections = [Section { address: 0x0, size: 0x10_0000, permissions: app }];
    let layout = FlashLayout::new(&sections).unwrap();
    let mut regions = ProtectionRegions::new(FLASH_REGION_COUNT);
    regions.lock(3, boot);
    config_flash(&mut regions, &layout);
    assert_eq!(regions.get(3), Some(boot));
    assert_eq!(regions.get(2), Some(app));
    assert_eq!(regions.get(4), Some(app));
}

#[test]
fn ram_regions_counted_from_ram_start() {
    let boot = flags(true, true, true, true);
    let modem = flags(false, true, true, false);
    let app = flags(true, true, true, false);
    let sections = [
        Section { address: 0x2000_0000, size: 0x1_0000, permissions: boot },
        Section { address: 0x2001_0000, size: 0x1_0000, permissions: modem },
        Section { address: 0x2002_0000, size: 0x2_0000, permissions: app },
    ];
    let layout = RamLayout::new(&sections).unwrap();
    let mut regions = ProtectionRegions::new(RAM_REGION_COUNT);
    config_ram(&mut regions, &layout);
    for n in 0..8 {
        assert_eq!(regions.get(n), Some(boot));
    }
    for n in 8..16 {
        assert_eq!(regions.get(n), Some(modem));
    }
    for n in 16..32 {
        assert_eq!(regions.get(n), Some(app));
    }
}

#[test]
fn misaligned_section_rejected_before_programming() {
    let boot = flags(true, false, true, true);
    let app = flags(true, true, true, false);
    let sections = [
        Section { address: 0x0, size: 0x4000, permissions: boot },
        Section { address: 0x4000, size: 0xF_C000, permissions: app },
    ];
    assert!(FlashLayout::new(&sections).is_err());
}
