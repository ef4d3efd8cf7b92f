use nrf9160_boot::handoff_target;
use nrf9160_boot::peripheral::{GPIO_PIN_COUNT, PERIPHERAL_COUNT};
use nrf9160_boot::{config_peripherals, PeripheralPermission};

fn slot(pinned_secure: bool, secure: bool) -> PeripheralPermission {
    PeripheralPermission { pinned_secure, secure }
}

#[test]
fn pinned_secure_peripherals_untouched() {
    let mut peripherals = vec![slot(true, true), slot(false, true), slot(false, false), slot(true, false)];
    let mut gpio = vec![true; GPIO_PIN_COUNT];
    config_peripherals(&mut peripherals, &mut gpio);
    assert_eq!(
        peripherals,
        vec![slot(true, true), slot(false, false), slot(false, false), slot(true, false)]
    );
    assert_eq!(gpio, vec![false; GPIO_PIN_COUNT]);
}

#[test]
fn declassify_twice_same_as_once() {
    let mut peripherals: Vec<PeripheralPermission> =
        (0..PERIPHERAL_COUNT).map(|n| slot(n % 3 == 0, n % 2 == 0)).collect();
    let mut gpio = vec![true; GPIO_PIN_COUNT];
    config_peripherals(&mut peripherals, &mut gpio);
    let once = peripherals.clone();
    let gpio_once = gpio.clone();
    config_peripherals(&mut peripherals, &mut gpio);
    assert_eq!(peripherals, once);
    assert_eq!(gpio, gpio_once);
    for n in 0..PERIPHERAL_COUNT {
        assert_eq!(peripherals[n].secure, n % 3 == 0 && n % 2 == 0);
    }
}

#[test]
fn handoff_clears_tag_bit() {
    let t = handoff_target(0x2004_0000, 0x0004_0101);
    assert_eq!(t.stack_pointer, 0x2004_0000);
    assert_eq!(t.entry, 0x0004_0100);
    assert_eq!(handoff_target(0, 0x0004_0100).entry, 0x0004_0100);
    assert_eq!(handoff_target(0, 0xFFFF_FFFF).entry, 0xFFFF_FFFE);
}
