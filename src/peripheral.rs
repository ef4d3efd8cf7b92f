use vstd::prelude::*;

verus! {

/// Number of peripheral slots in the security table.
pub const PERIPHERAL_COUNT: usize = 67;

/// Number of pins of the GPIO port.
pub const GPIO_PIN_COUNT: usize = 32;

/// The security state of one peripheral slot.
#[derive(Debug, Clone, Copy, PartialEq, Eq, Structural)]
pub struct PeripheralPermission {
    /// The hardware reports the peripheral mapped as secure.
    pub pinned_secure: bool,
    /// The slot's security attribute is secure.
    pub secure: bool,
}

/// One slot after reclassification: a slot the hardware pins secure is left
/// as it is; any other becomes non-secure.
pub open spec fn declassified(p: PeripheralPermission) -> PeripheralPermission {
    if p.pinned_secure {
        p
    } else {
        PeripheralPermission { pinned_secure: false, secure: false }
    }
}

/// The whole table after reclassification, slot by slot.
pub open spec fn declassify_all(s: Seq<PeripheralPermission>) -> Seq<PeripheralPermission> {
    s.map_values(|p: PeripheralPermission| declassified(p))
}

/// Makes every peripheral that the hardware does not pin secure non-secure,
/// and every GPIO pin non-secure.
pub fn config_peripherals(peripherals: &mut Vec<PeripheralPermission>, gpio_secure: &mut Vec<bool>)
    ensures
        final(peripherals)@ == declassify_all(old(peripherals)@),
        final(gpio_secure)@.len() == old(gpio_secure)@.len(),
        forall|n: int| 0 <= n < final(gpio_secure)@.len() ==> !#[trigger] final(gpio_secure)@[n],
{
    let ghost before = peripherals@;
    let mut n: usize = 0;
    while n < peripherals.len()
        invariant
            peripherals@.len() == before.len(),
            n <= before.len(),
            forall|m: int| 0 <= m < n ==> #[trigger] peripherals@[m] == declassified(before[m]),
            forall|m: int| n <= m < before.len() ==> #[trigger] peripherals@[m] == before[m],
        decreases before.len() - n,
    {
        if !peripherals[n].pinned_secure {
            peripherals.set(n, PeripheralPermission { pinned_secure: false, secure: false });
        }
        n = n + 1;
    }
    assert(peripherals@ =~= declassify_all(before));
    let ghost pins = gpio_secure@.len();
    let mut pin: usize = 0;
    while pin < gpio_secure.len()
        invariant
            gpio_secure@.len() == pins,
            pin <= pins,
            forall|m: int| 0 <= m < pin ==> !#[trigger] gpio_secure@[m],
        decreases pins - pin,
    {
        gpio_secure.set(pin, false);
        pin = pin + 1;
    }
}

/// Reclassification never makes a slot that the hardware pins secure
/// non-secure, and doing it twice leaves the table as doing it once.
pub proof fn lemma_declassify_idempotent(s: Seq<PeripheralPermission>)
    ensures
        forall|n: int| 0 <= n < s.len() && s[n].pinned_secure ==> #[trigger] declassify_all(s)[n] == s[n],
        declassify_all(declassify_all(s)) == declassify_all(s),
{
    assert(declassify_all(declassify_all(s)) =~= declassify_all(s));
}

} // verus!
