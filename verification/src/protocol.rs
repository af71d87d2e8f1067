//! Wire-format parsing for the Pico SDK reset interface requests.
use vstd::prelude::*;

verus! {

/// Whether bit 8 of `wValue` (a GPIO activity pin is specified) is set.
pub open spec fn gpio_pin_specified(w_value: u16) -> bool {
    (w_value / 256) % 2 == 1
}

/// The GPIO activity pin named by `wValue`: bits 9-14 when bit 8 is set, else 0.
pub open spec fn gpio_activity_pin(w_value: u16) -> int {
    if gpio_pin_specified(w_value) {
        ((w_value / 512) % 64) as int
    } else {
        0
    }
}

/// The interface disable mask of `wValue`: bits 0-6.
pub open spec fn interface_disable_mask(w_value: u16) -> int {
    (w_value % 128) as int
}

/// Parse the `wValue` of a `RESET_REQUEST_BOOTSEL` class request into the
/// GPIO activity pin and the interface disable mask for the boot ROM's
/// `reset_to_usb_boot`.
///
/// `wValue` layout (Pico SDK `pico_stdio_usb` reset interface):
/// - bits 0-6: interface disable mask
/// - bit 8: a GPIO activity pin is specified
/// - bits 9-14: the GPIO pin number (when bit 8 is set)
pub fn bootsel_reset_args(w_value: u16) -> (r: (u32, u32))
    ensures
        r.0 == gpio_activity_pin(w_value),
        r.1 == interface_disable_mask(w_value),
        r.1 == (w_value & 0x7F) as u32,
        r.0 == (if w_value & 0x100 != 0 { ((w_value >> 9u16) & 0x3F) as u32 } else { 0u32 }),
{
    let disable_interface_mask = (w_value & 0x7F) as u32;
    let gpio_specified = (w_value & (1 << 8)) != 0;
    let gpio_activity = if gpio_specified {
        ((w_value >> 9) & 0x3F) as u32
    } else {
        0
    };
    proof {
        assert(w_value & 0x7F == w_value % 128) by (bit_vector);
        assert(w_value & (1u16 << 8u16) == w_value & 0x100) by (bit_vector);
        assert((w_value & (1u16 << 8u16) != 0) == ((w_value / 256) % 2 == 1)) by (bit_vector);
        assert((w_value >> 9u16) & 0x3F == (w_value / 512) % 64) by (bit_vector);
    }
    (gpio_activity, disable_interface_mask)
}

/// The interface disable mask is bits 0-6 of `wValue`, each passed through
/// unchanged, and nothing else; the activity pin is bits 9-14 when bit 8 is
/// set, and 0 otherwise.
pub proof fn lemma_reset_args_are_wvalue_bits(w_value: u16)
    ensures
        0 <= interface_disable_mask(w_value) < 128,
        forall|b: u16| #![trigger (w_value >> b)]
            b < 7 ==> ((interface_disable_mask(w_value) as u16) >> b) & 1 == (w_value >> b) & 1,
        gpio_pin_specified(w_value) <==> (w_value >> 8u16) & 1 == 1,
        0 <= gpio_activity_pin(w_value) < 64,
        gpio_pin_specified(w_value) ==> forall|b: u16| #![trigger (w_value >> b)]
            b < 6 ==> ((gpio_activity_pin(w_value) as u16) >> b) & 1 == (w_value >> (b + 9)) & 1,
        !gpio_pin_specified(w_value) ==> gpio_activity_pin(w_value) == 0,
{
    let m = (w_value % 128) as u16;
    assert(m == w_value & 0x7F) by (bit_vector)
        requires m == w_value % 128;
    assert forall|b: u16| b < 7 implies #[trigger] ((m >> b) & 1) == (w_value >> b) & 1 by {
        assert(b < 7 ==> ((w_value & 0x7F) >> b) & 1 == (w_value >> b) & 1) by (bit_vector);
    }
    assert(((w_value / 256) % 2 == 1) <==> ((w_value >> 8u16) & 1 == 1)) by (bit_vector);
    let g = ((w_value / 512) % 64) as u16;
    assert(g == (w_value >> 9u16) & 0x3F) by (bit_vector)
        requires g == (w_value / 512) % 64;
    assert forall|b: u16| b < 6 implies #[trigger] ((g >> b) & 1) == (w_value >> (b + 9)) & 1 by {
        assert(b < 6 ==> (((w_value >> 9u16) & 0x3F) >> b) & 1 == (w_value >> (b + 9)) & 1) by (bit_vector);
    }
}

} // verus!
