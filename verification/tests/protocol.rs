use drooling::protocol::bootsel_reset_args;

#[test]
fn no_gpio_no_disable_mask() {
    assert_eq!(bootsel_reset_args(0x0000), (0, 0));
}

#[test]
fn disable_interface_mask_passes_through() {
    assert_eq!(bootsel_reset_args(0x0003), (0, 0x03));
}

#[test]
fn gpio_bit_unset_ignores_pin_field() {
    assert_eq!(bootsel_reset_args(25 << 9), (0, 0));
}

#[test]
fn gpio_pin_25_with_specified_bit() {
    let w_value = (1 << 8) | (25 << 9);
    assert_eq!(bootsel_reset_args(w_value), (25, 0));
}

#[test]
fn bit_7_and_bit_15_are_ignored() {
    assert_eq!(bootsel_reset_args(0x0080), (0, 0));
    assert_eq!(bootsel_reset_args(0x8000 | (1 << 8) | (3 << 9) | 0x7F), (3, 0x7F));
    assert_eq!(bootsel_reset_args(0xFFFF), (63, 0x7F));
}
