use drooling::ms_os_20::{update_interface_number, BOS_DESCRIPTOR, MS_OS_20_VENDOR_CODE};
use drooling::reset_interface::{
    bos_capability_data, control_in_action, control_out_action, string_for, ControlInAction, ControlOutAction,
    ControlRequest, Recipient, RequestType, RESET_REQUEST_BOOTSEL, RESET_REQUEST_FLASH,
};

fn req(request_type: RequestType, recipient: Recipient, request: u8, value: u16, index: u16) -> ControlRequest {
    ControlRequest { request_type, recipient, request, value, index }
}

#[test]
fn descriptor_set_request_is_answered_with_the_interface_number() {
    let a = control_in_action(&req(RequestType::Vendor, Recipient::Device, MS_OS_20_VENDOR_CODE, 0, 7), 2);
    assert_eq!(a, ControlInAction::SendDescriptorSet(update_interface_number(2)));
}

#[test]
fn other_vendor_requests_to_the_interface_are_rejected() {
    let a = control_in_action(&req(RequestType::Vendor, Recipient::Interface, 5, 0, 2), 2);
    assert_eq!(a, ControlInAction::Reject);
    let a = control_in_action(&req(RequestType::Vendor, Recipient::Interface, 5, 0, 3), 2);
    assert_eq!(a, ControlInAction::Ignore);
    let a = control_in_action(&req(RequestType::Vendor, Recipient::Device, MS_OS_20_VENDOR_CODE, 0, 6), 2);
    assert_eq!(a, ControlInAction::Ignore);
    let a = control_in_action(&req(RequestType::Class, Recipient::Interface, 1, 0, 2), 2);
    assert_eq!(a, ControlInAction::Ignore);
}

#[test]
fn bootsel_request_carries_the_rom_arguments() {
    let a = control_out_action(&req(RequestType::Class, Recipient::Interface, RESET_REQUEST_BOOTSEL, 0, 2), 2);
    assert_eq!(a, ControlOutAction::ResetToBootsel { gpio_activity_pin_mask: 0, disable_interface_mask: 0 });
    let w = (1 << 8) | (25 << 9) | 0x03;
    let a = control_out_action(&req(RequestType::Class, Recipient::Interface, RESET_REQUEST_BOOTSEL, w, 2), 2);
    assert_eq!(a, ControlOutAction::ResetToBootsel { gpio_activity_pin_mask: 1 << 25, disable_interface_mask: 3 });
    let w = 25 << 9;
    let a = control_out_action(&req(RequestType::Class, Recipient::Interface, RESET_REQUEST_BOOTSEL, w, 2), 2);
    assert_eq!(a, ControlOutAction::ResetToBootsel { gpio_activity_pin_mask: 0, disable_interface_mask: 0 });
}

#[test]
fn flash_request_resets_into_the_application() {
    let a = control_out_action(&req(RequestType::Class, Recipient::Interface, RESET_REQUEST_FLASH, 0, 0), 0);
    assert_eq!(a, ControlOutAction::ResetToFlash);
}

#[test]
fn unknown_or_misaddressed_out_requests() {
    let a = control_out_action(&req(RequestType::Class, Recipient::Interface, 9, 0, 2), 2);
    assert_eq!(a, ControlOutAction::Reject);
    let a = control_out_action(&req(RequestType::Vendor, Recipient::Interface, RESET_REQUEST_BOOTSEL, 0, 2), 2);
    assert_eq!(a, ControlOutAction::Ignore);
    let a = control_out_action(&req(RequestType::Class, Recipient::Device, RESET_REQUEST_BOOTSEL, 0, 2), 2);
    assert_eq!(a, ControlOutAction::Ignore);
    let a = control_out_action(&req(RequestType::Class, Recipient::Interface, RESET_REQUEST_BOOTSEL, 0, 1), 2);
    assert_eq!(a, ControlOutAction::Ignore);
}

#[test]
fn interface_string_is_reset() {
    assert_eq!(string_for(4, 4), Some("Reset"));
    assert_eq!(string_for(3, 4), None);
}

#[test]
fn bos_capability_data_skips_the_headers() {
    let d = bos_capability_data();
    assert_eq!(d.len(), 25);
    assert_eq!(&d[..], &BOS_DESCRIPTOR[8..]);
    assert_eq!(d[0], 0);
    assert_eq!(d[1], 0xDF);
}
