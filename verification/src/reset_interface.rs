//! Pico SDK compatible vendor reset interface with Windows support: the
//! decisions the USB class makes on each request, apart from the USB stack.
use vstd::prelude::*;

use crate::ms_os_20::{BOS_DESCRIPTOR, FUNCTION_SUBSET_FIRST_INTERFACE_OFFSET, MS_OS_20_DESCRIPTOR_SET, MS_OS_20_VENDOR_CODE, update_interface_number};
use crate::protocol::{bootsel_reset_args, gpio_activity_pin, gpio_pin_specified, interface_disable_mask};

verus! {

/// Interface class for vendor-specific interface
pub const TUSB_CLASS_VENDOR_SPECIFIC: u8 = 0xFF;

/// Reset interface subclass (must be 0x00)
pub const RESET_INTERFACE_SUBCLASS: u8 = 0x00;

/// Reset interface protocol (must be 0x01)
pub const RESET_INTERFACE_PROTOCOL: u8 = 0x01;

/// Class request: Reset to BOOTSEL mode
pub const RESET_REQUEST_BOOTSEL: u8 = 0x01;

/// Class request: Reset to flash (normal boot)
pub const RESET_REQUEST_FLASH: u8 = 0x02;

/// `wIndex` of the vendor request that asks for the MS OS 2.0 descriptor set.
pub const MS_OS_20_DESCRIPTOR_INDEX: u16 = 7;

/// `bDevCapabilityType` of a platform capability descriptor.
pub const PLATFORM_CAPABILITY_TYPE: u8 = 0x05;

/// The type field of a USB control request.
#[derive(Debug, Clone, Copy, PartialEq, Eq, Structural)]
pub enum RequestType {
    Standard,
    Class,
    Vendor,
    Reserved,
}

/// The recipient field of a USB control request.
#[derive(Debug, Clone, Copy, PartialEq, Eq, Structural)]
pub enum Recipient {
    Device,
    Interface,
    Endpoint,
    Other,
    Reserved,
}

/// The setup fields of a USB control request that the reset interface reads.
#[derive(Debug, Clone, Copy, PartialEq, Eq, Structural)]
pub struct ControlRequest {
    pub request_type: RequestType,
    pub recipient: Recipient,
    pub request: u8,
    pub value: u16,
    pub index: u16,
}

/// What to do with a device-to-host control request.
#[derive(Debug, Clone, Copy, PartialEq, Eq)]
pub enum ControlInAction {
    /// Not addressed to this class; leave it to the others.
    Ignore,
    /// Answer with this MS OS 2.0 descriptor set.
    SendDescriptorSet([u8; 174]),
    /// Addressed to this interface but unsupported: stall.
    Reject,
}

/// What to do with a host-to-device control request.
#[derive(Debug, Clone, Copy, PartialEq, Eq, Structural)]
pub enum ControlOutAction {
    /// Not addressed to this interface; leave it to the others.
    Ignore,
    /// Addressed to this interface but unknown: stall.
    Reject,
    /// Accept, then call the boot ROM's `reset_to_usb_boot` with these arguments.
    ResetToBootsel { gpio_activity_pin_mask: u32, disable_interface_mask: u32 },
    /// Accept, then reset into the application through the watchdog.
    ResetToFlash,
}

/// The request asks for the MS OS 2.0 descriptor set.
pub open spec fn is_descriptor_set_request(req: ControlRequest) -> bool {
    &&& req.request_type == RequestType::Vendor
    &&& req.recipient == Recipient::Device
    &&& req.request == MS_OS_20_VENDOR_CODE
    &&& req.index == MS_OS_20_DESCRIPTOR_INDEX
}

/// Decides a device-to-host request for the reset interface numbered `iface`.
///
/// The MS OS 2.0 descriptor set request (vendor, device, vendor code,
/// `wIndex` 7) is answered with the descriptor set naming `iface`; any other
/// vendor request to this interface is rejected; everything else is ignored.
pub fn control_in_action(req: &ControlRequest, iface: u8) -> (a: ControlInAction)
    ensures
        is_descriptor_set_request(*req) ==> (a matches ControlInAction::SendDescriptorSet(d)
            && d@ == MS_OS_20_DESCRIPTOR_SET@.update(FUNCTION_SUBSET_FIRST_INTERFACE_OFFSET as int, iface)),
        !is_descriptor_set_request(*req) ==> (a is Reject <==> (req.request_type == RequestType::Vendor
            && req.recipient == Recipient::Interface && req.index == iface as u16)),
        !is_descriptor_set_request(*req) ==> (a is Reject || a is Ignore),
{
    if req.request_type == RequestType::Vendor && req.recipient == Recipient::Device && req.request
        == MS_OS_20_VENDOR_CODE && req.index == MS_OS_20_DESCRIPTOR_INDEX {
        return ControlInAction::SendDescriptorSet(update_interface_number(iface));
    }
    if req.request_type != RequestType::Vendor || req.recipient != Recipient::Interface || req.index
        != iface as u16 {
        return ControlInAction::Ignore;
    }
    ControlInAction::Reject
}

/// The activity-pin mask that the boot ROM takes for the pin named by `w_value`:
/// the pin's bit when a pin is specified and fits a 32-bit mask, else 0.
pub open spec fn activity_pin_mask(w_value: u16) -> u32 {
    if gpio_pin_specified(w_value) && gpio_activity_pin(w_value) < 32 {
        (1u32 << (gpio_activity_pin(w_value) as u32)) as u32
    } else {
        0
    }
}

/// The request is a class request to the interface numbered `iface`.
pub open spec fn is_class_request_to(req: ControlRequest, iface: u8) -> bool {
    &&& req.request_type == RequestType::Class
    &&& req.recipient == Recipient::Interface
    &&& req.index == iface as u16
}

/// What the reset interface numbered `iface` does with host-to-device request
/// `req`.
///
/// picotool sends class requests to the interface, not vendor requests.
/// `RESET_REQUEST_BOOTSEL` reboots into BOOTSEL with the activity pin and
/// interface disable mask of `wValue`; `RESET_REQUEST_FLASH` reboots into the
/// application; other requests to this interface are rejected; requests not
/// addressed to it are left alone.
pub open spec fn control_out_decision(req: ControlRequest, iface: u8) -> ControlOutAction {
    if !is_class_request_to(req, iface) {
        ControlOutAction::Ignore
    } else if req.request == RESET_REQUEST_BOOTSEL {
        ControlOutAction::ResetToBootsel {
            gpio_activity_pin_mask: activity_pin_mask(req.value),
            disable_interface_mask: interface_disable_mask(req.value) as u32,
        }
    } else if req.request == RESET_REQUEST_FLASH {
        ControlOutAction::ResetToFlash
    } else {
        ControlOutAction::Reject
    }
}

/// Decides a host-to-device request for the reset interface numbered `iface`
/// (see `control_out_decision`).
pub fn control_out_action(req: &ControlRequest, iface: u8) -> (a: ControlOutAction)
    ensures
        a == control_out_decision(*req, iface),
{
    if req.request_type != RequestType::Class || req.recipient != Recipient::Interface || req.index
        != iface as u16 {
        return ControlOutAction::Ignore;
    }
    if req.request == RESET_REQUEST_BOOTSEL {
        let (pin, disable_interface_mask) = bootsel_reset_args(req.value);
        let specified = (req.value & (1 << 8)) != 0;
        proof {
            let w = req.value;
            assert((w & (1u16 << 8u16) != 0) == ((w / 256) % 2 == 1)) by (bit_vector);
        }
        let mask: u32 = if specified && pin < 32 {
            1u32 << pin
        } else {
            0
        };
        ControlOutAction::ResetToBootsel { gpio_activity_pin_mask: mask, disable_interface_mask }
    } else if req.request == RESET_REQUEST_FLASH {
        ControlOutAction::ResetToFlash
    } else {
        ControlOutAction::Reject
    }
}

/// The interface string of the reset interface.
pub fn interface_string() -> (s: &'static str)
    ensures
        s@ == "Reset"@,
{
    "Reset"
}

/// The string this class answers for string index `index`, when its own
/// interface string has index `own_index`.
pub fn string_for(index: u8, own_index: u8) -> (s: Option<&'static str>)
    ensures
        s is Some <==> index == own_index,
        s matches Some(t) ==> t@ == "Reset"@,
{
    if index == own_index {
        Some(interface_string())
    } else {
        None
    }
}

/// The platform capability data handed to the BOS writer, which adds
/// `bLength`, `bDescriptorType` and `bDevCapabilityType` itself:
/// `bReserved`, the platform UUID and the platform data of `BOS_DESCRIPTOR`.
pub fn bos_capability_data() -> (d: Vec<u8>)
    ensures
        d@ == BOS_DESCRIPTOR@.subrange(8, 33),
        d@.len() == 25,
{
    let mut d: Vec<u8> = Vec::new();
    let mut i: usize = 8;
    while i < 33
        invariant
            8 <= i <= 33,
            d@ == BOS_DESCRIPTOR@.subrange(8, i as int),
        decreases 33 - i,
    {
        d.push(BOS_DESCRIPTOR[i]);
        proof {
            assert(BOS_DESCRIPTOR@.subrange(8, i + 1) == BOS_DESCRIPTOR@.subrange(8, i as int).push(BOS_DESCRIPTOR@[i as int]));
        }
        i = i + 1;
    }
    d
}

} // verus!
