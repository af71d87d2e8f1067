//! Talking to a running device through the reset interface: which device to
//! pick and which request to send.
use vstd::prelude::*;
use vstd::string::{StrSliceExecFns, StringExecFns};

use crate::protocol::{gpio_pin_specified, interface_disable_mask};
use crate::reset_interface::{
    control_out_decision, ControlOutAction, ControlRequest, Recipient, RequestType, RESET_INTERFACE_PROTOCOL,
    RESET_INTERFACE_SUBCLASS, RESET_REQUEST_BOOTSEL, RESET_REQUEST_FLASH, TUSB_CLASS_VENDOR_SPECIFIC,
};

verus! {

/// Which way to reboot a running device.
#[derive(Debug, Clone, Copy, PartialEq, Eq, Structural)]
pub enum RebootTarget {
    Bootsel,
    Application,
}

/// The class request code that asks the reset interface for reboot `t`.
pub open spec fn request_code(t: RebootTarget) -> u8 {
    match t {
        RebootTarget::Bootsel => RESET_REQUEST_BOOTSEL,
        RebootTarget::Application => RESET_REQUEST_FLASH,
    }
}

impl RebootTarget {
    /// The reboot direction that `drool reboot` takes: the application when
    /// `--app` is given, BOOTSEL otherwise.
    pub fn from_app_flag(app: bool) -> (t: RebootTarget)
        ensures
            t == (if app { RebootTarget::Application } else { RebootTarget::Bootsel }),
    {
        if app {
            RebootTarget::Application
        } else {
            RebootTarget::Bootsel
        }
    }

    /// The class request code that asks the reset interface for this reboot.
    pub fn request(self) -> (r: u8)
        ensures
            r == request_code(self),
    {
        match self {
            RebootTarget::Bootsel => RESET_REQUEST_BOOTSEL,
            RebootTarget::Application => RESET_REQUEST_FLASH,
        }
    }

    /// Where this reboot leads, for messages.
    pub fn describe(self) -> (s: &'static str)
        ensures
            s@ == (match self {
                RebootTarget::Bootsel => "BOOTSEL"@,
                RebootTarget::Application => "the application"@,
            }),
    {
        match self {
            RebootTarget::Bootsel => "BOOTSEL",
            RebootTarget::Application => "the application",
        }
    }
}

/// The control request that reboots the device whose reset interface is
/// numbered `interface`: a class request to that interface, `wValue` 0 and
/// the interface number in `wIndex`.
pub open spec fn reboot_request_for(interface: u8, direction: RebootTarget) -> ControlRequest {
    ControlRequest {
        request_type: RequestType::Class,
        recipient: Recipient::Interface,
        request: request_code(direction),
        value: 0,
        index: interface as u16,
    }
}

/// Builds the reboot request of `reboot_request_for`.
pub fn reboot_request(interface: u8, direction: RebootTarget) -> (req: ControlRequest)
    ensures
        req == reboot_request_for(interface, direction),
{
    ControlRequest {
        request_type: RequestType::Class,
        recipient: Recipient::Interface,
        request: direction.request(),
        value: 0,
        index: interface as u16,
    }
}

/// The reboot request that `drool` sends is obeyed by the reset interface it
/// is addressed to: into BOOTSEL with no activity pin and no interface
/// disabled, or into the application.
pub proof fn lemma_reboot_request_is_obeyed(interface: u8, direction: RebootTarget)
    ensures
        control_out_decision(reboot_request_for(interface, direction), interface) == match direction {
            RebootTarget::Bootsel => ControlOutAction::ResetToBootsel {
                gpio_activity_pin_mask: 0,
                disable_interface_mask: 0,
            },
            RebootTarget::Application => ControlOutAction::ResetToFlash,
        },
{
    let req = reboot_request_for(interface, direction);
    assert(interface_disable_mask(req.value) == 0);
    assert(!gpio_pin_specified(req.value));
}

/// One interface of a connected USB device: class triple and number.
#[derive(Debug, Clone, Copy, PartialEq, Eq, Structural)]
pub struct InterfaceInfo {
    pub class: u8,
    pub subclass: u8,
    pub protocol: u8,
    pub number: u8,
}

/// A connected USB device: identity and interfaces, in enumeration order.
#[derive(Debug, Clone, PartialEq, Eq)]
pub struct DeviceSummary {
    pub vendor_id: u16,
    pub product_id: u16,
    pub interfaces: Vec<InterfaceInfo>,
}

/// Where the reset interface was found.
#[derive(Debug, Clone, Copy, PartialEq, Eq, Structural)]
pub struct ResetTarget {
    pub vid: u16,
    pub pid: u16,
    pub interface: u8,
}

/// The interface is the Pico SDK reset interface: vendor class, reset
/// subclass and protocol. Any VID/PID carries it.
pub open spec fn is_reset_interface(i: InterfaceInfo) -> bool {
    &&& i.class == TUSB_CLASS_VENDOR_SPECIFIC
    &&& i.subclass == RESET_INTERFACE_SUBCLASS
    &&& i.protocol == RESET_INTERFACE_PROTOCOL
}

/// Some interface of `d` is the reset interface.
pub open spec fn has_reset_interface(d: DeviceSummary) -> bool {
    exists|k: int| 0 <= k < d.interfaces@.len() && is_reset_interface(#[trigger] d.interfaces@[k])
}

/// Finds the first device exposing the reset interface, and on it the first
/// such interface: the device's index in `devices` and the target.
///
/// Any VID/PID is accepted: the interface descriptor triple is the contract,
/// not the vendor identity.
pub fn find_reset_device(devices: &Vec<DeviceSummary>) -> (r: Option<(usize, ResetTarget)>)
    ensures
        r is None <==> forall|i: int| 0 <= i < devices@.len() ==> !has_reset_interface(#[trigger] devices@[i]),
        r matches Some((i, t)) ==> {
            let d = devices@[i as int];
            &&& 0 <= i < devices@.len()
            &&& forall|j: int| 0 <= j < i ==> !has_reset_interface(#[trigger] devices@[j])
            &&& t.vid == d.vendor_id
            &&& t.pid == d.product_id
            &&& exists|k: int|
                0 <= k < d.interfaces@.len() && is_reset_interface(#[trigger] d.interfaces@[k]) && d.interfaces@[k].number
                    == t.interface && forall|l: int| 0 <= l < k ==> !is_reset_interface(#[trigger] d.interfaces@[l])
        },
{
    let mut i: usize = 0;
    while i < devices.len()
        invariant
            0 <= i <= devices@.len(),
            forall|j: int| 0 <= j < i ==> !has_reset_interface(#[trigger] devices@[j]),
        decreases devices@.len() - i,
    {
        let d = &devices[i];
        let mut k: usize = 0;
        while k < d.interfaces.len()
            invariant
                0 <= i < devices@.len(),
                *d == devices@[i as int],
                forall|j: int| 0 <= j < i ==> !has_reset_interface(#[trigger] devices@[j]),
                0 <= k <= d.interfaces@.len(),
                forall|l: int| 0 <= l < k ==> !is_reset_interface(#[trigger] d.interfaces@[l]),
            decreases d.interfaces@.len() - k,
        {
            let itf = d.interfaces[k];
            if itf.class == TUSB_CLASS_VENDOR_SPECIFIC && itf.subclass == RESET_INTERFACE_SUBCLASS
                && itf.protocol == RESET_INTERFACE_PROTOCOL {
                proof {
                    assert(is_reset_interface(d.interfaces@[k as int]));
                    assert(has_reset_interface(devices@[i as int]));
                }
                return Some((i, ResetTarget { vid: d.vendor_id, pid: d.product_id, interface: itf.number }));
            }
            k = k + 1;
        }
        i = i + 1;
    }
    None
}

/// The lowercase hexadecimal digit for `d` (below 16).
pub open spec fn hex_digit(d: int) -> char {
    if d < 10 {
        (48 + d) as char
    } else {
        (87 + d) as char
    }
}

/// `v` as four lowercase hexadecimal digits.
pub open spec fn hex4(v: u16) -> Seq<char> {
    let v = v as int;
    seq![hex_digit((v / 4096) % 16), hex_digit((v / 256) % 16), hex_digit((v / 16) % 16), hex_digit(v % 16)]
}

/// `v` in decimal, without leading zeros.
pub open spec fn decimal(v: u8) -> Seq<char> {
    let v = v as int;
    if v < 10 {
        seq![hex_digit(v)]
    } else if v < 100 {
        seq![hex_digit(v / 10), hex_digit(v % 10)]
    } else {
        seq![hex_digit(v / 100), hex_digit((v / 10) % 10), hex_digit(v % 10)]
    }
}

/// Appends the digit `d` (below 16) to `s`.
fn push_digit(s: &mut String, d: u16)
    requires
        d < 16,
    ensures
        final(s)@ == old(s)@.push(hex_digit(d as int)),
{
    let digits = "0123456789abcdef";
    proof {
        reveal_strlit("0123456789abcdef");
    }
    let one = digits.substring_ascii(d as usize, d as usize + 1);
    proof {
        assert(one@ =~= seq![hex_digit(d as int)]);
    }
    s.append(one);
}

impl ResetTarget {
    /// `vid:pid interface n`, with the identifiers in four hexadecimal digits.
    pub fn describe(&self) -> (s: String)
        ensures
            s@ == hex4(self.vid) + ":"@ + hex4(self.pid) + " interface "@ + decimal(self.interface),
    {
        let mut s = String::new();
        push_digit(&mut s, (self.vid / 4096) % 16);
        push_digit(&mut s, (self.vid / 256) % 16);
        push_digit(&mut s, (self.vid / 16) % 16);
        push_digit(&mut s, self.vid % 16);
        s.append(":");
        push_digit(&mut s, (self.pid / 4096) % 16);
        push_digit(&mut s, (self.pid / 256) % 16);
        push_digit(&mut s, (self.pid / 16) % 16);
        push_digit(&mut s, self.pid % 16);
        s.append(" interface ");
        let n = self.interface as u16;
        if n >= 100 {
            push_digit(&mut s, n / 100);
        }
        if n >= 10 {
            push_digit(&mut s, (n / 10) % 10);
        }
        push_digit(&mut s, n % 10);
        proof {
            assert(s@ =~= hex4(self.vid) + ":"@ + hex4(self.pid) + " interface "@ + decimal(self.interface));
        }
        s
    }
}

} // verus!
