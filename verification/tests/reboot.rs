use drooling::reboot::{find_reset_device, reboot_request, DeviceSummary, InterfaceInfo, RebootTarget, ResetTarget};
use drooling::reset_interface::{control_out_action, ControlOutAction, Recipient, RequestType};

fn itf(class: u8, subclass: u8, protocol: u8, number: u8) -> InterfaceInfo {
    InterfaceInfo { class, subclass, protocol, number }
}

#[test]
fn reboot_requests_are_class_requests_to_the_interface() {
    let r = reboot_request(2, RebootTarget::Bootsel);
    assert_eq!(r.request_type, RequestType::Class);
    assert_eq!(r.recipient, Recipient::Interface);
    assert_eq!(r.request, 0x01);
    assert_eq!(r.value, 0);
    assert_eq!(r.index, 2);
    assert_eq!(reboot_request(5, RebootTarget::Application).request, 0x02);
}

#[test]
fn device_obeys_the_host_request() {
    for iface in [0u8, 2, 7] {
        let a = control_out_action(&reboot_request(iface, RebootTarget::Bootsel), iface);
        assert_eq!(a, ControlOutAction::ResetToBootsel { gpio_activity_pin_mask: 0, disable_interface_mask: 0 });
        let a = control_out_action(&reboot_request(iface, RebootTarget::Application), iface);
        assert_eq!(a, ControlOutAction::ResetToFlash);
    }
}

#[test]
fn reboot_target_describes_itself() {
    assert_eq!(RebootTarget::Bootsel.describe(), "BOOTSEL");
    assert_eq!(RebootTarget::Application.describe(), "the application");
    assert_eq!(RebootTarget::Bootsel.request(), 1);
    assert_eq!(RebootTarget::Application.request(), 2);
    assert_eq!(RebootTarget::from_app_flag(true), RebootTarget::Application);
    assert_eq!(RebootTarget::from_app_flag(false), RebootTarget::Bootsel);
}

#[test]
fn first_device_with_the_reset_interface_is_found() {
    let devices = vec![
        DeviceSummary { vendor_id: 0x1234, product_id: 1, interfaces: vec![itf(0xFF, 0x00, 0x02, 0)] },
        DeviceSummary {
            vendor_id: 0x2e8a,
            product_id: 0x000a,
            interfaces: vec![itf(0x02, 0x02, 0x00, 0), itf(0x0A, 0, 0, 1), itf(0xFF, 0x00, 0x01, 2), itf(0xFF, 0, 1, 3)],
        },
        DeviceSummary { vendor_id: 0x9999, product_id: 9, interfaces: vec![itf(0xFF, 0x00, 0x01, 0)] },
    ];
    let (i, t) = find_reset_device(&devices).expect("the second device has it");
    assert_eq!(i, 1);
    assert_eq!(t, ResetTarget { vid: 0x2e8a, pid: 0x000a, interface: 2 });
    assert_eq!(find_reset_device(&devices[..1].to_vec()), None);
    assert_eq!(find_reset_device(&vec![]), None);
}

#[test]
fn reset_target_describes_itself() {
    let t = ResetTarget { vid: 0x2e8a, pid: 0x000a, interface: 2 };
    assert_eq!(t.describe(), "2e8a:000a interface 2");
    let t = ResetTarget { vid: 0xABCD, pid: 0x0f00, interface: 123 };
    assert_eq!(t.describe(), "abcd:0f00 interface 123");
    let t = ResetTarget { vid: 0, pid: 0xffff, interface: 40 };
    assert_eq!(t.describe(), format!("{:04x}:{:04x} interface {}", 0, 0xffff, 40));
}
