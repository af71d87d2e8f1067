//! Microsoft OS 2.0 Descriptors
//!
//! Windows-specific descriptors required for automatic WinUSB driver loading.
use vstd::prelude::*;

verus! {

/// MS OS 2.0 Platform Capability UUID
/// {D8DD60DF-4589-4CC7-9CD2-659D9E648A9F}
pub const MS_OS_20_PLATFORM_UUID: [u8; 16] = [
    0xDF, 0x60, 0xDD, 0xD8, 0x89, 0x45, 0xC7, 0x4C,
    0x9C, 0xD2, 0x65, 0x9D, 0x9E, 0x64, 0x8A, 0x9F,
];

/// Vendor code for MS OS 2.0 descriptor requests
pub const MS_OS_20_VENDOR_CODE: u8 = 1;

/// MS OS 2.0 Descriptor Set Total Length
pub const MS_OS_20_DESC_SET_LEN: u16 = 174;

/// BOS (Binary Object Store) Descriptor
///
/// Total length: 5 (header) + 28 (platform capability) = 33 bytes
pub const BOS_DESCRIPTOR: [u8; 33] = [
    // BOS Descriptor Header (5 bytes)
    5,      // bLength
    0x0F,   // bDescriptorType: BOS
    33, 0,  // wTotalLength: 33 bytes (little-endian)
    1,      // bNumDeviceCaps: 1 capability

    // MS OS 2.0 Platform Capability Descriptor (28 bytes)
    28,     // bLength
    0x10,   // bDescriptorType: Device Capability
    0x05,   // bDevCapabilityType: Platform
    0x00,   // bReserved

    // MS OS 2.0 Platform Capability UUID (16 bytes)
    0xDF, 0x60, 0xDD, 0xD8, 0x89, 0x45, 0xC7, 0x4C,
    0x9C, 0xD2, 0x65, 0x9D, 0x9E, 0x64, 0x8A, 0x9F,

    // dwWindowsVersion: 0x06030000 (Windows 8.1 and later)
    0x00, 0x00, 0x03, 0x06,

    // wMSOSDescriptorSetTotalLength: 174 bytes
    0xAE, 0x00,

    // bMS_VendorCode: 1 (used in vendor request)
    MS_OS_20_VENDOR_CODE,

    // bAltEnumCode: 0
    0x00,
];

/// MS OS 2.0 Descriptor Set (174 bytes)
///
/// Provides WinUSB compatible ID and device interface GUID
/// for automatic driver loading on Windows.
pub const MS_OS_20_DESCRIPTOR_SET: [u8; 174] = [
    // Microsoft OS 2.0 descriptor set header (10 bytes)
    0x0A, 0x00,             // wLength: 10
    0x00, 0x00,             // wDescriptorType: MS_OS_20_SET_HEADER_DESCRIPTOR
    0x00, 0x00, 0x03, 0x06, // dwWindowsVersion: 0x06030000 (Windows 8.1)
    0xAE, 0x00,             // wTotalLength: 174

    // Microsoft OS 2.0 configuration subset header (8 bytes)
    // wTotalLength includes this header: 8 + 156 (function subset) = 164
    0x08, 0x00,             // wLength: 8
    0x01, 0x00,             // wDescriptorType: MS_OS_20_SUBSET_HEADER_CONFIGURATION
    0x00,                   // bConfigurationValue: 0 (first config)
    0x00,                   // bReserved
    0xA4, 0x00,             // wTotalLength: 164

    // Microsoft OS 2.0 function subset header (8 bytes)
    // wSubsetLength includes this header: 8 + 20 (compatible ID) + 128 (registry property) = 156
    0x08, 0x00,             // wLength: 8
    0x02, 0x00,             // wDescriptorType: MS_OS_20_SUBSET_HEADER_FUNCTION
    0x00,                   // bFirstInterface: 0 (will be updated based on actual interface)
    0x00,                   // bReserved
    0x9C, 0x00,             // wSubsetLength: 156

    // Microsoft OS 2.0 compatible ID descriptor (20 bytes)
    0x14, 0x00,             // wLength: 20
    0x03, 0x00,             // wDescriptorType: MS_OS_20_FEATURE_COMPATIBLE_ID

    // Compatible ID: "WINUSB\0\0" (8 bytes)
    0x57, 0x49, 0x4E, 0x55, 0x53, 0x42, 0x00, 0x00,

    // Sub-compatible ID: empty (8 bytes)
    0x00, 0x00, 0x00, 0x00, 0x00, 0x00, 0x00, 0x00,

    // Microsoft OS 2.0 registry property descriptor (128 bytes)
    0x80, 0x00,             // wLength: 128
    0x04, 0x00,             // wDescriptorType: MS_OS_20_FEATURE_REG_PROPERTY
    0x01, 0x00,             // wPropertyDataType: REG_SZ (Unicode string)
    0x28, 0x00,             // wPropertyNameLength: 40

    // Property name: "DeviceInterfaceGUID" in UTF-16LE (40 bytes)
    0x44, 0, 0x65, 0, 0x76, 0, 0x69, 0, 0x63, 0, 0x65, 0,
    0x49, 0, 0x6E, 0, 0x74, 0, 0x65, 0, 0x72, 0, 0x66, 0,
    0x61, 0, 0x63, 0, 0x65, 0, 0x47, 0, 0x55, 0, 0x49, 0,
    0x44, 0, 0x00, 0x00,

    0x4E, 0x00,             // wPropertyDataLength: 78

    // Property value: "{bc7398c1-73cd-4cb7-98b8-913a8fca7bf6}" in UTF-16LE (78 bytes)
    0x7B, 0, 0x62, 0, 0x63, 0, 0x37, 0, 0x33, 0, 0x39, 0,
    0x38, 0, 0x63, 0, 0x31, 0, 0x2D, 0, 0x37, 0, 0x33, 0,
    0x63, 0, 0x64, 0, 0x2D, 0, 0x34, 0, 0x63, 0, 0x62, 0,
    0x37, 0, 0x2D, 0, 0x39, 0, 0x38, 0, 0x62, 0, 0x38, 0,
    0x2D, 0, 0x39, 0, 0x31, 0, 0x33, 0, 0x61, 0, 0x38, 0,
    0x66, 0, 0x63, 0, 0x61, 0, 0x37, 0, 0x62, 0, 0x66, 0,
    0x36, 0, 0x7D, 0, 0x00, 0x00,
];

/// bFirstInterface offset: set header (10) + configuration subset (8)
/// + function subset wLength (2) + wDescriptorType (2) = 22
pub const FUNCTION_SUBSET_FIRST_INTERFACE_OFFSET: usize = 22;

/// Update MS OS 2.0 descriptor set with correct interface number
pub fn update_interface_number(interface_num: u8) -> (desc: [u8; 174])
    ensures
        desc@ == MS_OS_20_DESCRIPTOR_SET@.update(FUNCTION_SUBSET_FIRST_INTERFACE_OFFSET as int, interface_num),
{
    let mut desc = MS_OS_20_DESCRIPTOR_SET;
    desc[FUNCTION_SUBSET_FIRST_INTERFACE_OFFSET] = interface_num;
    desc
}

/// The little-endian 16-bit field of `d` at `offset`.
pub open spec fn le_u16_at(d: Seq<u8>, offset: int) -> int {
    d[offset] + 256 * d[offset + 1]
}

/// Offset of the registry property descriptor in the descriptor set:
/// set header (10) + configuration subset header (8) + function subset
/// header (8) + compatible ID descriptor (20).
pub open spec fn registry_property_offset() -> int {
    46
}

/// The layout rules that Windows applies to an MS OS 2.0 descriptor set:
/// each header carries its own length and type, every subset length includes
/// its header, and each descendant ends inside its parent.
pub open spec fn descriptor_set_well_formed(d: Seq<u8>) -> bool {
    let reg = registry_property_offset();
    let name_len = le_u16_at(d, reg + 6);
    &&& d.len() == 174
    // set header
    &&& le_u16_at(d, 0) == 10
    &&& le_u16_at(d, 2) == 0
    &&& le_u16_at(d, 8) == d.len()
    // configuration subset header, spanning the rest of the set
    &&& le_u16_at(d, 10) == 8
    &&& le_u16_at(d, 12) == 1
    &&& 10 + le_u16_at(d, 16) == d.len()
    // function subset header, spanning the rest of the configuration subset
    &&& le_u16_at(d, 18) == 8
    &&& le_u16_at(d, 20) == 2
    &&& 18 + le_u16_at(d, 24) == d.len()
    // compatible ID descriptor naming WinUSB
    &&& le_u16_at(d, 26) == 20
    &&& le_u16_at(d, 28) == 3
    &&& d.subrange(30, 38) == seq![0x57u8, 0x49, 0x4E, 0x55, 0x53, 0x42, 0x00, 0x00]
    // registry property descriptor, ending exactly at the end of the set
    &&& le_u16_at(d, reg + 2) == 4
    &&& reg + le_u16_at(d, reg) == d.len()
    &&& le_u16_at(d, reg) == 8 + name_len + 2 + le_u16_at(d, reg + 8 + name_len)
}

/// The descriptor set is well formed whatever interface number is patched in.
pub proof fn lemma_patched_set_well_formed(interface_num: u8)
    ensures
        descriptor_set_well_formed(
            MS_OS_20_DESCRIPTOR_SET@.update(FUNCTION_SUBSET_FIRST_INTERFACE_OFFSET as int, interface_num),
        ),
{
    let d = MS_OS_20_DESCRIPTOR_SET@.update(FUNCTION_SUBSET_FIRST_INTERFACE_OFFSET as int, interface_num);
    assert(d.subrange(30, 38) =~= seq![0x57u8, 0x49, 0x4E, 0x55, 0x53, 0x42, 0x00, 0x00]);
}

/// The BOS descriptor's total length is its own length, and its platform
/// capability names the descriptor set's length, the platform UUID and the
/// vendor code.
pub proof fn lemma_bos_references_descriptor_set()
    ensures
        BOS_DESCRIPTOR@.len() == 33,
        le_u16_at(BOS_DESCRIPTOR@, 2) == BOS_DESCRIPTOR@.len(),
        le_u16_at(BOS_DESCRIPTOR@, 29) == MS_OS_20_DESCRIPTOR_SET@.len(),
        le_u16_at(BOS_DESCRIPTOR@, 29) == MS_OS_20_DESC_SET_LEN,
        BOS_DESCRIPTOR@.subrange(9, 25) == MS_OS_20_PLATFORM_UUID@,
        BOS_DESCRIPTOR@[31] == MS_OS_20_VENDOR_CODE,
{
    assert(BOS_DESCRIPTOR@.subrange(9, 25) =~= MS_OS_20_PLATFORM_UUID@);
}

} // verus!
