use drooling::ms_os_20::{
    update_interface_number, BOS_DESCRIPTOR, FUNCTION_SUBSET_FIRST_INTERFACE_OFFSET, MS_OS_20_DESCRIPTOR_SET,
    MS_OS_20_DESC_SET_LEN, MS_OS_20_PLATFORM_UUID, MS_OS_20_VENDOR_CODE,
};

fn u16_at(desc: &[u8], offset: usize) -> u16 {
    u16::from_le_bytes([desc[offset], desc[offset + 1]])
}

/// Walks the whole set by the same rules as Windows' MS OS 2.0 validator:
/// each subset length includes its own header, and descendants must fit
/// inside their parent.
#[test]
fn descriptor_set_lengths_are_consistent() {
    let desc = MS_OS_20_DESCRIPTOR_SET;

    assert_eq!(u16_at(&desc, 0), 10, "set header wLength");
    assert_eq!(u16_at(&desc, 2), 0x00, "set header wDescriptorType");
    assert_eq!(u16_at(&desc, 8) as usize, desc.len(), "set total length");

    let config_start = 10;
    assert_eq!(u16_at(&desc, config_start), 8, "config subset wLength");
    assert_eq!(u16_at(&desc, config_start + 2), 0x01, "config subset type");
    let config_total = u16_at(&desc, config_start + 6) as usize;
    assert_eq!(config_start + config_total, desc.len(), "config subset spans rest of set");

    let func_start = config_start + 8;
    assert_eq!(u16_at(&desc, func_start), 8, "function subset wLength");
    assert_eq!(u16_at(&desc, func_start + 2), 0x02, "function subset type");
    let func_total = u16_at(&desc, func_start + 6) as usize;
    assert_eq!(func_start + func_total, desc.len(), "function subset spans rest of config subset");

    let compat_start = func_start + 8;
    assert_eq!(u16_at(&desc, compat_start), 20, "compatible ID wLength");
    assert_eq!(u16_at(&desc, compat_start + 2), 0x03, "compatible ID type");
    assert_eq!(&desc[compat_start + 4..compat_start + 12], b"WINUSB\0\0");

    let reg_start = compat_start + 20;
    let reg_len = u16_at(&desc, reg_start) as usize;
    assert_eq!(u16_at(&desc, reg_start + 2), 0x04, "registry property type");
    assert_eq!(reg_start + reg_len, desc.len(), "registry property ends exactly at set end");

    let name_len = u16_at(&desc, reg_start + 6) as usize;
    let data_len_off = reg_start + 8 + name_len;
    let data_len = u16_at(&desc, data_len_off) as usize;
    assert_eq!(reg_len, 8 + name_len + 2 + data_len, "registry property internal lengths");
}

#[test]
fn bos_platform_capability_references_set_length() {
    assert_eq!(BOS_DESCRIPTOR.len(), 33);
    assert_eq!(u16_at(&BOS_DESCRIPTOR, 2) as usize, BOS_DESCRIPTOR.len(), "BOS wTotalLength");
    let set_len_in_bos = u16_at(&BOS_DESCRIPTOR, 29) as usize;
    assert_eq!(set_len_in_bos, MS_OS_20_DESCRIPTOR_SET.len(), "wMSOSDescriptorSetTotalLength");
}

#[test]
fn update_interface_number_patches_function_subset() {
    let patched = update_interface_number(2);
    assert_eq!(patched[FUNCTION_SUBSET_FIRST_INTERFACE_OFFSET], 2);
    assert_eq!(u16_at(&patched, 26), 20, "compatible ID wLength must stay intact");
}

#[test]
fn update_interface_number_changes_only_the_first_interface_byte() {
    for n in [0u8, 1, 7, 255] {
        let patched = update_interface_number(n);
        for i in 0..patched.len() {
            if i == FUNCTION_SUBSET_FIRST_INTERFACE_OFFSET {
                assert_eq!(patched[i], n);
            } else {
                assert_eq!(patched[i], MS_OS_20_DESCRIPTOR_SET[i], "byte {i}");
            }
        }
    }
}

#[test]
fn bos_carries_uuid_vendor_code_and_set_length() {
    assert_eq!(&BOS_DESCRIPTOR[9..25], &MS_OS_20_PLATFORM_UUID);
    assert_eq!(BOS_DESCRIPTOR[31], MS_OS_20_VENDOR_CODE);
    assert_eq!(u16_at(&BOS_DESCRIPTOR, 29), MS_OS_20_DESC_SET_LEN);
    assert_eq!(MS_OS_20_DESCRIPTOR_SET.len(), 174);
}
