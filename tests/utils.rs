use vm_device_manager::error::DeviceError;
use vm_device_manager::text::hex_string;
use vm_device_manager::utils::{get_child_threads, get_virt_drive_name, parse_thread_id, virt_drive_name_of};

#[test]
fn test_get_virt_drive_name() {
    for &(input, output) in [
        (0i32, "vda"),
        (25, "vdz"),
        (27, "vdab"),
        (704, "vdaac"),
        (18277, "vdzzz"),
    ]
    .iter()
    {
        let out = get_virt_drive_name(input).unwrap();
        assert_eq!(&out, output);
    }
}

#[test]
fn drive_name_rejects_negative_index() {
    assert_eq!(get_virt_drive_name(-1), Err(DeviceError::NegativeIndex));
}

#[test]
fn drive_name_of_largest_i32_and_ordinal() {
    assert_eq!(get_virt_drive_name(i32::MAX).unwrap(), "vdfxshrxx");
    assert_eq!(virt_drive_name_of(26), "vdaa");
    assert_eq!(virt_drive_name_of(u64::MAX - 1), "vdgkgwbylwrxtlpo");
}

#[test]
fn thread_ids_are_the_numeric_entries() {
    let entries: Vec<String> = vec!["12".to_string(), "self".to_string(), "7".to_string(), "12".to_string(), "+3".to_string(), "".to_string(), "4294967296".to_string()];
    let threads = get_child_threads(&entries);
    let mut ids: Vec<u32> = threads.into_iter().collect();
    ids.sort();
    assert_eq!(ids, vec![3, 7, 12]);
}

#[test]
fn thread_id_parsing_matches_std() {
    for s in ["0", "4294967295", "4294967296", "+", "-1", "1a", "", "+42", "007"] {
        assert_eq!(parse_thread_id(s), s.parse::<u32>().ok(), "{}", s);
    }
}

#[test]
fn hex_rendering_of_ids() {
    assert_eq!(hex_string(0), "0");
    assert_eq!(hex_string(255), "ff");
    assert_eq!(hex_string(u64::MAX), "ffffffffffffffff");
}
