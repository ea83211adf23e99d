use vm_device_manager::device_manager::{AddStep, DeviceManager};
use vm_device_manager::storage::{
    block_device_info, block_rootfs_storage, block_volume_storage, is_block_volume, is_single_layer_rootfs,
    mount_is_read_only, storage_driver, volume_driver_options,
};

#[test]
fn device_numbers_split_like_glibc() {
    let info = block_device_info("/h".to_string(), "/c".to_string(), 0x0803, vec![]);
    assert_eq!((info.major, info.minor), (8, 3));
    assert_eq!(info.dev_type, "b");
    let rdev: u64 = (259u64 << 8) | 7;
    let i = block_device_info(String::new(), String::new(), rdev, vec![]);
    assert_eq!((i.major, i.minor), (259, 7));
    let split = block_device_info(String::new(), String::new(), 0x1234_509a_bcd6_78ef, vec![]);
    assert_eq!(split.major, 0x12345678);
    assert_eq!(split.minor, 0x9abcdef);
}

#[test]
fn storage_drivers_follow_block_driver() {
    assert_eq!(storage_driver("virtio-mmio"), "mmioblk");
    assert_eq!(storage_driver("virtio-blk"), "blk");
    assert_eq!(storage_driver("nvdimm"), "");
}

#[test]
fn read_only_mounts_and_options() {
    assert!(mount_is_read_only(&vec!["rw".to_string(), "ro".to_string()]));
    assert!(!mount_is_read_only(&vec!["rbind".to_string()]));
    assert_eq!(volume_driver_options(true), vec![("read_only".to_string(), "true".to_string())]);
    assert!(volume_driver_options(false).is_empty());
    assert!(is_single_layer_rootfs(1));
    assert!(!is_single_layer_rootfs(2));
    assert!(is_block_volume("bind", true));
    assert!(!is_block_volume("bind", false));
    assert!(!is_block_volume("ext4", true));
}

#[test]
fn volume_and_rootfs_storage() {
    let mut m = DeviceManager::new("virtio-mmio").unwrap();
    let mut info = block_device_info("/dev/sdb".to_string(), "/data".to_string(), (8 << 8) | 16, volume_driver_options(true));
    let AddStep { id, request } = m.try_add_device(&mut info).unwrap();
    assert!(request.is_some());
    m.complete_add_device(&id, Ok(None)).unwrap();
    let s = block_volume_storage(&m, &id, "/run/guest/vol", "bind", true);
    assert_eq!(s.driver, "mmioblk");
    assert_eq!(s.source, "/dev/vda");
    assert_eq!(s.fs_type, "ext4");
    assert_eq!(s.options, vec!["ro".to_string()]);
    assert_eq!(s.mount_point, "/run/guest/vol");
    let x = block_volume_storage(&m, &id, "/v", "xfs", false);
    assert_eq!(x.fs_type, "xfs");
    assert!(x.options.is_empty());
    let r = block_rootfs_storage(&m, &id, "/run/rootfs", "ext4".to_string(), vec!["rw".to_string()]);
    assert_eq!(r.mount_point, "/run/rootfs");
    assert_eq!(r.source, "/dev/vda");
    assert_eq!(r.options, vec!["rw".to_string()]);
    let none = block_rootfs_storage(&m, "missing", "/r", "ext4".to_string(), vec![]);
    assert_eq!(none.source, "");
}
