use vm_device_manager::error::DeviceError;
use vm_device_manager::generic::GenericConfig;
use vm_device_manager::sysfs::{get_host_path, host_path_from_devname, resolve_host_path, sysfs_uevent_path, UeventRead};

fn dev(dev_type: &str, major: i64, minor: i64, container_path: &str) -> GenericConfig {
    GenericConfig {
        dev_type: dev_type.to_string(),
        major,
        minor,
        container_path: container_path.to_string(),
        ..Default::default()
    }
}

#[test]
fn uevent_paths_by_device_type() {
    assert_eq!(sysfs_uevent_path(&dev("b", 8, 0, "/dev/sda")), Some("/sys/dev/block/8:0/uevent".to_string()));
    assert_eq!(sysfs_uevent_path(&dev("u", 10, 229, "/dev/fuse")), Some("/sys/dev/char/10:229/uevent".to_string()));
    assert_eq!(sysfs_uevent_path(&dev("c", -1, 3, "/dev/x")), Some("/sys/dev/char/-1:3/uevent".to_string()));
    assert_eq!(sysfs_uevent_path(&dev("p", 1, 1, "/dev/fifo")), None);
    assert_eq!(sysfs_uevent_path(&dev("b", 0, 0, "/dev/sda")), None);
    assert_eq!(sysfs_uevent_path(&dev("b", 8, 0, "")), None);
}

#[test]
fn host_path_comes_from_devname() {
    let text = "MAJOR=8\nMINOR=0\nDEVNAME=sda\nDEVTYPE=disk\n".to_string();
    assert_eq!(get_host_path(&dev("b", 8, 0, "/dev/xvda"), UeventRead::Contents(text)), Ok("/dev/sda".to_string()));
}

#[test]
fn uevent_without_devname_is_malformed() {
    let text = "MAJOR=8\nMINOR=0\n".to_string();
    assert_eq!(get_host_path(&dev("b", 8, 0, "/dev/xvda"), UeventRead::Contents(text)), Err(DeviceError::SysfsMalformed));
    assert_eq!(host_path_from_devname(None), Err(DeviceError::SysfsMalformed));
    assert_eq!(host_path_from_devname(Some("vdb".to_string())), Ok("/dev/vdb".to_string()));
}

#[test]
fn missing_uevent_passes_container_path_through() {
    assert_eq!(get_host_path(&dev("c", 10, 229, "/dev/fuse"), UeventRead::NotFound), Ok("/dev/fuse".to_string()));
}

#[test]
fn unreadable_uevent_is_an_error() {
    assert_eq!(
        get_host_path(&dev("c", 1, 3, "/dev/null"), UeventRead::Failed("permission denied".to_string())),
        Err(DeviceError::SysfsError("permission denied".to_string()))
    );
}

#[test]
fn empty_container_path_and_untyped_devices() {
    assert_eq!(get_host_path(&dev("b", 8, 0, ""), UeventRead::NotFound), Err(DeviceError::EmptyPath));
    assert_eq!(get_host_path(&dev("p", 8, 0, "/dev/fifo"), UeventRead::NotFound), Ok(String::new()));
}

#[test]
fn resolution_only_for_numbered_devices() {
    let mut info = dev("b", 0, 0, "/dev/sda");
    info.host_path = "/img/raw".to_string();
    resolve_host_path(&mut info, UeventRead::NotFound).unwrap();
    assert_eq!(info.host_path, "/img/raw");
    let mut numbered = dev("b", 8, 0, "/dev/sda");
    resolve_host_path(&mut numbered, UeventRead::Contents("DEVNAME=sdz\n".to_string())).unwrap();
    assert_eq!(numbered.host_path, "/dev/sdz");
    let mut broken = dev("b", 8, 0, "/dev/sda");
    assert_eq!(resolve_host_path(&mut broken, UeventRead::Contents("X=1\n".to_string())), Err(DeviceError::SysfsMalformed));
    assert_eq!(broken.host_path, "");
}
