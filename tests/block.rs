use vm_device_manager::block::BlockDevice;
use vm_device_manager::device::{DeviceArgument, DeviceConfig};
use vm_device_manager::generic::GenericConfig;

fn block_info(driver: &str) -> GenericConfig {
    GenericConfig {
        id: "d1".to_string(),
        host_path: "/dev/sdc".to_string(),
        dev_type: "b".to_string(),
        driver_options: vec![("block-driver".to_string(), driver.to_string())],
        ..Default::default()
    }
}

#[test]
fn block_attach_names_guest_path() {
    let mut dev = BlockDevice::new(&block_info("virtio-mmio"));
    let req = dev.attach(DeviceArgument { index: Some(3), drive_name: Some("vdd".to_string()) });
    match req {
        DeviceConfig::Block(c) => {
            assert_eq!(c.id, "d1");
            assert_eq!(c.path_on_host, "/dev/sdc");
            assert_eq!(c.index, 3);
            assert!(!c.is_readonly);
        }
        _ => panic!("not a block request"),
    }
    assert_eq!(dev.get_device_info().virt_path, Some("/dev/vdd".to_string()));
}

#[test]
fn nvdimm_drive_gets_no_guest_path() {
    let mut dev = BlockDevice::new(&block_info("nvdimm"));
    dev.attach(DeviceArgument { index: Some(1), drive_name: Some("vdb".to_string()) });
    assert_eq!(dev.get_device_info().virt_path, None);
    assert_eq!(dev.get_index(), 1);
}
