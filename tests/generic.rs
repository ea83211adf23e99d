use vm_device_manager::error::DeviceError;
use vm_device_manager::generic::{get_option, set_option, GenericConfig, GenericDevice};

#[test]
fn test_increase_attach_count() {
    let data = vec![
        (0, 1, false, false),
        (1, 2, true, false),
        (u64::MAX, u64::MAX, true, true),
    ];
    for (attach_count, expected_ac, expect_skip, expect_err) in data.into_iter() {
        let mut dev = GenericDevice::restore(&GenericConfig::default(), attach_count);
        let ret = dev.increase_attach_count();
        if expect_err {
            assert!(ret.is_err());
        } else {
            let skip = ret.unwrap();
            assert_eq!(skip, expect_skip);
        }
        assert_eq!(dev.get_attach_count(), expected_ac);
    }
}

#[test]
fn test_decrease_attach_count() {
    let data = vec![
        (0, 0, true, true),
        (1, 0, false, false),
        (u64::MAX, u64::MAX - 1, true, false),
    ];
    for (attach_count, expected_ac, expect_skip, expect_err) in data.into_iter() {
        let mut dev = GenericDevice::restore(&GenericConfig::default(), attach_count);
        let ret = dev.decrease_attach_count();
        if expect_err {
            assert!(ret.is_err());
        } else {
            let skip = ret.unwrap();
            assert_eq!(skip, expect_skip);
        }
        assert_eq!(dev.get_attach_count(), expected_ac);
    }
}

#[test]
fn increase_next_to_the_top() {
    let mut dev = GenericDevice::restore(&GenericConfig::default(), u64::MAX - 1);
    assert_eq!(dev.increase_attach_count(), Ok(true));
    assert_eq!(dev.get_attach_count(), u64::MAX);
    assert_eq!(dev.increase_attach_count(), Err(DeviceError::AttachOverflow));
    assert_eq!(dev.get_attach_count(), u64::MAX);
}

#[test]
fn detaching_unattached_device_fails() {
    let mut dev = GenericDevice::new(&GenericConfig::default());
    assert_eq!(dev.decrease_attach_count(), Err(DeviceError::NotAttached));
    assert_eq!(dev.get_attach_count(), 0);
}

#[test]
fn new_device_copies_config() {
    let info = GenericConfig {
        id: "abc".to_string(),
        host_path: "/dev/sdb".to_string(),
        major: 8,
        minor: 16,
        bdf: Some("0000:01:00.0".to_string()),
        ..Default::default()
    };
    let dev = GenericDevice::new(&info);
    assert_eq!(dev.device_id(), "abc");
    assert_eq!(dev.get_host_path(), "/dev/sdb");
    assert_eq!(dev.get_major_minor(), (8, 16));
    assert_eq!(dev.get_bdf(), Some(&"0000:01:00.0".to_string()));
    assert_eq!(dev.get_device_info().id, "abc");
}

#[test]
fn driver_options_bind_one_value_per_key() {
    let mut opts: Vec<(String, String)> = vec![("a".to_string(), "1".to_string())];
    set_option(&mut opts, "block-driver".to_string(), "virtio-mmio".to_string());
    set_option(&mut opts, "block-driver".to_string(), "nvdimm".to_string());
    assert_eq!(opts.len(), 2);
    assert_eq!(get_option(&opts, "block-driver"), Some("nvdimm".to_string()));
    assert_eq!(get_option(&opts, "a"), Some("1".to_string()));
    assert_eq!(get_option(&opts, "b"), None);
}
