use vm_device_manager::device::DeviceConfig;
use vm_device_manager::device_manager::{new_device_info, AddStep, DeviceManager, LinuxDevice};
use vm_device_manager::error::DeviceError;
use vm_device_manager::generic::{get_option, GenericConfig};
use vm_device_manager::sysfs::{resolve_host_path, UeventRead};

/// A hypervisor that records requests and answers as told.
#[derive(Default)]
struct MockHypervisor {
    adds: Vec<u64>,
    removes: Vec<u64>,
    fail_add: bool,
    fail_remove: bool,
    pci_addr: Option<String>,
}

impl MockHypervisor {
    fn add(&mut self, req: &DeviceConfig) -> Result<Option<String>, String> {
        if let DeviceConfig::Block(c) = req {
            self.adds.push(c.index);
        }
        if self.fail_add {
            Err("hot-plug refused".to_string())
        } else {
            Ok(self.pci_addr.clone())
        }
    }

    fn remove(&mut self, req: &DeviceConfig) -> Result<(), String> {
        if let DeviceConfig::Block(c) = req {
            self.removes.push(c.index);
        }
        if self.fail_remove {
            Err("hot-unplug refused".to_string())
        } else {
            Ok(())
        }
    }
}

fn add(m: &mut DeviceManager, info: &mut GenericConfig, h: &mut MockHypervisor) -> Result<String, DeviceError> {
    let AddStep { id, request } = m.try_add_device(info)?;
    match request {
        Some(req) => {
            let outcome = h.add(&req);
            m.complete_add_device(&id, outcome)
        }
        None => Ok(id),
    }
}

fn remove(m: &mut DeviceManager, id: &str, h: &mut MockHypervisor) -> Result<(), DeviceError> {
    let step = m.try_remove_device(id)?;
    match step.request {
        Some(req) => {
            let outcome = h.remove(&req);
            m.complete_remove_device(id, outcome)
        }
        None => Ok(()),
    }
}

fn block(major: i64, minor: i64, path: &str) -> GenericConfig {
    let mut info = GenericConfig {
        dev_type: "b".to_string(),
        major,
        minor,
        container_path: path.to_string(),
        ..Default::default()
    };
    resolve_host_path(&mut info, UeventRead::NotFound).unwrap();
    info
}

fn index_of(m: &DeviceManager, id: &str) -> Option<u64> {
    m.get_device_by_id(id).and_then(|d| d.get_index())
}

#[test]
fn block_device_is_attached_once_with_first_ordinal() {
    let mut m = DeviceManager::new("virtio-mmio").unwrap();
    let mut h = MockHypervisor::default();
    let mut info = block(8, 0, "/dev/sda");
    assert_eq!(info.host_path, "/dev/sda");
    let id = add(&mut m, &mut info, &mut h).unwrap();
    let dev = m.get_device_by_id(&id).unwrap();
    assert_eq!(dev.get_host_path(), "/dev/sda");
    assert_eq!(dev.get_attach_count(), 1);
    assert_eq!(h.adds, vec![0]);
    assert_eq!(m.get_device_guest_path(&id), Some("/dev/vda".to_string()));
    assert_eq!(info.id, id);
    assert_eq!(get_option(&info.driver_options, "block-driver"), Some("virtio-mmio".to_string()));
}

#[test]
fn shared_device_survives_one_removal() {
    let mut m = DeviceManager::new("virtio-mmio").unwrap();
    let mut h = MockHypervisor::default();
    let id1 = add(&mut m, &mut block(8, 0, "/dev/sda"), &mut h).unwrap();
    let id2 = add(&mut m, &mut block(8, 0, "/dev/sda"), &mut h).unwrap();
    assert_eq!(id1, id2);
    assert_eq!(m.device_count(), 1);
    assert_eq!(m.get_device_by_id(&id1).unwrap().get_attach_count(), 2);
    remove(&mut m, &id1, &mut h).unwrap();
    assert_eq!(m.get_device_by_id(&id1).unwrap().get_attach_count(), 1);
    assert_eq!(h.adds.len(), 1);
    assert_eq!(h.removes.len(), 0);
    remove(&mut m, &id1, &mut h).unwrap();
    assert!(m.get_device_by_id(&id1).is_none());
    assert_eq!(h.removes, vec![0]);
}

#[test]
fn ordinals_are_recycled() {
    let mut m = DeviceManager::new("virtio-mmio").unwrap();
    let mut h = MockHypervisor::default();
    let a = add(&mut m, &mut block(8, 0, "/dev/sda"), &mut h).unwrap();
    let b = add(&mut m, &mut block(8, 16, "/dev/sdb"), &mut h).unwrap();
    assert_eq!(index_of(&m, &a), Some(0));
    assert_eq!(index_of(&m, &b), Some(1));
    remove(&mut m, &a, &mut h).unwrap();
    assert_eq!(m.released_indices(), vec![0]);
    let c = add(&mut m, &mut block(8, 32, "/dev/sdc"), &mut h).unwrap();
    assert_eq!(index_of(&m, &c), Some(0));
    let d = add(&mut m, &mut block(8, 48, "/dev/sdd"), &mut h).unwrap();
    assert_eq!(index_of(&m, &d), Some(2));
    assert_eq!(m.get_device_guest_path(&d), Some("/dev/vdc".to_string()));
    assert_eq!(m.block_index(), 3);
}

#[test]
fn released_ordinals_come_back_largest_first() {
    let mut m = DeviceManager::new("virtio-mmio").unwrap();
    let mut h = MockHypervisor::default();
    let ids: Vec<String> = (0..4).map(|k| add(&mut m, &mut block(8, 16 * k, "/dev/x"), &mut h).unwrap()).collect();
    remove(&mut m, &ids[1], &mut h).unwrap();
    remove(&mut m, &ids[3], &mut h).unwrap();
    remove(&mut m, &ids[0], &mut h).unwrap();
    assert_eq!(m.released_indices(), vec![3, 1, 0]);
    let e = add(&mut m, &mut block(9, 0, "/dev/e"), &mut h).unwrap();
    assert_eq!(index_of(&m, &e), Some(3));
    assert_eq!(m.released_indices(), vec![1, 0]);
    assert_eq!(m.block_index(), 4);
}

#[test]
fn invalid_type_is_refused() {
    let mut m = DeviceManager::new("virtio-mmio").unwrap();
    let mut h = MockHypervisor::default();
    let mut info = GenericConfig {
        dev_type: "x".to_string(),
        container_path: "/dev/x".to_string(),
        ..Default::default()
    };
    assert_eq!(add(&mut m, &mut info, &mut h), Err(DeviceError::InvalidSpec));
    assert_eq!(m.device_count(), 0);
    let mut no_path = GenericConfig { dev_type: "c".to_string(), ..Default::default() };
    assert_eq!(m.try_add_device(&mut no_path).unwrap_err(), DeviceError::InvalidSpec);
    assert_eq!(m.device_count(), 0);
}

#[test]
fn virtio_blk_agent_device_uses_pci_address() {
    let mut m = DeviceManager::new("virtio-blk").unwrap();
    let mut h = MockHypervisor { pci_addr: Some("0000:00:05.0".to_string()), ..Default::default() };
    let id = add(&mut m, &mut block(8, 0, "/dev/sda"), &mut h).unwrap();
    let agent = m.generate_agent_device(&id).unwrap();
    assert_eq!(agent.field_type, "blk");
    assert_eq!(agent.vm_path, "0000:00:05.0");
    assert_eq!(agent.id, id);
    assert_eq!(agent.container_path, "/dev/sda");
}

#[test]
fn virtio_mmio_agent_device_uses_guest_path() {
    let mut m = DeviceManager::new("virtio-mmio").unwrap();
    let mut h = MockHypervisor::default();
    let id = add(&mut m, &mut block(8, 0, "/dev/sda"), &mut h).unwrap();
    let agent = m.generate_agent_device(&id).unwrap();
    assert_eq!(agent.field_type, "mmioblk");
    assert_eq!(agent.vm_path, "/dev/vda");
    assert_eq!(agent.id, id);
}

#[test]
fn failed_hot_plug_is_rolled_back() {
    let mut m = DeviceManager::new("virtio-mmio").unwrap();
    let mut h = MockHypervisor { fail_add: true, ..Default::default() };
    let mut info = block(8, 0, "/dev/sda");
    let step = m.try_add_device(&mut info).unwrap();
    let id = step.id.clone();
    let outcome = h.add(step.request.as_ref().unwrap());
    assert_eq!(m.get_device_by_id(&id).unwrap().get_attach_count(), 1);
    let r = m.complete_add_device(&id, outcome);
    assert_eq!(r, Err(DeviceError::AttachFailed("hot-plug refused".to_string())));
    assert!(m.get_device_by_id(&id).is_none());
    assert_eq!(m.released_indices(), vec![0]);
    assert_eq!(m.device_count(), 0);
}

#[test]
fn failed_hot_unplug_restores_the_count() {
    let mut m = DeviceManager::new("virtio-mmio").unwrap();
    let mut h = MockHypervisor { fail_remove: true, ..Default::default() };
    let id = add(&mut m, &mut block(8, 0, "/dev/sda"), &mut h).unwrap();
    let r = remove(&mut m, &id, &mut h);
    assert_eq!(r, Err(DeviceError::DetachFailed("hot-unplug refused".to_string())));
    assert_eq!(m.get_device_by_id(&id).unwrap().get_attach_count(), 1);
    assert_eq!(m.released_indices(), Vec::<u64>::new());
}

#[test]
fn unsupported_block_driver_is_refused() {
    assert_eq!(DeviceManager::new("nvdimm").unwrap_err(), DeviceError::UnsupportedBlockDriver);
    assert_eq!(DeviceManager::new("virtio-blk").unwrap().get_block_driver(), "virtio-blk");
}

#[test]
fn unknown_ids_are_reported() {
    let mut m = DeviceManager::new("virtio-mmio").unwrap();
    assert_eq!(m.try_remove_device("nope").unwrap_err(), DeviceError::Unknown("nope".to_string()));
    assert_eq!(m.generate_agent_device("nope").unwrap_err(), DeviceError::Unknown("nope".to_string()));
    assert_eq!(m.complete_add_device("nope", Ok(None)), Err(DeviceError::Unknown("nope".to_string())));
    assert_eq!(m.complete_remove_device("nope", Ok(())), Err(DeviceError::Unknown("nope".to_string())));
    assert_eq!(m.get_device_guest_path("nope"), None);
}

#[test]
fn detaching_device_cannot_be_removed_again() {
    let mut m = DeviceManager::new("virtio-mmio").unwrap();
    let mut h = MockHypervisor::default();
    let id = add(&mut m, &mut block(8, 0, "/dev/sda"), &mut h).unwrap();
    let step = m.try_remove_device(&id).unwrap();
    assert!(step.request.is_some());
    assert_eq!(m.try_remove_device(&id).unwrap_err(), DeviceError::NotAttached);
    assert_eq!(m.complete_add_device(&id, Ok(None)), Err(DeviceError::Unknown(id.clone())));
    m.complete_remove_device(&id, Ok(())).unwrap();
    assert_eq!(m.released_indices(), vec![0]);
}

#[test]
fn char_devices_need_no_hot_plug() {
    let mut m = DeviceManager::new("virtio-mmio").unwrap();
    let mut h = MockHypervisor::default();
    let mut info = GenericConfig {
        dev_type: "c".to_string(),
        container_path: "/dev/fuse".to_string(),
        major: 10,
        minor: 229,
        ..Default::default()
    };
    resolve_host_path(&mut info, UeventRead::NotFound).unwrap();
    let step = m.try_add_device(&mut info).unwrap();
    assert!(step.request.is_none());
    let id = step.id;
    assert_eq!(m.get_device_by_id(&id).unwrap().get_attach_count(), 1);
    assert_eq!(m.get_device_by_id(&id).unwrap().get_index(), None);
    assert_eq!(m.block_index(), 0);
    let agent = m.generate_agent_device(&id).unwrap();
    assert_eq!(agent.container_path, "/dev/fuse");
    assert_eq!(agent.field_type, "");
    assert_eq!(agent.id, "");
    remove(&mut m, &id, &mut h).unwrap();
    assert_eq!(m.device_count(), 0);
    assert!(h.adds.is_empty() && h.removes.is_empty());
}

#[test]
fn lookup_by_bdf_and_host_path() {
    let mut m = DeviceManager::new("virtio-mmio").unwrap();
    let mut h = MockHypervisor::default();
    let mut vfio1 = GenericConfig {
        dev_type: "c".to_string(),
        container_path: "/dev/vfio/1".to_string(),
        major: -1,
        minor: -1,
        bdf: Some("0000:01:00.0".to_string()),
        ..Default::default()
    };
    let mut vfio2 = GenericConfig { container_path: "/dev/vfio/2".to_string(), ..vfio1_clone(&vfio1) };
    let a = add(&mut m, &mut vfio1, &mut h).unwrap();
    let b = add(&mut m, &mut vfio2, &mut h).unwrap();
    assert_eq!(a, b);
    let mut raw1 = GenericConfig {
        dev_type: "b".to_string(),
        container_path: "/disk".to_string(),
        host_path: "/img/disk.raw".to_string(),
        major: -1,
        minor: -1,
        ..Default::default()
    };
    let mut raw2 = GenericConfig { container_path: "/other".to_string(), ..vfio1_clone(&raw1) };
    let c = add(&mut m, &mut raw1, &mut h).unwrap();
    let d = add(&mut m, &mut raw2, &mut h).unwrap();
    assert_eq!(c, d);
    assert_ne!(a, c);
    assert_eq!(m.device_count(), 2);
    assert_eq!(h.adds.len(), 1);
}

fn vfio1_clone(c: &GenericConfig) -> GenericConfig {
    c.duplicate()
}

#[test]
fn minting_takes_first_free_draw() {
    let mut m = DeviceManager::new("virtio-mmio").unwrap();
    let mut h = MockHypervisor::default();
    assert_eq!(m.device_id_from_draws(&vec![]), Err(DeviceError::IdExhausted));
    assert_eq!(m.device_id_from_draws(&vec![255]), Ok("ff".to_string()));
    let id = add(&mut m, &mut block(8, 0, "/dev/sda"), &mut h).unwrap();
    let taken = u64::from_str_radix(&id, 16).unwrap();
    assert_eq!(m.device_id_from_draws(&vec![taken, taken, 10]), Ok("a".to_string()));
    assert_eq!(m.device_id_from_draws(&vec![taken; 5]), Err(DeviceError::IdExhausted));
    assert_eq!(m.device_id_from_draws(&vec![taken, taken, taken, taken, taken, 1]), Err(DeviceError::IdExhausted));
    let fresh = m.new_device_id().unwrap();
    assert_ne!(fresh, id);
}

#[test]
fn device_info_from_container_spec() {
    let dev = LinuxDevice {
        path: "/dev/sda".to_string(),
        dev_type: "b".to_string(),
        major: 8,
        minor: 0,
        file_mode: Some(0o660),
        uid: None,
        gid: Some(6),
    };
    let info = new_device_info(&dev, None, None).unwrap();
    assert_eq!(info.container_path, "/dev/sda");
    assert_eq!(info.file_mode, 0o660);
    assert_eq!(info.uid, 0);
    assert_eq!(info.gid, 6);
    assert_eq!(info.host_path, "");
    let bad = LinuxDevice { dev_type: "x".to_string(), ..LinuxDevice { path: "/dev/a".to_string(), ..Default::default() } };
    assert_eq!(new_device_info(&bad, None, None).unwrap_err(), DeviceError::InvalidSpec);
    let empty = LinuxDevice { dev_type: "p".to_string(), ..Default::default() };
    assert_eq!(new_device_info(&empty, None, None).unwrap_err(), DeviceError::InvalidSpec);
}

#[test]
fn ids_and_ordinals_stay_distinct() {
    let mut m = DeviceManager::new("virtio-mmio").unwrap();
    let mut h = MockHypervisor::default();
    let mut ids = Vec::new();
    for k in 0..6 {
        ids.push(add(&mut m, &mut block(8, 16 * k, "/dev/sd"), &mut h).unwrap());
    }
    remove(&mut m, &ids[2], &mut h).unwrap();
    remove(&mut m, &ids[4], &mut h).unwrap();
    ids.push(add(&mut m, &mut block(9, 0, "/dev/n0"), &mut h).unwrap());
    ids.push(add(&mut m, &mut block(9, 1, "/dev/n1"), &mut h).unwrap());
    ids.push(add(&mut m, &mut block(9, 2, "/dev/n2"), &mut h).unwrap());
    let live: Vec<&String> = ids.iter().filter(|id| m.get_device_by_id(id).is_some()).collect();
    assert_eq!(live.len(), 7);
    let mut seen_ids: Vec<&String> = live.clone();
    seen_ids.sort();
    seen_ids.dedup();
    assert_eq!(seen_ids.len(), 7);
    let mut ords: Vec<u64> = live.iter().map(|id| index_of(&m, id).unwrap()).collect();
    ords.sort();
    assert_eq!(ords, vec![0, 1, 2, 3, 4, 5, 6]);
}

#[test]
fn registration_mints_from_given_draws() {
    let mut m = DeviceManager::new("virtio-mmio").unwrap();
    let mut a = block(8, 0, "/dev/sda");
    assert_eq!(m.try_add_device_from_draws(&mut a, &vec![]).unwrap_err(), DeviceError::IdExhausted);
    assert_eq!(m.device_count(), 0);
    assert_eq!(m.block_index(), 0);
    let step = m.try_add_device_from_draws(&mut a, &vec![255]).unwrap();
    assert_eq!(step.id, "ff");
    assert_eq!(a.id, "ff");
    let mut b = block(8, 16, "/dev/sdb");
    let step_b = m.try_add_device_from_draws(&mut b, &vec![255, 4096]).unwrap();
    assert_eq!(step_b.id, "1000");
    let mut again = block(8, 0, "/dev/sda");
    let step_again = m.try_add_device_from_draws(&mut again, &vec![]).unwrap();
    assert_eq!(step_again.id, "ff");
    assert!(step_again.request.is_none());
}

#[test]
fn registration_waits_for_pending_hot_unplug() {
    let mut m = DeviceManager::new("virtio-mmio").unwrap();
    let mut h = MockHypervisor::default();
    let id = add(&mut m, &mut block(8, 0, "/dev/sda"), &mut h).unwrap();
    let step = m.try_remove_device(&id).unwrap();
    assert!(step.request.is_some());
    assert_eq!(m.try_add_device(&mut block(8, 0, "/dev/sda")).unwrap_err(), DeviceError::DetachPending);
    assert_eq!(m.device_count(), 1);
    m.complete_remove_device(&id, Ok(())).unwrap();
    let id2 = add(&mut m, &mut block(8, 0, "/dev/sda"), &mut h).unwrap();
    assert_eq!(m.get_device_by_id(&id2).unwrap().get_attach_count(), 1);
    assert_eq!(h.adds, vec![0, 0]);
}
