use crate::device_manager::{blk_type, mmioblk_type, position_of_id, virtio_blk, virtio_mmio, DeviceManager};
use crate::generic::{GenericConfig, GenericConfigView};
use crate::text::{str_eq, string_of};
use vstd::prelude::*;

verus! {

/// The major number that a Linux device number encodes.
pub open spec fn dev_major(dev: u64) -> u64 {
    ((dev >> 32u64) & 0xffff_f000u64) | ((dev >> 8u64) & 0x0000_0fffu64)
}

/// The minor number that a Linux device number encodes.
pub open spec fn dev_minor(dev: u64) -> u64 {
    ((dev >> 12u64) & 0xffff_ff00u64) | (dev & 0x0000_00ffu64)
}

/// Relies on `nix::sys::stat::major`, which computes exactly this.
pub assume_specification[ nix::sys::stat::major ](dev: nix::libc::dev_t) -> (r: u64)
    ensures
        r == dev_major(dev),
;

/// Relies on `nix::sys::stat::minor`, which computes exactly this.
pub assume_specification[ nix::sys::stat::minor ](dev: nix::libc::dev_t) -> (r: u64)
    ensures
        r == dev_minor(dev),
;

/// A storage that the guest agent mounts.
#[derive(Debug, Default)]
pub struct Storage {
    /// How the agent finds the device: `mmioblk`, `blk`, or empty.
    pub driver: String,
    /// The guest path of the device.
    pub source: String,
    pub fs_type: String,
    pub options: Vec<String>,
    pub mount_point: String,
}

/// What a [`Storage`] holds.
pub struct StorageView {
    pub driver: Seq<char>,
    pub source: Seq<char>,
    pub fs_type: Seq<char>,
    pub options: Seq<Seq<char>>,
    pub mount_point: Seq<char>,
}

impl View for Storage {
    type V = StorageView;

    open spec fn view(&self) -> StorageView {
        StorageView {
            driver: self.driver@,
            source: self.source@,
            fs_type: self.fs_type@,
            options: self.options.deep_view(),
            mount_point: self.mount_point@,
        }
    }
}

/// The storage driver for a sandbox's block driver.
pub open spec fn storage_driver_of(block_driver: Seq<char>) -> Seq<char> {
    if block_driver == virtio_mmio() {
        mmioblk_type()
    } else if block_driver == virtio_blk() {
        blk_type()
    } else {
        Seq::empty()
    }
}

/// The storage driver for a sandbox's block driver: `mmioblk` under
/// virtio-mmio, `blk` under virtio-blk.
pub fn storage_driver(block_driver: &str) -> (r: String)
    ensures
        r@ == storage_driver_of(block_driver@),
{
    proof {
        reveal_strlit("virtio-mmio");
        reveal_strlit("virtio-blk");
        reveal_strlit("mmioblk");
        reveal_strlit("blk");
    }
    assert("virtio-mmio"@ =~= virtio_mmio());
    assert("virtio-blk"@ =~= virtio_blk());
    assert("mmioblk"@ =~= mmioblk_type());
    assert("blk"@ =~= blk_type());
    if str_eq(block_driver, "virtio-mmio") {
        string_of("mmioblk")
    } else if str_eq(block_driver, "virtio-blk") {
        string_of("blk")
    } else {
        String::new()
    }
}

/// The descriptor of a block device with device number `rdev` that backs a
/// rootfs or a volume.
pub fn block_device_info(
    host_path: String,
    container_path: String,
    rdev: u64,
    driver_options: Vec<(String, String)>,
) -> (r: GenericConfig)
    ensures
        r@ == (GenericConfigView {
            host_path: host_path@,
            container_path: container_path@,
            dev_type: seq!['b'],
            major: dev_major(rdev) as i64,
            minor: dev_minor(rdev) as i64,
            file_mode: 0,
            uid: 0,
            gid: 0,
            id: Seq::empty(),
            bdf: None,
            driver_options: driver_options.deep_view(),
            io_limits: None,
            pci_addr: None,
            virt_path: None,
        }),
        r.major >= 0,
        r.minor >= 0,
{
    let major = nix::sys::stat::major(rdev);
    let minor = nix::sys::stat::minor(rdev);
    assert(major <= 0xffff_ffffu64) by (bit_vector)
        requires
            major == ((rdev >> 32u64) & 0xffff_f000u64) | ((rdev >> 8u64) & 0x0000_0fffu64),
    ;
    assert(minor <= 0xffff_ffffu64) by (bit_vector)
        requires
            minor == ((rdev >> 12u64) & 0xffff_ff00u64) | (rdev & 0x0000_00ffu64),
    ;
    proof {
        reveal_strlit("b");
    }
    let dev_type = string_of("b");
    assert(dev_type@ =~= seq!['b']);
    GenericConfig {
        host_path,
        container_path,
        dev_type,
        major: major as i64,
        minor: minor as i64,
        file_mode: 0,
        uid: 0,
        gid: 0,
        id: String::new(),
        bdf: None,
        driver_options,
        io_limits: None,
        pci_addr: None,
        virt_path: None,
    }
}

/// `ro`
pub open spec fn read_only_option() -> Seq<char> {
    seq!['r', 'o']
}

/// Whether the mount options ask for a read-only mount: one of them is `ro`.
pub fn mount_is_read_only(options: &Vec<String>) -> (r: bool)
    ensures
        r == options.deep_view().contains(read_only_option()),
{
    proof {
        reveal_strlit("ro");
    }
    assert("ro"@ =~= read_only_option());
    let mut i: usize = 0;
    while i < options.len()
        invariant
            i <= options@.len(),
            "ro"@ == read_only_option(),
            forall|j: int| 0 <= j < i ==> options.deep_view()[j] != read_only_option(),
        decreases options@.len() - i,
    {
        assert(options.deep_view()[i as int] == options@[i as int]@);
        if str_eq(options[i].as_str(), "ro") {
            assert(options.deep_view()[i as int] == read_only_option());
            return true;
        }
        i = i + 1;
    }
    false
}

/// The driver options of a block volume: `read_only` set to `true` for a
/// read-only one, none otherwise.
pub fn volume_driver_options(read_only: bool) -> (r: Vec<(String, String)>)
    ensures
        read_only ==> r.deep_view() == seq![
            (
                seq!['r', 'e', 'a', 'd', '_', 'o', 'n', 'l', 'y'],
                seq!['t', 'r', 'u', 'e'],
            ),
        ],
        !read_only ==> r.deep_view() == Seq::<(Seq<char>, Seq<char>)>::empty(),
{
    let mut options: Vec<(String, String)> = Vec::new();
    if read_only {
        proof {
            reveal_strlit("read_only");
            reveal_strlit("true");
        }
        assert("read_only"@ =~= seq!['r', 'e', 'a', 'd', '_', 'o', 'n', 'l', 'y']);
        assert("true"@ =~= seq!['t', 'r', 'u', 'e']);
        options.push((string_of("read_only"), string_of("true")));
        assert(options.deep_view()[0] == (options@[0].0@, options@[0].1@));
    }
    assert(options.deep_view() =~= if read_only {
        seq![(seq!['r', 'e', 'a', 'd', '_', 'o', 'n', 'l', 'y'], seq!['t', 'r', 'u', 'e'])]
    } else {
        Seq::<(Seq<char>, Seq<char>)>::empty()
    });
    options
}

/// A rootfs given as exactly one mount is a single-layer rootfs.
pub fn is_single_layer_rootfs(mount_count: usize) -> (r: bool)
    ensures
        r == (mount_count == 1),
{
    mount_count == 1
}

/// `bind`
pub open spec fn bind_type() -> Seq<char> {
    seq!['b', 'i', 'n', 'd']
}

/// `ext4`
pub open spec fn ext4_type() -> Seq<char> {
    seq!['e', 'x', 't', '4']
}

/// A volume is block-backed when it is a bind mount whose source is a block
/// device.
pub fn is_block_volume(mount_type: &str, source_is_block_device: bool) -> (r: bool)
    ensures
        r == (mount_type@ == bind_type() && source_is_block_device),
{
    proof {
        reveal_strlit("bind");
    }
    assert("bind"@ =~= bind_type());
    str_eq(mount_type, "bind") && source_is_block_device
}

/// The guest path of the device with this id, or an empty string.
fn guest_source(manager: &DeviceManager, device_id: &str) -> (r: String)
    ensures
        match position_of_id(manager@.devices, device_id@) {
            Some(i) => r@ == match manager@.devices[i].base.info.virt_path {
                Some(p) => p,
                None => Seq::empty(),
            },
            None => r@ == Seq::<char>::empty(),
        },
{
    match manager.get_device_guest_path(device_id) {
        Some(p) => p,
        None => String::new(),
    }
}

/// The guest source of a device: its guest path, or empty.
pub open spec fn guest_source_of(manager: crate::device_manager::ManagerView, device_id: Seq<char>) -> Seq<char> {
    match position_of_id(manager.devices, device_id) {
        Some(i) => match manager.devices[i].base.info.virt_path {
            Some(p) => p,
            None => Seq::empty(),
        },
        None => Seq::empty(),
    }
}

/// The storage of a rootfs on the block device with id `device_id`: mounted
/// at `container_path` with the rootfs mount's type and options, found by the
/// sandbox's storage driver at the device's guest path.
pub fn block_rootfs_storage(
    manager: &DeviceManager,
    device_id: &str,
    container_path: &str,
    fs_type: String,
    options: Vec<String>,
) -> (r: Storage)
    ensures
        r@ == (StorageView {
            driver: storage_driver_of(manager@.block_driver),
            source: guest_source_of(manager@, device_id@),
            fs_type: fs_type@,
            options: options.deep_view(),
            mount_point: container_path@,
        }),
{
    Storage {
        driver: storage_driver(manager.get_block_driver()),
        source: guest_source(manager, device_id),
        fs_type,
        options,
        mount_point: string_of(container_path),
    }
}

/// The storage of a volume on the block device with id `device_id`: mounted
/// at `guest_path`, read-only when asked, with the mount's type unless it is
/// a bind mount, which gets ext4.
pub fn block_volume_storage(
    manager: &DeviceManager,
    device_id: &str,
    guest_path: &str,
    mount_type: &str,
    read_only: bool,
) -> (r: Storage)
    ensures
        r@ == (StorageView {
            driver: storage_driver_of(manager@.block_driver),
            source: guest_source_of(manager@, device_id@),
            fs_type: if mount_type@ == bind_type() {
                ext4_type()
            } else {
                mount_type@
            },
            options: if read_only {
                seq![read_only_option()]
            } else {
                Seq::empty()
            },
            mount_point: guest_path@,
        }),
{
    let mut options: Vec<String> = Vec::new();
    if read_only {
        proof {
            reveal_strlit("ro");
        }
        assert("ro"@ =~= read_only_option());
        options.push(string_of("ro"));
        assert(options.deep_view()[0] == options@[0]@);
    }
    proof {
        reveal_strlit("bind");
        reveal_strlit("ext4");
    }
    assert("bind"@ =~= bind_type());
    assert("ext4"@ =~= ext4_type());
    let fs_type = if str_eq(mount_type, "bind") {
        string_of("ext4")
    } else {
        string_of(mount_type)
    };
    let r = Storage {
        driver: storage_driver(manager.get_block_driver()),
        source: guest_source(manager, device_id),
        fs_type,
        options,
        mount_point: string_of(guest_path),
    };
    assert(r@.options =~= if read_only {
        seq![read_only_option()]
    } else {
        Seq::<Seq<char>>::empty()
    });
    r
}

} // verus!
