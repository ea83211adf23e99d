use crate::device::{DeviceArgument, DeviceConfig};
use crate::error::DeviceError;
use crate::generic::{
    get_option, option_value, GenericConfig, GenericConfigView, GenericDevice, GenericDeviceView,
};
use crate::text::{push_char, str_eq, string_of};
use vstd::prelude::*;

verus! {

/// The block-device payload handed to the hypervisor.
#[derive(Debug, Default)]
pub struct BlockConfig {
    /// Unique identifier of the drive.
    pub id: String,
    /// Path of the drive on the host.
    pub path_on_host: String,
    /// Whether the drive is opened read-only.
    pub is_readonly: bool,
    /// Keep `path_on_host` open when the device is dropped.
    pub no_drop: bool,
    /// Block ordinal of the drive in the sandbox.
    pub index: u64,
}

/// What a [`BlockConfig`] holds.
pub struct BlockConfigView {
    pub id: Seq<char>,
    pub path_on_host: Seq<char>,
    pub is_readonly: bool,
    pub no_drop: bool,
    pub index: u64,
}

impl View for BlockConfig {
    type V = BlockConfigView;

    open spec fn view(&self) -> BlockConfigView {
        BlockConfigView {
            id: self.id@,
            path_on_host: self.path_on_host@,
            is_readonly: self.is_readonly,
            no_drop: self.no_drop,
            index: self.index,
        }
    }
}

impl BlockConfig {
    /// A copy of this payload.
    pub fn duplicate(&self) -> (r: BlockConfig)
        ensures
            r@ == self@,
    {
        BlockConfig {
            id: self.id.clone(),
            path_on_host: self.path_on_host.clone(),
            is_readonly: self.is_readonly,
            no_drop: self.no_drop,
            index: self.index,
        }
    }
}

/// The driver option that names the block driver.
pub open spec fn block_driver_key() -> Seq<char> {
    seq!['b', 'l', 'o', 'c', 'k', '-', 'd', 'r', 'i', 'v', 'e', 'r']
}

/// The block driver under which a drive gets no `/dev/vd*` name.
pub open spec fn nvdimm() -> Seq<char> {
    seq!['n', 'v', 'd', 'i', 'm', 'm']
}

/// `/dev/`
pub open spec fn dev_prefix() -> Seq<char> {
    seq!['/', 'd', 'e', 'v', '/']
}

/// Whether attaching with `da` gives the device the guest path of its drive
/// name: a drive name is passed and the block driver is set and not nvdimm.
pub open spec fn names_guest_path(info: GenericConfigView, da_drive_name: Option<Seq<char>>) -> bool {
    &&& option_value(info.driver_options, block_driver_key()) is Some
    &&& option_value(info.driver_options, block_driver_key())->Some_0 != nvdimm()
    &&& da_drive_name is Some
}

/// A block device: its hypervisor payload and the common device data.
#[derive(Debug)]
pub struct BlockDevice {
    drive: BlockConfig,
    base: GenericDevice,
}

impl BlockDevice {
    pub closed spec fn drive_view(&self) -> BlockConfigView {
        self.drive@
    }

    pub closed spec fn base_view(&self) -> GenericDeviceView {
        self.base@
    }

    /// A detached block device for `dev_info`, whose drive takes the id and
    /// host path of the device.
    pub fn new(dev_info: &GenericConfig) -> (r: Self)
        ensures
            r.drive_view() == (BlockConfigView {
                id: dev_info.id@,
                path_on_host: dev_info.host_path@,
                is_readonly: false,
                no_drop: false,
                index: 0,
            }),
            r.base_view() == (GenericDeviceView { id: dev_info.id@, info: dev_info@, attach_count: 0 }),
    {
        BlockDevice {
            drive: BlockConfig {
                id: dev_info.id.clone(),
                path_on_host: dev_info.host_path.clone(),
                is_readonly: false,
                no_drop: false,
                index: 0,
            },
            base: GenericDevice::new(dev_info),
        }
    }

    /// Prepares the hot-plug: takes the ordinal of `da`, records the guest path
    /// `/dev/<drive name>` unless the block driver is nvdimm, and returns the
    /// payload for the hypervisor.
    pub fn attach(&mut self, da: DeviceArgument) -> (r: DeviceConfig)
        ensures
            final(self).drive_view() == (BlockConfigView {
                index: if da.index is Some {
                    da.index->Some_0
                } else {
                    old(self).drive_view().index
                },
                ..old(self).drive_view()
            }),
            names_guest_path(old(self).base_view().info, da.drive_name.deep_view()) ==> final(self).base_view() == old(self).base_view().with_info(
                GenericConfigView {
                    virt_path: Some(dev_prefix() + da.drive_name.deep_view()->Some_0),
                    ..old(self).base_view().info
                },
            ),
            !names_guest_path(old(self).base_view().info, da.drive_name.deep_view()) ==> final(self).base_view() == old(self).base_view(),
            r matches DeviceConfig::Block(c) && c@ == final(self).drive_view(),
    {
        if let Some(index) = da.index {
            self.drive.index = index;
        }
        let info = self.base.get_device_info();
        let driver = get_option(&info.driver_options, "block-driver");
        proof {
            reveal_strlit("block-driver");
            reveal_strlit("nvdimm");
        }
        assert("block-driver"@ =~= block_driver_key());
        assert("nvdimm"@ =~= nvdimm());
        if let Some(driver) = driver {
            if !str_eq(driver.as_str(), "nvdimm") {
                if let Some(name) = da.drive_name {
                    let mut path = string_of("/dev/");
                    proof {
                        reveal_strlit("/dev/");
                    }
                    assert(path@ =~= dev_prefix());
                    let mut i: usize = 0;
                    let n = name.as_str().unicode_len();
                    while i < n
                        invariant
                            n == name@.len(),
                            i <= n,
                            path@ =~= dev_prefix() + name@.subrange(0, i as int),
                        decreases n - i,
                    {
                        push_char(&mut path, name.as_str().get_char(i));
                        assert(path@ =~= dev_prefix() + name@.subrange(0, i + 1));
                        i = i + 1;
                    }
                    assert(name@.subrange(0, n as int) =~= name@);
                    self.base.set_virt_path(Some(path));
                }
            }
        }
        DeviceConfig::Block(self.drive.duplicate())
    }

    /// The payload for the hypervisor's hot-unplug.
    pub fn detach(&self) -> (r: DeviceConfig)
        ensures
            r matches DeviceConfig::Block(c) && c@ == self.drive_view(),
    {
        DeviceConfig::Block(self.drive.duplicate())
    }

    pub fn device_id(&self) -> (r: &str)
        ensures
            r@ == self.base_view().id,
    {
        self.base.device_id()
    }

    pub fn get_device_info(&self) -> (r: GenericConfig)
        ensures
            r@ == self.base_view().info,
    {
        self.base.get_device_info()
    }

    pub fn get_major_minor(&self) -> (r: (i64, i64))
        ensures
            r == (self.base_view().info.major, self.base_view().info.minor),
    {
        self.base.get_major_minor()
    }

    pub fn get_host_path(&self) -> (r: &str)
        ensures
            r@ == self.base_view().info.host_path,
    {
        self.base.get_host_path()
    }

    pub fn get_bdf(&self) -> (r: Option<&String>)
        ensures
            r.deep_view() == self.base_view().info.bdf,
    {
        self.base.get_bdf()
    }

    pub fn get_attach_count(&self) -> (r: u64)
        ensures
            r == self.base_view().attach_count,
    {
        self.base.get_attach_count()
    }

    /// The block ordinal of the drive.
    pub fn get_index(&self) -> (r: u64)
        ensures
            r == self.drive_view().index,
    {
        self.drive.index
    }

    /// Records the guest PCI address of the drive.
    pub fn set_pci_addr(&mut self, addr: Option<String>)
        ensures
            final(self).drive_view() == old(self).drive_view(),
            final(self).base_view() == old(self).base_view().with_info(
                GenericConfigView { pci_addr: addr.deep_view(), ..old(self).base_view().info },
            ),
    {
        self.base.set_pci_addr(addr);
    }

    pub fn increase_attach_count(&mut self) -> (r: Result<bool, DeviceError>)
        ensures
            final(self).drive_view() == old(self).drive_view(),
            (final(self).base_view().attach_count, r) == crate::generic::increase_outcome(
                old(self).base_view().attach_count,
            ),
            final(self).base_view() == old(self).base_view().with_count(
                final(self).base_view().attach_count,
            ),
    {
        self.base.increase_attach_count()
    }

    pub fn decrease_attach_count(&mut self) -> (r: Result<bool, DeviceError>)
        ensures
            final(self).drive_view() == old(self).drive_view(),
            (final(self).base_view().attach_count, r) == crate::generic::decrease_outcome(
                old(self).base_view().attach_count,
            ),
            final(self).base_view() == old(self).base_view().with_count(
                final(self).base_view().attach_count,
            ),
    {
        self.base.decrease_attach_count()
    }
}

} // verus!
