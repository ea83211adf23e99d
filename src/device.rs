use crate::block::{BlockConfig, BlockConfigView, BlockDevice};
use crate::error::DeviceError;
use crate::generic::{
    decrease_outcome, increase_outcome, GenericConfig, GenericConfigView, GenericDevice, GenericDeviceView,
};
use vstd::prelude::*;

verus! {

/// What the manager hands a device when it attaches it.
#[derive(Debug, Default)]
pub struct DeviceArgument {
    /// The block ordinal issued for the device.
    pub index: Option<u64>,
    /// The drive name derived from that ordinal.
    pub drive_name: Option<String>,
}

/// A hybrid vsock device: a guest context id served through a unix socket.
#[derive(Debug)]
pub struct HybridVsockConfig {
    /// Unique identifier of the device.
    pub id: String,
    /// The 32-bit context id of the guest.
    pub guest_cid: u32,
    /// Path of the unix domain socket.
    pub uds_path: String,
}

/// A request to the hypervisor, one variant per device kind that has a payload.
#[derive(Debug)]
pub enum DeviceConfig {
    Block(BlockConfig),
    HybridVsock(HybridVsockConfig),
}

} // verus!

verus! {

/// A registered device, one variant per kind that takes part in the
/// container-device flow.
#[derive(Debug)]
pub enum Device {
    Block(BlockDevice),
    Generic(GenericDevice),
}

/// What a [`Device`] holds: the common part, and the drive of a block device.
pub struct DeviceView {
    pub base: GenericDeviceView,
    pub drive: Option<BlockConfigView>,
}

impl View for Device {
    type V = DeviceView;

    open spec fn view(&self) -> DeviceView {
        match self {
            Device::Block(b) => DeviceView { base: b.base_view(), drive: Some(b.drive_view()) },
            Device::Generic(g) => DeviceView { base: g@, drive: None },
        }
    }
}

/// What a [`DeviceConfig`] holds.
pub enum DeviceConfigView {
    Block(BlockConfigView),
    HybridVsock { id: Seq<char>, guest_cid: u32, uds_path: Seq<char> },
}

impl View for DeviceConfig {
    type V = DeviceConfigView;

    open spec fn view(&self) -> DeviceConfigView {
        match self {
            DeviceConfig::Block(c) => DeviceConfigView::Block(c@),
            DeviceConfig::HybridVsock(c) => DeviceConfigView::HybridVsock {
                id: c.id@,
                guest_cid: c.guest_cid,
                uds_path: c.uds_path@,
            },
        }
    }
}

/// The hypervisor request for `drive`, if there is one.
pub open spec fn request_view(r: Option<DeviceConfig>) -> Option<DeviceConfigView> {
    match r {
        Some(c) => Some(c@),
        None => None,
    }
}

impl Device {
    pub fn device_id(&self) -> (r: &str)
        ensures
            r@ == self@.base.id,
    {
        match self {
            Device::Block(b) => b.device_id(),
            Device::Generic(g) => g.device_id(),
        }
    }

    pub fn get_device_info(&self) -> (r: GenericConfig)
        ensures
            r@ == self@.base.info,
    {
        match self {
            Device::Block(b) => b.get_device_info(),
            Device::Generic(g) => g.get_device_info(),
        }
    }

    pub fn get_major_minor(&self) -> (r: (i64, i64))
        ensures
            r == (self@.base.info.major, self@.base.info.minor),
    {
        match self {
            Device::Block(b) => b.get_major_minor(),
            Device::Generic(g) => g.get_major_minor(),
        }
    }

    pub fn get_host_path(&self) -> (r: &str)
        ensures
            r@ == self@.base.info.host_path,
    {
        match self {
            Device::Block(b) => b.get_host_path(),
            Device::Generic(g) => g.get_host_path(),
        }
    }

    pub fn get_bdf(&self) -> (r: Option<&String>)
        ensures
            r.deep_view() == self@.base.info.bdf,
    {
        match self {
            Device::Block(b) => b.get_bdf(),
            Device::Generic(g) => g.get_bdf(),
        }
    }

    pub fn get_attach_count(&self) -> (r: u64)
        ensures
            r == self@.base.attach_count,
    {
        match self {
            Device::Block(b) => b.get_attach_count(),
            Device::Generic(g) => g.get_attach_count(),
        }
    }

    /// The block ordinal of a block device.
    pub fn get_index(&self) -> (r: Option<u64>)
        ensures
            self@.drive is Some ==> r == Some(self@.drive->Some_0.index),
            self@.drive is None ==> r is None,
    {
        match self {
            Device::Block(b) => Some(b.get_index()),
            Device::Generic(_) => None,
        }
    }

    pub fn increase_attach_count(&mut self) -> (r: Result<bool, DeviceError>)
        ensures
            (final(self)@.base.attach_count, r) == increase_outcome(old(self)@.base.attach_count),
            final(self)@ == (DeviceView {
                base: old(self)@.base.with_count(final(self)@.base.attach_count),
                ..old(self)@
            }),
    {
        match self {
            Device::Block(b) => b.increase_attach_count(),
            Device::Generic(g) => g.increase_attach_count(),
        }
    }

    pub fn decrease_attach_count(&mut self) -> (r: Result<bool, DeviceError>)
        ensures
            (final(self)@.base.attach_count, r) == decrease_outcome(old(self)@.base.attach_count),
            final(self)@ == (DeviceView {
                base: old(self)@.base.with_count(final(self)@.base.attach_count),
                ..old(self)@
            }),
    {
        match self {
            Device::Block(b) => b.decrease_attach_count(),
            Device::Generic(g) => g.decrease_attach_count(),
        }
    }

    /// Records the guest PCI address of the device.
    pub fn set_pci_addr(&mut self, addr: Option<String>)
        ensures
            final(self)@ == (DeviceView {
                base: old(self)@.base.with_info(
                    GenericConfigView { pci_addr: addr.deep_view(), ..old(self)@.base.info },
                ),
                ..old(self)@
            }),
    {
        match self {
            Device::Block(b) => b.set_pci_addr(addr),
            Device::Generic(g) => g.set_pci_addr(addr),
        }
    }
}

} // verus!
