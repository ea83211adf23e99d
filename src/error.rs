use vstd::prelude::*;

verus! {

/// Every fault that the device manager and its helpers report.
#[derive(Debug, PartialEq, Eq)]
pub enum DeviceError {
    /// The device descriptor breaks the rules on its type or its container path.
    InvalidSpec,
    /// The block driver named at construction is not supported.
    UnsupportedBlockDriver,
    /// Every drawn device id collided with an id already in use.
    IdExhausted,
    /// The device is being hot-unplugged; it can be registered again once
    /// that completes.
    DetachPending,
    /// The attach counter is already at its maximum.
    AttachOverflow,
    /// The device is detached more often than it was attached.
    NotAttached,
    /// The hypervisor refused to hot-plug the device.
    AttachFailed(String),
    /// The hypervisor refused to hot-unplug the device.
    DetachFailed(String),
    /// The sysfs entry of the device could not be read.
    SysfsError(String),
    /// The sysfs uevent file holds no device name.
    SysfsMalformed,
    /// The device has no container path.
    EmptyPath,
    /// A drive name was asked for a negative index.
    NegativeIndex,
    /// The index does not fit in a drive name, or no ordinal is left.
    IndexOverflow,
    /// No free vsock context id was found.
    NoFreeCid,
    /// The vhost-vsock device refused a context id for another reason than
    /// its being in use.
    CidRejected(String),
    /// No device with this id is registered.
    Unknown(String),
}

/// The result is the error for an unregistered id.
pub open spec fn is_unknown<T>(r: Result<T, DeviceError>, id: Seq<char>) -> bool {
    match r {
        Err(DeviceError::Unknown(s)) => s@ == id,
        _ => false,
    }
}

} // verus!
