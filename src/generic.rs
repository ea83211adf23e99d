use crate::error::DeviceError;
use crate::text::{clone_opt_string, str_eq};
use vstd::prelude::*;

verus! {

/// Optional rate caps of a block device.
#[derive(Debug, Clone, Copy, Default, PartialEq, Eq)]
pub struct IoLimits {
    pub read_iops: Option<u64>,
    pub write_iops: Option<u64>,
    pub read_bps: Option<u64>,
    pub write_bps: Option<u64>,
}

/// Device data common to every kind of device.
#[derive(Debug, Default)]
pub struct GenericConfig {
    /// Path of the device on the host.
    pub host_path: String,
    /// Path of the device inside the container.
    pub container_path: String,
    /// Type of the device: `c` and `u` character, `b` block, `p` FIFO (see mknod(1)).
    pub dev_type: String,
    /// Kernel device numbers; negative means unset.
    pub major: i64,
    pub minor: i64,
    /// Permission bits of the in-guest node.
    pub file_mode: u32,
    /// Owner of the in-guest node.
    pub uid: u32,
    /// Group of the in-guest node.
    pub gid: u32,
    /// Id under which the hypervisor knows the device; minted by the manager.
    pub id: String,
    /// PCI bus:device.function of a device bound to VFIO.
    pub bdf: Option<String>,
    /// Options for the device driver, such as `block-driver`; one entry per key.
    pub driver_options: Vec<(String, String)>,
    pub io_limits: Option<IoLimits>,
    /// Guest PCI address of the slot at which the drive is attached.
    pub pci_addr: Option<String>,
    /// Path at which the device appears inside the VM, outside the container.
    pub virt_path: Option<String>,
}

/// What a [`GenericConfig`] holds, with strings as character sequences.
pub struct GenericConfigView {
    pub host_path: Seq<char>,
    pub container_path: Seq<char>,
    pub dev_type: Seq<char>,
    pub major: i64,
    pub minor: i64,
    pub file_mode: u32,
    pub uid: u32,
    pub gid: u32,
    pub id: Seq<char>,
    pub bdf: Option<Seq<char>>,
    pub driver_options: Seq<(Seq<char>, Seq<char>)>,
    pub io_limits: Option<IoLimits>,
    pub pci_addr: Option<Seq<char>>,
    pub virt_path: Option<Seq<char>>,
}

impl View for GenericConfig {
    type V = GenericConfigView;

    open spec fn view(&self) -> GenericConfigView {
        GenericConfigView {
            host_path: self.host_path@,
            container_path: self.container_path@,
            dev_type: self.dev_type@,
            major: self.major,
            minor: self.minor,
            file_mode: self.file_mode,
            uid: self.uid,
            gid: self.gid,
            id: self.id@,
            bdf: self.bdf.deep_view(),
            driver_options: self.driver_options.deep_view(),
            io_limits: self.io_limits,
            pci_addr: self.pci_addr.deep_view(),
            virt_path: self.virt_path.deep_view(),
        }
    }
}

/// The value of the first driver option with this key.
pub open spec fn option_value(opts: Seq<(Seq<char>, Seq<char>)>, key: Seq<char>) -> Option<Seq<char>>
    decreases opts.len(),
{
    if opts.len() == 0 {
        None
    } else if opts[0].0 == key {
        Some(opts[0].1)
    } else {
        option_value(opts.drop_first(), key)
    }
}

/// The options with `key` bound to `value`: the first entry with that key
/// takes the new value, or a new entry goes at the end.
pub open spec fn options_with(
    opts: Seq<(Seq<char>, Seq<char>)>,
    key: Seq<char>,
    value: Seq<char>,
) -> Seq<(Seq<char>, Seq<char>)>
    decreases opts.len(),
{
    if opts.len() == 0 {
        seq![(key, value)]
    } else if opts[0].0 == key {
        opts.update(0, (key, value))
    } else {
        seq![opts[0]] + options_with(opts.drop_first(), key, value)
    }
}

/// Binding a key and then reading it back gives the bound value, and other
/// keys keep theirs.
pub proof fn lemma_options_with(
    opts: Seq<(Seq<char>, Seq<char>)>,
    key: Seq<char>,
    value: Seq<char>,
    other: Seq<char>,
)
    ensures
        option_value(options_with(opts, key, value), key) == Some(value),
        other != key ==> option_value(options_with(opts, key, value), other) == option_value(
            opts,
            other,
        ),
    decreases opts.len(),
{
    if opts.len() > 0 && opts[0].0 != key {
        lemma_options_with(opts.drop_first(), key, value, other);
        let w = options_with(opts, key, value);
        assert(w.drop_first() =~= options_with(opts.drop_first(), key, value));
    } else if opts.len() > 0 {
        let w = options_with(opts, key, value);
        assert(w[0] == (key, value));
        assert(w.drop_first() =~= opts.drop_first());
        if other != key {
            assert(option_value(w, other) == option_value(w.drop_first(), other));
            assert(option_value(opts, other) == option_value(opts.drop_first(), other));
        }
    }
}

/// No two driver options share a key.
pub open spec fn keys_unique(opts: Seq<(Seq<char>, Seq<char>)>) -> bool {
    forall|i: int, j: int| 0 <= i < j < opts.len() ==> (#[trigger] opts[i]).0 != (#[trigger] opts[j]).0
}

/// Binding a key keeps the keys unique, and adds no key but that one.
pub proof fn lemma_options_with_unique(
    opts: Seq<(Seq<char>, Seq<char>)>,
    key: Seq<char>,
    value: Seq<char>,
)
    ensures
        keys_unique(opts) ==> keys_unique(options_with(opts, key, value)),
        forall|i: int|
            0 <= i < options_with(opts, key, value).len() ==> (#[trigger] options_with(
                opts,
                key,
                value,
            )[i]).0 == key || exists|j: int| 0 <= j < opts.len() && opts[j].0 == options_with(
                opts,
                key,
                value,
            )[i].0,
    decreases opts.len(),
{
    let w = options_with(opts, key, value);
    if opts.len() == 0 {
    } else if opts[0].0 == key {
        assert forall|i: int| 0 <= i < w.len() implies (#[trigger] w[i]).0 == key || exists|j: int|
            0 <= j < opts.len() && opts[j].0 == w[i].0 by {
            if i > 0 {
                assert(opts[i].0 == w[i].0);
            }
        }
    } else {
        let rest = opts.drop_first();
        lemma_options_with_unique(rest, key, value);
        let u = options_with(rest, key, value);
        assert(w =~= seq![opts[0]] + u);
        assert forall|i: int| 0 <= i < w.len() implies (#[trigger] w[i]).0 == key || exists|j: int|
            0 <= j < opts.len() && opts[j].0 == w[i].0 by {
            if i == 0 {
                assert(opts[0].0 == w[0].0);
            } else {
                assert(w[i] == u[i - 1]);
                if u[i - 1].0 != key {
                    let j = choose|j: int| 0 <= j < rest.len() && rest[j].0 == u[i - 1].0;
                    assert(opts[j + 1].0 == w[i].0);
                }
            }
        }
        if keys_unique(opts) {
            assert(keys_unique(rest)) by {
                assert forall|i: int, j: int| 0 <= i < j < rest.len() implies (#[trigger] rest[i]).0
                    != (#[trigger] rest[j]).0 by {
                    assert(opts[i + 1].0 != opts[j + 1].0);
                }
            }
            assert forall|i: int, j: int| 0 <= i < j < w.len() implies (#[trigger] w[i]).0 != (
            #[trigger] w[j]).0 by {
                if i == 0 {
                    assert(w[j] == u[j - 1]);
                    if u[j - 1].0 != key {
                        let k = choose|k: int| 0 <= k < rest.len() && rest[k].0 == u[j - 1].0;
                        assert(opts[0].0 != opts[k + 1].0);
                    }
                } else {
                    assert(w[i] == u[i - 1] && w[j] == u[j - 1]);
                }
            }
        }
    }
}

fn clone_options(opts: &Vec<(String, String)>) -> (r: Vec<(String, String)>)
    ensures
        r.deep_view() == opts.deep_view(),
{
    let mut r: Vec<(String, String)> = Vec::new();
    let mut i: usize = 0;
    while i < opts.len()
        invariant
            i <= opts@.len(),
            r.deep_view() =~= opts.deep_view().subrange(0, i as int),
        decreases opts@.len() - i,
    {
        let k = opts[i].0.clone();
        let v = opts[i].1.clone();
        let ghost before = r.deep_view();
        r.push((k, v));
        assert(r.deep_view() =~= before.push((opts@[i as int].0@, opts@[i as int].1@)));
        assert(opts.deep_view()[i as int] == (opts@[i as int].0@, opts@[i as int].1@));
        assert(r.deep_view() =~= opts.deep_view().subrange(0, i + 1));
        i = i + 1;
    }
    assert(opts.deep_view() =~= opts.deep_view().subrange(0, i as int));
    r
}

/// The value of the driver option `key`, if it is set.
pub fn get_option(opts: &Vec<(String, String)>, key: &str) -> (r: Option<String>)
    ensures
        r.deep_view() == option_value(opts.deep_view(), key@),
{
    let mut i: usize = 0;
    assert(opts.deep_view().subrange(0, opts@.len() as int) =~= opts.deep_view());
    while i < opts.len()
        invariant
            i <= opts@.len(),
            option_value(opts.deep_view(), key@) == option_value(
                opts.deep_view().subrange(i as int, opts@.len() as int),
                key@,
            ),
        decreases opts@.len() - i,
    {
        let ghost rest = opts.deep_view().subrange(i as int, opts@.len() as int);
        assert(rest.drop_first() =~= opts.deep_view().subrange(i + 1, opts@.len() as int));
        if str_eq(opts[i].0.as_str(), key) {
            return Some(opts[i].1.clone());
        }
        i = i + 1;
    }
    None
}

/// Binds the driver option `key` to `value`.
pub fn set_option(opts: &mut Vec<(String, String)>, key: String, value: String)
    ensures
        final(opts).deep_view() == options_with(old(opts).deep_view(), key@, value@),
        keys_unique(old(opts).deep_view()) ==> keys_unique(final(opts).deep_view()),
{
    proof {
        lemma_options_with_unique(opts.deep_view(), key@, value@);
    }
    let mut i: usize = 0;
    assert(opts.deep_view().subrange(0, opts@.len() as int) =~= opts.deep_view());
    assert(opts.deep_view().subrange(0, 0) + opts.deep_view() =~= opts.deep_view());
    while i < opts.len()
        invariant
            i <= opts@.len(),
            opts.deep_view() == old(opts).deep_view(),
            options_with(opts.deep_view(), key@, value@) == opts.deep_view().subrange(0, i as int)
                + options_with(opts.deep_view().subrange(i as int, opts@.len() as int), key@, value@),
            forall|j: int| 0 <= j < i ==> (#[trigger] opts.deep_view()[j]).0 != key@,
        decreases opts@.len() - i,
    {
        let ghost rest = opts.deep_view().subrange(i as int, opts@.len() as int);
        if str_eq(opts[i].0.as_str(), key.as_str()) {
            let ghost before = opts.deep_view();
            opts.set(i, (key, value));
            assert(opts.deep_view() =~= before.subrange(0, i as int) + options_with(rest, key@, value@));
            return;
        }
        assert(rest.drop_first() =~= opts.deep_view().subrange(i + 1, opts@.len() as int));
        assert(opts.deep_view().subrange(0, i + 1) =~= opts.deep_view().subrange(0, i as int) + seq![rest[0]]);
        i = i + 1;
    }
    let ghost before = opts.deep_view();
    assert(before.subrange(i as int, opts@.len() as int) =~= Seq::<(Seq<char>, Seq<char>)>::empty());
    opts.push((key, value));
    assert(opts.deep_view() =~= before.subrange(0, i as int) + seq![(key@, value@)]);
}

impl GenericConfig {
    /// A copy of this configuration.
    pub fn duplicate(&self) -> (r: GenericConfig)
        ensures
            r@ == self@,
    {
        GenericConfig {
            host_path: self.host_path.clone(),
            container_path: self.container_path.clone(),
            dev_type: self.dev_type.clone(),
            major: self.major,
            minor: self.minor,
            file_mode: self.file_mode,
            uid: self.uid,
            gid: self.gid,
            id: self.id.clone(),
            bdf: clone_opt_string(&self.bdf),
            driver_options: clone_options(&self.driver_options),
            io_limits: self.io_limits,
            pci_addr: clone_opt_string(&self.pci_addr),
            virt_path: clone_opt_string(&self.virt_path),
        }
    }
}

} // verus!

verus! {

/// A device with no hypervisor payload (character devices, FIFOs); also the
/// common part of every other kind. It counts how often it is attached.
#[derive(Debug, Default)]
pub struct GenericDevice {
    id: String,
    device_info: GenericConfig,
    attach_count: u64,
}

/// What a [`GenericDevice`] holds.
pub struct GenericDeviceView {
    pub id: Seq<char>,
    pub info: GenericConfigView,
    pub attach_count: u64,
}

impl View for GenericDevice {
    type V = GenericDeviceView;

    closed spec fn view(&self) -> GenericDeviceView {
        GenericDeviceView { id: self.id@, info: self.device_info@, attach_count: self.attach_count }
    }
}

impl GenericDeviceView {
    pub open spec fn with_count(self, attach_count: u64) -> GenericDeviceView {
        GenericDeviceView { attach_count, ..self }
    }

    pub open spec fn with_info(self, info: GenericConfigView) -> GenericDeviceView {
        GenericDeviceView { info, ..self }
    }
}

/// Raising an attach counter `k`: the new counter and the result, whose
/// boolean says whether the physical hot-plug is to be skipped.
pub open spec fn increase_outcome(k: u64) -> (u64, Result<bool, DeviceError>) {
    if k == 0 {
        (1, Ok(false))
    } else if k == u64::MAX {
        (k, Err(DeviceError::AttachOverflow))
    } else {
        ((k + 1) as u64, Ok(true))
    }
}

/// Lowering an attach counter `k`: the new counter and the result, whose
/// boolean says whether the physical hot-unplug is to be skipped.
pub open spec fn decrease_outcome(k: u64) -> (u64, Result<bool, DeviceError>) {
    if k == 0 {
        (0, Err(DeviceError::NotAttached))
    } else if k == 1 {
        (0, Ok(false))
    } else {
        ((k - 1) as u64, Ok(true))
    }
}

impl GenericDevice {
    /// A detached device with the id and data of `dev_info`.
    pub fn new(dev_info: &GenericConfig) -> (r: Self)
        ensures
            r@ == (GenericDeviceView { id: dev_info.id@, info: dev_info@, attach_count: 0 }),
    {
        GenericDevice { id: dev_info.id.clone(), device_info: dev_info.duplicate(), attach_count: 0 }
    }

    /// A device rebuilt from saved state: its data and how often it is attached.
    pub fn restore(dev_info: &GenericConfig, attach_count: u64) -> (r: Self)
        ensures
            r@ == (GenericDeviceView { id: dev_info.id@, info: dev_info@, attach_count }),
    {
        GenericDevice { id: dev_info.id.clone(), device_info: dev_info.duplicate(), attach_count }
    }

    pub fn device_id(&self) -> (r: &str)
        ensures
            r@ == self@.id,
    {
        self.id.as_str()
    }

    pub fn set_device_info(&mut self, device_info: GenericConfig)
        ensures
            final(self)@ == old(self)@.with_info(device_info@),
    {
        self.device_info = device_info;
    }

    pub fn get_device_info(&self) -> (r: GenericConfig)
        ensures
            r@ == self@.info,
    {
        self.device_info.duplicate()
    }

    pub fn get_major_minor(&self) -> (r: (i64, i64))
        ensures
            r == (self@.info.major, self@.info.minor),
    {
        (self.device_info.major, self.device_info.minor)
    }

    pub fn get_host_path(&self) -> (r: &str)
        ensures
            r@ == self@.info.host_path,
    {
        self.device_info.host_path.as_str()
    }

    pub fn get_bdf(&self) -> (r: Option<&String>)
        ensures
            r.deep_view() == self@.info.bdf,
    {
        match &self.device_info.bdf {
            Some(b) => Some(b),
            None => None,
        }
    }

    pub fn get_attach_count(&self) -> (r: u64)
        ensures
            r == self@.attach_count,
    {
        self.attach_count
    }

    /// Records the guest path of the device.
    pub fn set_virt_path(&mut self, path: Option<String>)
        ensures
            final(self)@ == old(self)@.with_info(
                GenericConfigView { virt_path: path.deep_view(), ..old(self)@.info },
            ),
    {
        self.device_info.virt_path = path;
    }

    /// Records the guest PCI address of the device.
    pub fn set_pci_addr(&mut self, addr: Option<String>)
        ensures
            final(self)@ == old(self)@.with_info(
                GenericConfigView { pci_addr: addr.deep_view(), ..old(self)@.info },
            ),
    {
        self.device_info.pci_addr = addr;
    }

    /// Counts one more attachment. `Ok(false)` on the first one, which must be
    /// carried out; `Ok(true)` when the device is attached already.
    pub fn increase_attach_count(&mut self) -> (r: Result<bool, DeviceError>)
        ensures
            (final(self)@.attach_count, r) == increase_outcome(old(self)@.attach_count),
            final(self)@ == old(self)@.with_count(final(self)@.attach_count),
    {
        if self.attach_count == 0 {
            self.attach_count = 1;
            Ok(false)
        } else if self.attach_count == u64::MAX {
            Err(DeviceError::AttachOverflow)
        } else {
            self.attach_count = self.attach_count + 1;
            Ok(true)
        }
    }

    /// Counts one attachment less. `Ok(false)` on the last one, which must be
    /// carried out; `Ok(true)` while other attachments remain.
    pub fn decrease_attach_count(&mut self) -> (r: Result<bool, DeviceError>)
        ensures
            (final(self)@.attach_count, r) == decrease_outcome(old(self)@.attach_count),
            final(self)@ == old(self)@.with_count(final(self)@.attach_count),
    {
        if self.attach_count == 0 {
            Err(DeviceError::NotAttached)
        } else if self.attach_count == 1 {
            self.attach_count = 0;
            Ok(false)
        } else {
            self.attach_count = self.attach_count - 1;
            Ok(true)
        }
    }
}

} // verus!
