use crate::block::{block_driver_key, dev_prefix, nvdimm, BlockConfigView, BlockDevice};
use crate::device::{request_view, Device, DeviceArgument, DeviceConfig, DeviceConfigView, DeviceView};
use crate::error::{is_unknown, DeviceError};
use crate::generic::{
    IoLimits, decrease_outcome, increase_outcome, lemma_options_with, options_with, set_option,
    GenericConfig, GenericConfigView, GenericDevice, GenericDeviceView,
};
use crate::slots::{
    acquire_outcome, lemma_sorted_insert, lemma_sorted_insert_strict, release_outcome, sorted_insert,
    strictly_desc, SlotAllocator, SlotView,
};
use crate::text::{hex_digits, hex_string, str_eq, string_of};
use crate::utils::{drive_name, virt_drive_name_of};
use vstd::prelude::*;

verus! {

/// Relies on `rand::random`: a value from the thread-local generator. Nothing
/// is promised of it.
pub assume_specification<T>[ rand::random::<T> ]() -> (r: T)
    where
        rand::distributions::Standard: rand::distributions::Distribution<T>,
;

/// `virtio-mmio`
pub open spec fn virtio_mmio() -> Seq<char> {
    seq!['v', 'i', 'r', 't', 'i', 'o', '-', 'm', 'm', 'i', 'o']
}

/// `virtio-blk`
pub open spec fn virtio_blk() -> Seq<char> {
    seq!['v', 'i', 'r', 't', 'i', 'o', '-', 'b', 'l', 'k']
}

/// The agent's device type of a virtio-mmio block device: `mmioblk`.
pub open spec fn mmioblk_type() -> Seq<char> {
    seq!['m', 'm', 'i', 'o', 'b', 'l', 'k']
}

/// The agent's device type of a virtio-blk PCI device: `blk`.
pub open spec fn blk_type() -> Seq<char> {
    seq!['b', 'l', 'k']
}

/// A device type that the manager takes: `c`, `u`, `b` or `p`.
pub open spec fn valid_dev_type(t: Seq<char>) -> bool {
    t == seq!['c'] || t == seq!['u'] || t == seq!['b'] || t == seq!['p']
}

/// The block device type `b`.
pub open spec fn is_block_type(t: Seq<char>) -> bool {
    t == seq!['b']
}

/// A descriptor that the manager takes: a known type and a container path.
pub open spec fn valid_desc(d: GenericConfigView) -> bool {
    valid_dev_type(d.dev_type) && d.container_path.len() > 0
}

/// Whether record data `rec` has the identity that descriptor `d` is looked up
/// by: its device numbers when both are set, else its BDF when it has one,
/// else its host path.
pub open spec fn identity_matches(rec: GenericConfigView, d: GenericConfigView) -> bool {
    if d.major >= 0 && d.minor >= 0 {
        rec.major == d.major && rec.minor == d.minor
    } else if d.bdf is Some {
        rec.bdf == d.bdf
    } else {
        rec.host_path == d.host_path
    }
}

/// The first record, from position `i` on, that `d` finds.
pub open spec fn first_match_from(devs: Seq<DeviceView>, d: GenericConfigView, i: int) -> Option<int>
    decreases devs.len() - i,
{
    if i < 0 || i >= devs.len() {
        None
    } else if identity_matches(devs[i].base.info, d) {
        Some(i)
    } else {
        first_match_from(devs, d, i + 1)
    }
}

/// The first record that `d` finds.
pub open spec fn first_match(devs: Seq<DeviceView>, d: GenericConfigView) -> Option<int> {
    first_match_from(devs, d, 0)
}

/// The first record, from position `i` on, with this id.
pub open spec fn position_from(devs: Seq<DeviceView>, id: Seq<char>, i: int) -> Option<int>
    decreases devs.len() - i,
{
    if i < 0 || i >= devs.len() {
        None
    } else if devs[i].base.id == id {
        Some(i)
    } else {
        position_from(devs, id, i + 1)
    }
}

/// The position of the record with this id.
pub open spec fn position_of_id(devs: Seq<DeviceView>, id: Seq<char>) -> Option<int> {
    position_from(devs, id, 0)
}

proof fn lemma_position_from(devs: Seq<DeviceView>, id: Seq<char>, i: int)
    requires
        0 <= i,
    ensures
        position_from(devs, id, i) matches Some(k) ==> i <= k < devs.len() && devs[k].base.id == id
            && forall|j: int| i <= j < k ==> #[trigger] devs[j].base.id != id,
        position_from(devs, id, i) is None ==> forall|j: int|
            i <= j < devs.len() ==> #[trigger] devs[j].base.id != id,
    decreases devs.len() - i,
{
    if i < devs.len() && devs[i].base.id != id {
        lemma_position_from(devs, id, i + 1);
    }
}

proof fn lemma_first_match_from(devs: Seq<DeviceView>, d: GenericConfigView, i: int)
    requires
        0 <= i,
    ensures
        first_match_from(devs, d, i) matches Some(k) ==> i <= k < devs.len()
            && identity_matches(devs[k].base.info, d)
            && forall|j: int|
            i <= j < k ==> !identity_matches(#[trigger] devs[j].base.info, d),
        first_match_from(devs, d, i) is None ==> forall|j: int|
            i <= j < devs.len() ==> !identity_matches(#[trigger] devs[j].base.info, d),
    decreases devs.len() - i,
{
    if i < devs.len() && !identity_matches(devs[i].base.info, d) {
        lemma_first_match_from(devs, d, i + 1);
    }
}

/// Some record has this id.
pub open spec fn id_in_use(devs: Seq<DeviceView>, id: Seq<char>) -> bool {
    exists|i: int| 0 <= i < devs.len() && #[trigger] devs[i].base.id == id
}

/// The views of a sequence of devices.
pub open spec fn views_of(devs: Seq<Device>) -> Seq<DeviceView> {
    devs.map_values(|d: Device| d@)
}

/// What a [`DeviceManager`] holds. A record whose attach count is zero awaits
/// the end of its hot-unplug.
pub struct ManagerView {
    pub block_driver: Seq<char>,
    pub devices: Seq<DeviceView>,
    pub slots: SlotView,
}

/// No two records share an id.
pub open spec fn ids_unique(devs: Seq<DeviceView>) -> bool {
    forall|i: int, j: int|
        0 <= i < devs.len() && 0 <= j < devs.len() && i != j ==> #[trigger] devs[i].base.id
            != #[trigger] devs[j].base.id
}

/// No two block records share an ordinal.
pub open spec fn ordinals_unique(devs: Seq<DeviceView>) -> bool {
    forall|i: int, j: int|
        0 <= i < devs.len() && 0 <= j < devs.len() && i != j && (#[trigger] devs[i]).drive is Some
            && (#[trigger] devs[j]).drive is Some ==> devs[i].drive->Some_0.index
            != devs[j].drive->Some_0.index
}

/// Every ordinal a block record holds was issued and is not released.
pub open spec fn ordinals_held(devs: Seq<DeviceView>, slots: SlotView) -> bool {
    forall|i: int|
        0 <= i < devs.len() && (#[trigger] devs[i]).drive is Some ==> devs[i].drive->Some_0.index
            < slots.next && !slots.released.contains(devs[i].drive->Some_0.index)
}

/// The released ordinals are issued ones, largest first, none twice.
pub open spec fn released_ok(slots: SlotView) -> bool {
    &&& strictly_desc(slots.released)
    &&& forall|k: int| 0 <= k < slots.released.len() ==> #[trigger] slots.released[k] < slots.next
}

/// A record entered only when no earlier record had its identity: no record
/// is found by the identity of a later one.
pub open spec fn identities_distinct(devs: Seq<DeviceView>) -> bool {
    forall|i: int, j: int|
        0 <= i < j < devs.len() ==> !#[trigger] identity_matches(
            devs[i].base.info,
            devs[j].base.info,
        )
}

/// Two record data with the same identity fields.
pub open spec fn same_identity_fields(a: GenericConfigView, b: GenericConfigView) -> bool {
    a.major == b.major && a.minor == b.minor && a.bdf == b.bdf && a.host_path == b.host_path
}

/// The invariant of the manager's state.
pub open spec fn manager_wf(v: ManagerView) -> bool {
    &&& v.block_driver == virtio_mmio() || v.block_driver == virtio_blk()
    &&& released_ok(v.slots)
    &&& ids_unique(v.devices)
    &&& identities_distinct(v.devices)
    &&& ordinals_unique(v.devices)
    &&& ordinals_held(v.devices, v.slots)
}

/// Keeps the registry of a sandbox's devices: deduplicates registrations,
/// counts attachments so that a device is hot-plugged once, and issues block
/// ordinals.
#[derive(Debug)]
pub struct DeviceManager {
    block_driver: String,
    devices: Vec<Device>,
    slots: SlotAllocator,
}

impl View for DeviceManager {
    type V = ManagerView;

    closed spec fn view(&self) -> ManagerView {
        ManagerView {
            block_driver: self.block_driver@,
            devices: views_of(self.devices@),
            slots: self.slots@,
        }
    }
}

/// What the agent in the guest is told of a device.
#[derive(Debug, Default)]
pub struct AgentDevice {
    pub id: String,
    pub container_path: String,
    /// `mmioblk`, `blk`, or empty.
    pub field_type: String,
    pub vm_path: String,
}

/// What an [`AgentDevice`] holds.
pub struct AgentDeviceView {
    pub id: Seq<char>,
    pub container_path: Seq<char>,
    pub field_type: Seq<char>,
    pub vm_path: Seq<char>,
}

impl View for AgentDevice {
    type V = AgentDeviceView;

    open spec fn view(&self) -> AgentDeviceView {
        AgentDeviceView {
            id: self.id@,
            container_path: self.container_path@,
            field_type: self.field_type@,
            vm_path: self.vm_path@,
        }
    }
}

/// The agent's view of record data `info` under `driver`.
pub open spec fn agent_device_of(id: Seq<char>, info: GenericConfigView, driver: Seq<char>) -> AgentDeviceView {
    if driver == virtio_mmio() && info.virt_path is Some {
        AgentDeviceView {
            id,
            container_path: info.container_path,
            field_type: mmioblk_type(),
            vm_path: info.virt_path->Some_0,
        }
    } else if driver == virtio_blk() && info.pci_addr is Some {
        AgentDeviceView {
            id,
            container_path: info.container_path,
            field_type: blk_type(),
            vm_path: info.pci_addr->Some_0,
        }
    } else {
        AgentDeviceView {
            id: Seq::empty(),
            container_path: info.container_path,
            field_type: Seq::empty(),
            vm_path: Seq::empty(),
        }
    }
}

/// The configuration a new record keeps: the minted id and, for a block
/// device, the sandbox's block driver as its `block-driver` option.
pub open spec fn registered_info(d: GenericConfigView, id: Seq<char>, driver: Seq<char>) -> GenericConfigView {
    GenericConfigView {
        id,
        driver_options: if is_block_type(d.dev_type) {
            options_with(d.driver_options, block_driver_key(), driver)
        } else {
            d.driver_options
        },
        ..d
    }
}

/// The record of a new block device attached once with ordinal `index`: its
/// drive carries the ordinal and its guest path is `/dev/` and the drive name.
pub open spec fn new_block_record(info: GenericConfigView, index: u64) -> DeviceView {
    DeviceView {
        base: GenericDeviceView {
            id: info.id,
            info: GenericConfigView {
                virt_path: Some(dev_prefix() + drive_name(index as int)),
                ..info
            },
            attach_count: 1,
        },
        drive: Some(
            BlockConfigView {
                id: info.id,
                path_on_host: info.host_path,
                is_readonly: false,
                no_drop: false,
                index,
            },
        ),
    }
}

/// The record of a new generic device attached once.
pub open spec fn new_generic_record(info: GenericConfigView) -> DeviceView {
    DeviceView { base: GenericDeviceView { id: info.id, info, attach_count: 1 }, drive: None }
}

/// What a registration step hands back: the id of the device, and the request
/// that the hypervisor must carry out before the registration completes.
#[derive(Debug)]
pub struct AddStep {
    pub id: String,
    pub request: Option<DeviceConfig>,
}

/// What an [`AddStep`] holds.
pub struct AddStepView {
    pub id: Seq<char>,
    pub request: Option<DeviceConfigView>,
}

impl View for AddStep {
    type V = AddStepView;

    open spec fn view(&self) -> AddStepView {
        AddStepView { id: self.id@, request: request_view(self.request) }
    }
}

/// What a registration returns, as a view.
pub open spec fn add_result_view(r: Result<AddStep, DeviceError>) -> Result<AddStepView, DeviceError> {
    match r {
        Ok(s) => Ok(s@),
        Err(e) => Err(e),
    }
}

/// Registering descriptor `d` in state `old`, where minting gives `mint`
/// (`None` when every drawn id collides), leads to state `new`, leaves the
/// descriptor as `d2`, and returns `r`:
/// - a descriptor with an unknown type or no container path is refused;
/// - a descriptor that finds a record counts one more attachment of that
///   record and needs no hot-plug, unless the record awaits the end of its
///   hot-unplug, which is refused;
/// - otherwise the minted id is taken and a record enters with one
///   attachment; a block device also takes an ordinal and asks for a
///   hot-plug. Minting may fail, and so may taking an ordinal when none is
///   left; either leaves all as it was.
pub open spec fn add_relation(
    old: ManagerView,
    d: GenericConfigView,
    new: ManagerView,
    d2: GenericConfigView,
    r: Result<AddStepView, DeviceError>,
    mint: Option<Seq<char>>,
) -> bool {
    if !valid_desc(d) {
        r == Err::<AddStepView, DeviceError>(DeviceError::InvalidSpec) && new == old && d2 == d
    } else {
        match first_match(old.devices, d) {
            Some(i) => {
                let rec = old.devices[i];
                let (count, res) = increase_outcome(rec.base.attach_count);
                &&& d2 == d
                &&& if rec.base.attach_count == 0 {
                    r == Err::<AddStepView, DeviceError>(DeviceError::DetachPending) && new == old
                } else {
                    match res {
                    Err(e) => r == Err::<AddStepView, DeviceError>(e) && new == old,
                    Ok(_) => r == Ok::<AddStepView, DeviceError>(
                        AddStepView { id: rec.base.id, request: None },
                    ) && new == (ManagerView {
                        devices: old.devices.update(
                            i,
                            DeviceView { base: rec.base.with_count(count), ..rec },
                        ),
                        ..old
                    }),
                    }
                }
            },
            None => match r {
                Err(e) => {
                    &&& d2 == d
                    &&& new == old
                    &&& ((mint is None && e == DeviceError::IdExhausted) || (mint is Some && e
                        == DeviceError::IndexOverflow && is_block_type(d.dev_type)
                        && acquire_outcome(old.slots).1 is Err))
                },
                Ok(step) => {
                    let info = registered_info(d, step.id, old.block_driver);
                    &&& mint == Some(step.id)
                    &&& !id_in_use(old.devices, step.id)
                    &&& d2 == info
                    &&& if is_block_type(d.dev_type) {
                        let (slots, idx) = acquire_outcome(old.slots);
                        &&& idx is Ok
                        &&& new == (ManagerView {
                            devices: old.devices.push(new_block_record(info, idx->Ok_0)),
                            slots,
                            ..old
                        })
                        &&& step.request == Some(
                            DeviceConfigView::Block(
                                new_block_record(info, idx->Ok_0).drive->Some_0,
                            ),
                        )
                    } else {
                        &&& new == (ManagerView {
                            devices: old.devices.push(new_generic_record(info)),
                            ..old
                        })
                        &&& step.request is None
                    }
                },
            },
        }
    }
}

/// How many random ids are drawn before minting gives up.
pub const MAX_ID_DRAWS: usize = 5;

/// The first of the first [`MAX_ID_DRAWS`] draws, from `k` on, whose
/// hexadecimal rendering is no record's id.
pub open spec fn first_free_draw(devs: Seq<DeviceView>, draws: Seq<u64>, k: int) -> Option<int>
    decreases MAX_ID_DRAWS - k,
{
    if k < 0 || k >= draws.len() || k >= MAX_ID_DRAWS {
        None
    } else if !id_in_use(devs, hex_digits(draws[k] as nat)) {
        Some(k)
    } else {
        first_free_draw(devs, draws, k + 1)
    }
}

/// What minting from `draws` gives: the rendering of the first free draw.
pub open spec fn mint_of(devs: Seq<DeviceView>, draws: Seq<u64>) -> Option<Seq<char>> {
    match first_free_draw(devs, draws, 0) {
        Some(k) => Some(hex_digits(draws[k] as nat)),
        None => None,
    }
}

/// What a random mint may give: a fresh id, and none only when some record
/// exists for a draw to collide with.
pub open spec fn random_mint(devs: Seq<DeviceView>, mint: Option<Seq<char>>) -> bool {
    match mint {
        Some(id) => !id_in_use(devs, id),
        None => devs.len() > 0,
    }
}

proof fn lemma_first_free_draw(devs: Seq<DeviceView>, draws: Seq<u64>, k: int)
    requires
        0 <= k,
    ensures
        first_free_draw(devs, draws, k) matches Some(j) ==> k <= j < draws.len() && j < MAX_ID_DRAWS
            && !id_in_use(devs, hex_digits(draws[j] as nat)),
    decreases MAX_ID_DRAWS - k,
{
    if k < draws.len() && k < MAX_ID_DRAWS && id_in_use(devs, hex_digits(draws[k] as nat)) {
        lemma_first_free_draw(devs, draws, k + 1);
    }
}

/// Changing only the attach count of a record keeps the invariant.
proof fn lemma_wf_update_count(v: ManagerView, i: int, count: u64)
    requires
        manager_wf(v),
        0 <= i < v.devices.len(),
    ensures
        manager_wf(
            ManagerView {
                devices: v.devices.update(
                    i,
                    DeviceView { base: v.devices[i].base.with_count(count), ..v.devices[i] },
                ),
                ..v
            },
        ),
{
    let upd = v.devices.update(
        i,
        DeviceView { base: v.devices[i].base.with_count(count), ..v.devices[i] },
    );
    assert forall|a: int, b: int| 0 <= a < b < upd.len() implies !#[trigger] identity_matches(
        upd[a].base.info,
        upd[b].base.info,
    ) by {
        assert(!identity_matches(v.devices[a].base.info, v.devices[b].base.info));
    }
    let devs = v.devices.update(
        i,
        DeviceView { base: v.devices[i].base.with_count(count), ..v.devices[i] },
    );
    assert forall|a: int, b: int|
        0 <= a < devs.len() && 0 <= b < devs.len() && a != b implies #[trigger] devs[a].base.id
        != #[trigger] devs[b].base.id by {
        assert(v.devices[a].base.id != v.devices[b].base.id);
    }
    assert forall|a: int, b: int|
        0 <= a < devs.len() && 0 <= b < devs.len() && a != b && (#[trigger] devs[a]).drive is Some
            && (#[trigger] devs[b]).drive is Some implies devs[a].drive->Some_0.index
        != devs[b].drive->Some_0.index by {
        assert(v.devices[a].drive is Some && v.devices[b].drive is Some);
    }
    assert forall|a: int| 0 <= a < devs.len() && (#[trigger] devs[a]).drive is Some implies devs[a].drive->Some_0.index
        < v.slots.next && !v.slots.released.contains(devs[a].drive->Some_0.index) by {
        assert(v.devices[a].drive is Some);
    }
}

/// Changing only the data of a record, but for its id, keeps the invariant.
proof fn lemma_wf_update_info(v: ManagerView, i: int, info: GenericConfigView)
    requires
        manager_wf(v),
        0 <= i < v.devices.len(),
        same_identity_fields(info, v.devices[i].base.info),
    ensures
        manager_wf(
            ManagerView {
                devices: v.devices.update(
                    i,
                    DeviceView { base: v.devices[i].base.with_info(info), ..v.devices[i] },
                ),
                ..v
            },
        ),
{
    let upd = v.devices.update(
        i,
        DeviceView { base: v.devices[i].base.with_info(info), ..v.devices[i] },
    );
    assert forall|a: int, b: int| 0 <= a < b < upd.len() implies !#[trigger] identity_matches(
        upd[a].base.info,
        upd[b].base.info,
    ) by {
        assert(!identity_matches(v.devices[a].base.info, v.devices[b].base.info));
    }
    let devs = v.devices.update(
        i,
        DeviceView { base: v.devices[i].base.with_info(info), ..v.devices[i] },
    );
    assert forall|a: int, b: int|
        0 <= a < devs.len() && 0 <= b < devs.len() && a != b implies #[trigger] devs[a].base.id
        != #[trigger] devs[b].base.id by {
        assert(v.devices[a].base.id != v.devices[b].base.id);
    }
    assert forall|a: int, b: int|
        0 <= a < devs.len() && 0 <= b < devs.len() && a != b && (#[trigger] devs[a]).drive is Some
            && (#[trigger] devs[b]).drive is Some implies devs[a].drive->Some_0.index
        != devs[b].drive->Some_0.index by {
        assert(v.devices[a].drive is Some && v.devices[b].drive is Some);
    }
    assert forall|a: int| 0 <= a < devs.len() && (#[trigger] devs[a]).drive is Some implies devs[a].drive->Some_0.index
        < v.slots.next && !v.slots.released.contains(devs[a].drive->Some_0.index) by {
        assert(v.devices[a].drive is Some);
    }
}

/// Adding a record with a fresh id, and with an ordinal that is held by no
/// other record and not released, keeps the invariant.
proof fn lemma_wf_push(v: ManagerView, rec: DeviceView, slots: SlotView)
    requires
        manager_wf(v),
        released_ok(slots),
        !id_in_use(v.devices, rec.base.id),
        forall|a: int| 0 <= a < v.devices.len() ==> !identity_matches(
            #[trigger] v.devices[a].base.info,
            rec.base.info,
        ),
        slots.next >= v.slots.next,
        forall|x: u64| slots.released.contains(x) ==> v.slots.released.contains(x),
        rec.drive is Some ==> rec.drive->Some_0.index < slots.next && !slots.released.contains(
            rec.drive->Some_0.index,
        ) && forall|a: int|
            0 <= a < v.devices.len() && (#[trigger] v.devices[a]).drive is Some
                ==> v.devices[a].drive->Some_0.index != rec.drive->Some_0.index,
    ensures
        manager_wf(ManagerView { devices: v.devices.push(rec), slots, ..v }),
{
    let pushed = v.devices.push(rec);
    assert forall|a: int, b: int| 0 <= a < b < pushed.len() implies !#[trigger] identity_matches(
        pushed[a].base.info,
        pushed[b].base.info,
    ) by {
        if b < v.devices.len() {
            assert(!identity_matches(v.devices[a].base.info, v.devices[b].base.info));
        } else {
            assert(!identity_matches(v.devices[a].base.info, rec.base.info));
        }
    }
    let devs = v.devices.push(rec);
    let n = v.devices.len() as int;
    assert forall|a: int, b: int|
        0 <= a < devs.len() && 0 <= b < devs.len() && a != b implies #[trigger] devs[a].base.id
        != #[trigger] devs[b].base.id by {
        if a < n && b < n {
            assert(v.devices[a].base.id != v.devices[b].base.id);
        } else if a == n {
            assert(devs[b] == v.devices[b]);
        } else {
            assert(devs[a] == v.devices[a]);
        }
    }
    assert forall|a: int, b: int|
        0 <= a < devs.len() && 0 <= b < devs.len() && a != b && (#[trigger] devs[a]).drive is Some
            && (#[trigger] devs[b]).drive is Some implies devs[a].drive->Some_0.index
        != devs[b].drive->Some_0.index by {
        if a < n && b < n {
            assert(v.devices[a].drive is Some && v.devices[b].drive is Some);
        } else if a == n {
            assert(v.devices[b].drive is Some);
        } else {
            assert(v.devices[a].drive is Some);
        }
    }
    assert forall|a: int| 0 <= a < devs.len() && (#[trigger] devs[a]).drive is Some implies devs[a].drive->Some_0.index
        < slots.next && !slots.released.contains(devs[a].drive->Some_0.index) by {
        if a < n {
            assert(v.devices[a].drive is Some);
        }
    }
}

/// An ordinal that acquiring issues under the invariant is held by no record
/// and is not left among the released ones.
proof fn lemma_acquire_fresh(v: ManagerView)
    requires
        manager_wf(v),
        acquire_outcome(v.slots).1 is Ok,
    ensures
        ({
            let (slots, idx) = acquire_outcome(v.slots);
            let k = idx->Ok_0;
            &&& released_ok(slots)
            &&& k < slots.next
            &&& k < u64::MAX
            &&& !slots.released.contains(k)
            &&& slots.next >= v.slots.next
            &&& forall|x: u64| slots.released.contains(x) ==> v.slots.released.contains(x)
            &&& forall|a: int|
                0 <= a < v.devices.len() && (#[trigger] v.devices[a]).drive is Some
                    ==> v.devices[a].drive->Some_0.index != k
        }),
{
    let (slots, idx) = acquire_outcome(v.slots);
    let k = idx->Ok_0;
    let r = v.slots.released;
    if r.len() > 0 {
        assert(r[0] < v.slots.next);
        assert(r.contains(r[0]));
        assert forall|x: u64| slots.released.contains(x) implies r.contains(x) by {
            let j = choose|j: int| 0 <= j < slots.released.len() && slots.released[j] == x;
            assert(r[j + 1] == x);
        }
        if slots.released.contains(k) {
            let j = choose|j: int| 0 <= j < slots.released.len() && slots.released[j] == k;
            assert(r[j + 1] == k);
        }
        assert forall|a: int| 0 <= a < v.devices.len() && (#[trigger] v.devices[a]).drive is Some implies v.devices[a].drive->Some_0.index
            != k by {
            assert(!r.contains(v.devices[a].drive->Some_0.index));
        }
        assert forall|i: int, j: int| 0 <= i < j < slots.released.len() implies slots.released[i]
            > slots.released[j] by {
            assert(r[i + 1] > r[j + 1]);
        }
        assert forall|j: int| 0 <= j < slots.released.len() implies #[trigger] slots.released[j]
            < slots.next by {
            assert(r[j + 1] < v.slots.next);
        }
    } else {
        assert forall|a: int| 0 <= a < v.devices.len() && (#[trigger] v.devices[a]).drive is Some implies v.devices[a].drive->Some_0.index
            != k by {
            assert(v.devices[a].drive->Some_0.index < v.slots.next);
        }
    }
}

/// The slots after the ordinal of record `rec`, if it has one, is released.
pub open spec fn slots_without(slots: SlotView, rec: DeviceView) -> SlotView {
    if rec.drive is Some {
        release_outcome(slots, rec.drive->Some_0.index)
    } else {
        slots
    }
}

/// Dropping a record and releasing its ordinal keeps the invariant.
proof fn lemma_wf_remove(v: ManagerView, i: int)
    requires
        manager_wf(v),
        0 <= i < v.devices.len(),
    ensures
        manager_wf(
            ManagerView {
                devices: v.devices.remove(i),
                slots: slots_without(v.slots, v.devices[i]),
                ..v
            },
        ),
{
    let rem = v.devices.remove(i);
    assert forall|a: int, b: int| 0 <= a < b < rem.len() implies !#[trigger] identity_matches(
        rem[a].base.info,
        rem[b].base.info,
    ) by {
        let a1 = if a < i {
            a
        } else {
            a + 1
        };
        let b1 = if b < i {
            b
        } else {
            b + 1
        };
        assert(rem[a] == v.devices[a1] && rem[b] == v.devices[b1]);
        assert(!identity_matches(v.devices[a1].base.info, v.devices[b1].base.info));
    }
    broadcast use vstd::seq_lib::group_to_multiset_ensures;

    let rec = v.devices[i];
    let devs = v.devices.remove(i);
    let slots = slots_without(v.slots, rec);
    assert forall|a: int| 0 <= a < devs.len() implies #[trigger] devs[a] == v.devices[if a < i {
        a
    } else {
        a + 1
    }] by {}
    if rec.drive is Some {
        let x = rec.drive->Some_0.index;
        lemma_sorted_insert(v.slots.released, x);
        lemma_sorted_insert_strict(v.slots.released, x);
        assert forall|y: u64| #[trigger] slots.released.contains(y) implies v.slots.released.contains(y)
            || y == x by {
            assert(slots.released.to_multiset().count(y) > 0);
        }
        assert forall|k: int| 0 <= k < slots.released.len() implies #[trigger] slots.released[k]
            < slots.next by {
            let y = slots.released[k];
            assert(slots.released.contains(y));
            if y != x {
                let j = choose|j: int| 0 <= j < v.slots.released.len() && v.slots.released[j] == y;
            }
        }
        assert forall|a: int| 0 <= a < devs.len() && (#[trigger] devs[a]).drive is Some implies devs[a].drive->Some_0.index
            < slots.next && !slots.released.contains(devs[a].drive->Some_0.index) by {
            let b = if a < i {
                a
            } else {
                a + 1
            };
            assert(v.devices[b].drive is Some);
            assert(v.devices[b].drive->Some_0.index != x);
        }
    }
    assert forall|a: int, b: int|
        0 <= a < devs.len() && 0 <= b < devs.len() && a != b implies #[trigger] devs[a].base.id
        != #[trigger] devs[b].base.id by {
        let a1 = if a < i {
            a
        } else {
            a + 1
        };
        let b1 = if b < i {
            b
        } else {
            b + 1
        };
        assert(v.devices[a1].base.id != v.devices[b1].base.id);
    }
    assert forall|a: int, b: int|
        0 <= a < devs.len() && 0 <= b < devs.len() && a != b && (#[trigger] devs[a]).drive is Some
            && (#[trigger] devs[b]).drive is Some implies devs[a].drive->Some_0.index
        != devs[b].drive->Some_0.index by {
        let a1 = if a < i {
            a
        } else {
            a + 1
        };
        let b1 = if b < i {
            b
        } else {
            b + 1
        };
        assert(v.devices[a1].drive is Some && v.devices[b1].drive is Some);
    }
}

/// A removal step: the hot-unplug request that the hypervisor must carry out
/// before the removal completes, if one is needed.
#[derive(Debug)]
pub struct RemoveStep {
    pub request: Option<DeviceConfig>,
}

/// What a removal returns, as a view: the hot-unplug request, if any.
pub open spec fn remove_request_view(r: Result<RemoveStep, DeviceError>) -> Result<Option<DeviceConfigView>, DeviceError> {
    match r {
        Ok(s) => Ok(request_view(s.request)),
        Err(e) => Err(e),
    }
}

/// Unregistering the device with id `id` in state `old` leads to state `new`
/// and returns `r`: one attachment less is counted; when the last one goes, a
/// generic record is dropped at once, while a block record stays with no
/// attachment until its hot-unplug completes.
pub open spec fn remove_relation(
    old: ManagerView,
    id: Seq<char>,
    new: ManagerView,
    r: Result<Option<DeviceConfigView>, DeviceError>,
) -> bool {
    match position_of_id(old.devices, id) {
        None => is_unknown(r, id) && new == old,
        Some(i) => {
            let rec = old.devices[i];
            let (count, res) = decrease_outcome(rec.base.attach_count);
            match res {
                Err(e) => r == Err::<Option<DeviceConfigView>, DeviceError>(e) && new == old,
                Ok(skip) => if skip || rec.drive is Some {
                    &&& new == (ManagerView {
                        devices: old.devices.update(
                            i,
                            DeviceView { base: rec.base.with_count(count), ..rec },
                        ),
                        ..old
                    })
                    &&& r == Ok::<Option<DeviceConfigView>, DeviceError>(
                        if skip {
                            None
                        } else {
                            Some(DeviceConfigView::Block(rec.drive->Some_0))
                        },
                    )
                } else {
                    &&& new == (ManagerView { devices: old.devices.remove(i), ..old })
                    &&& r == Ok::<Option<DeviceConfigView>, DeviceError>(None)
                },
            }
        },
    }
}

/// Completing the registration of the device with id `id` in state `old`,
/// on the hypervisor's answer `outcome`, leads to state `new` and returns
/// `r`: a device that is not registered and attached is unknown; a hot-plug
/// that worked keeps the record and records the guest PCI address given; one
/// that failed drops the record and releases its ordinal.
pub open spec fn complete_add_relation(
    old: ManagerView,
    id: Seq<char>,
    outcome: Result<Option<String>, String>,
    new: ManagerView,
    r: Result<String, DeviceError>,
) -> bool {
    &&& (!is_attached(old, id) ==> is_unknown(r, id) && new == old)
    &&& (is_attached(old, id) ==> {
        let i = position_of_id(old.devices, id)->Some_0;
        let rec = old.devices[i];
        match outcome {
            Ok(addr) => {
                &&& r is Ok
                &&& r->Ok_0@ == id
                &&& new == (ManagerView {
                    devices: old.devices.update(
                        i,
                        if addr is Some {
                            DeviceView {
                                base: rec.base.with_info(
                                    GenericConfigView {
                                        pci_addr: addr.deep_view(),
                                        ..rec.base.info
                                    },
                                ),
                                ..rec
                            }
                        } else {
                            rec
                        },
                    ),
                    ..old
                })
            },
            Err(cause) => {
                &&& r == Err::<String, DeviceError>(DeviceError::AttachFailed(cause))
                &&& new == (ManagerView {
                    devices: old.devices.remove(i),
                    slots: slots_without(old.slots, rec),
                    ..old
                })
            },
        }
    })
}

/// The record with id `id` is registered and has attachments.
pub open spec fn is_attached(v: ManagerView, id: Seq<char>) -> bool {
    position_of_id(v.devices, id) matches Some(i) && v.devices[i].base.attach_count >= 1
}

/// The record with id `id` is registered with no attachment left: its
/// hot-unplug is under way.
pub open spec fn is_detaching(v: ManagerView, id: Seq<char>) -> bool {
    position_of_id(v.devices, id) matches Some(i) && v.devices[i].base.attach_count == 0
}

/// Two descriptors that look a device up by the same identity: the same
/// device numbers when both are set; else the same BDF; else neither has a BDF
/// and both have the same host path.
pub open spec fn same_identity(d1: GenericConfigView, d2: GenericConfigView) -> bool {
    if d2.major >= 0 && d2.minor >= 0 {
        d1.major == d2.major && d1.minor == d2.minor
    } else if d2.bdf is Some {
        !(d1.major >= 0 && d1.minor >= 0) && d1.bdf == d2.bdf
    } else {
        !(d1.major >= 0 && d1.minor >= 0) && d1.bdf is None && d1.host_path == d2.host_path
    }
}

proof fn lemma_first_match_at(devs: Seq<DeviceView>, d: GenericConfigView, k: int, i: int)
    requires
        0 <= i <= k < devs.len(),
        identity_matches(devs[k].base.info, d),
        forall|j: int|
            0 <= j < k ==> !identity_matches(#[trigger] devs[j].base.info, d),
    ensures
        first_match_from(devs, d, i) == Some(k),
    decreases k - i,
{
    if i < k {
        lemma_first_match_at(devs, d, k, i + 1);
    }
}

/// Registering an identity that is registered and attached already, or
/// registering it anew and then again, gives one id and one record.
pub proof fn lemma_same_identity_same_record(
    s0: ManagerView,
    d1: GenericConfigView,
    s1: ManagerView,
    e1: GenericConfigView,
    r1: Result<AddStepView, DeviceError>,
    mint1: Option<Seq<char>>,
    d2: GenericConfigView,
    s2: ManagerView,
    e2: GenericConfigView,
    r2: Result<AddStepView, DeviceError>,
    mint2: Option<Seq<char>>,
)
    requires
        manager_wf(s0),
        add_relation(s0, d1, s1, e1, r1, mint1),
        r1 is Ok,
        add_relation(s1, d2, s2, e2, r2, mint2),
        r2 is Ok,
        same_identity(d1, d2),
    ensures
        r1->Ok_0.id == r2->Ok_0.id,
        s2.devices.len() == s1.devices.len(),
        s1.devices.len() <= s0.devices.len() + 1,
{
    assert forall|rec: GenericConfigView| identity_matches(rec, d1) == identity_matches(rec, d2) by {}
    lemma_first_match_from(s0.devices, d1, 0);
    match first_match(s0.devices, d1) {
        Some(i) => {
            let devs = s1.devices;
            assert forall|j: int|
                0 <= j < i implies !identity_matches(#[trigger] devs[j].base.info, d2) by {
                assert(devs[j] == s0.devices[j]);
            }
            lemma_first_match_at(devs, d2, i, 0);
        },
        None => {
            let devs = s1.devices;
            let n = s0.devices.len() as int;
            assert forall|j: int|
                0 <= j < n implies !identity_matches(#[trigger] devs[j].base.info, d2) by {
                assert(devs[j] == s0.devices[j]);
            }
            lemma_first_match_at(devs, d2, n, 0);
        },
    }
}

/// A registration asks for a hot-plug only when it creates the record of a
/// block device, which then has one attachment; a registration that finds an
/// attached record never does.
pub proof fn lemma_hotplug_on_first_attach_only(
    old: ManagerView,
    d: GenericConfigView,
    new: ManagerView,
    d2: GenericConfigView,
    r: Result<AddStepView, DeviceError>,
    mint: Option<Seq<char>>,
)
    requires
        add_relation(old, d, new, d2, r, mint),
        r is Ok,
    ensures
        r->Ok_0.request is Some <==> (first_match(old.devices, d) is None && is_block_type(
            d.dev_type,
        )),
        r->Ok_0.request is Some ==> !id_in_use(old.devices, r->Ok_0.id) && new.devices.last().base.id
            == r->Ok_0.id && new.devices.last().base.attach_count == 1,
{
}

proof fn lemma_position_at(devs: Seq<DeviceView>, id: Seq<char>, k: int, i: int)
    requires
        0 <= i <= k < devs.len(),
        devs[k].base.id == id,
        forall|j: int| 0 <= j < k ==> #[trigger] devs[j].base.id != id,
    ensures
        position_from(devs, id, i) == Some(k),
    decreases k - i,
{
    if i < k {
        lemma_position_at(devs, id, k, i + 1);
    }
}

/// A registration that asked for a hot-plug, completed with the hypervisor's
/// failure, leaves the records as they were before it, the failure returned
/// and the ordinal it took released.
pub proof fn lemma_failed_hotplug_rolls_back(
    s0: ManagerView,
    d: GenericConfigView,
    s1: ManagerView,
    d1: GenericConfigView,
    r1: Result<AddStepView, DeviceError>,
    mint: Option<Seq<char>>,
    cause: String,
    s2: ManagerView,
    r2: Result<String, DeviceError>,
)
    requires
        manager_wf(s0),
        manager_wf(s1),
        add_relation(s0, d, s1, d1, r1, mint),
        r1 matches Ok(step) && step.request is Some,
        complete_add_relation(s1, r1->Ok_0.id, Err(cause), s2, r2),
    ensures
        r2 == Err::<String, DeviceError>(DeviceError::AttachFailed(cause)),
        s2.devices == s0.devices,
        s2.slots.next == s1.slots.next,
        r1->Ok_0.request matches Some(DeviceConfigView::Block(c)) && s2.slots.released.contains(
            c.index,
        ),
{
    broadcast use vstd::seq_lib::group_to_multiset_ensures;

    let id = r1->Ok_0.id;
    let n = s0.devices.len() as int;
    assert(first_match(s0.devices, d) is None);
    assert(s1.devices[n].base.id == id);
    assert forall|j: int| 0 <= j < n implies #[trigger] s1.devices[j].base.id != id by {
        assert(s1.devices[j] == s0.devices[j]);
    }
    lemma_position_at(s1.devices, id, n, 0);
    assert(s1.devices.remove(n) =~= s0.devices);
    let x = s1.devices[n].drive->Some_0.index;
    lemma_sorted_insert(s1.slots.released, x);
    assert(sorted_insert(s1.slots.released, x).to_multiset().count(x) > 0);
}

/// A removal asks for a hot-unplug only when it takes the last attachment of
/// a block device.
pub proof fn lemma_hotunplug_on_last_detach_only(
    old: ManagerView,
    id: Seq<char>,
    new: ManagerView,
    r: Result<Option<DeviceConfigView>, DeviceError>,
)
    requires
        remove_relation(old, id, new, r),
        r matches Ok(Some(_)),
    ensures
        position_of_id(old.devices, id) matches Some(i) && old.devices[i].base.attach_count == 1
            && old.devices[i].drive is Some && new.devices[i].base.attach_count == 0,
{
    lemma_position_from(old.devices, id, 0);
}

/// A device entry of a container's spec.
#[derive(Debug, Default)]
pub struct LinuxDevice {
    /// Path of the device inside the container.
    pub path: String,
    /// `c`, `u`, `b` or `p`.
    pub dev_type: String,
    pub major: i64,
    pub minor: i64,
    pub file_mode: Option<u32>,
    pub uid: Option<u32>,
    pub gid: Option<u32>,
}

/// `o`, or zero when it is unset.
pub open spec fn or_zero(o: Option<u32>) -> u32 {
    match o {
        Some(v) => v,
        None => 0,
    }
}

fn is_valid_dev_type(t: &str) -> (r: bool)
    ensures
        r == valid_dev_type(t@),
{
    proof {
        reveal_strlit("c");
        reveal_strlit("u");
        reveal_strlit("b");
        reveal_strlit("p");
    }
    assert("c"@ =~= seq!['c']);
    assert("u"@ =~= seq!['u']);
    assert("b"@ =~= seq!['b']);
    assert("p"@ =~= seq!['p']);
    str_eq(t, "c") || str_eq(t, "u") || str_eq(t, "b") || str_eq(t, "p")
}

/// A block device descriptor: type `b`.
pub fn is_block(dev_info: &GenericConfig) -> (r: bool)
    ensures
        r == is_block_type(dev_info@.dev_type),
{
    proof {
        reveal_strlit("b");
    }
    assert("b"@ =~= seq!['b']);
    str_eq(dev_info.dev_type.as_str(), "b")
}

/// The descriptor of a container's device entry, with its PCI address and
/// rate caps; the host path, id and driver options are left to registration.
/// An unknown type or an empty path is refused.
pub fn new_device_info(device: &LinuxDevice, bdf: Option<String>, io_limits: Option<IoLimits>) -> (r:
    Result<GenericConfig, DeviceError>)
    ensures
        !(valid_dev_type(device.dev_type@) && device.path@.len() > 0) ==> r == Err::<
            GenericConfig,
            DeviceError,
        >(DeviceError::InvalidSpec),
        (valid_dev_type(device.dev_type@) && device.path@.len() > 0) ==> r is Ok && r->Ok_0@ == (
        GenericConfigView {
            host_path: Seq::empty(),
            container_path: device.path@,
            dev_type: device.dev_type@,
            major: device.major,
            minor: device.minor,
            file_mode: or_zero(device.file_mode),
            uid: or_zero(device.uid),
            gid: or_zero(device.gid),
            id: Seq::empty(),
            bdf: bdf.deep_view(),
            driver_options: Seq::empty(),
            io_limits,
            pci_addr: None,
            virt_path: None,
        }),
{
    if !is_valid_dev_type(device.dev_type.as_str()) {
        return Err(DeviceError::InvalidSpec);
    }
    if device.path.as_str().unicode_len() == 0 {
        return Err(DeviceError::InvalidSpec);
    }
    let file_mode = match device.file_mode {
        Some(v) => v,
        None => 0,
    };
    let uid = match device.uid {
        Some(v) => v,
        None => 0,
    };
    let gid = match device.gid {
        Some(v) => v,
        None => 0,
    };
    let r = GenericConfig {
        host_path: String::new(),
        container_path: device.path.clone(),
        dev_type: device.dev_type.clone(),
        major: device.major,
        minor: device.minor,
        file_mode,
        uid,
        gid,
        id: String::new(),
        bdf,
        driver_options: Vec::new(),
        io_limits,
        pci_addr: None,
        virt_path: None,
    };
    assert(r@.driver_options =~= Seq::<(Seq<char>, Seq<char>)>::empty());
    Ok(r)
}

fn opt_str_eq(a: &Option<String>, b: &Option<String>) -> (r: bool)
    ensures
        r == (a.deep_view() == b.deep_view()),
{
    match (a, b) {
        (Some(x), Some(y)) => str_eq(x.as_str(), y.as_str()),
        (None, None) => true,
        _ => false,
    }
}

fn matches_identity(rec: &GenericConfig, d: &GenericConfig) -> (r: bool)
    ensures
        r == identity_matches(rec@, d@),
{
    if d.major >= 0 && d.minor >= 0 {
        rec.major == d.major && rec.minor == d.minor
    } else if d.bdf.is_some() {
        opt_str_eq(&rec.bdf, &d.bdf)
    } else {
        str_eq(rec.host_path.as_str(), d.host_path.as_str())
    }
}

fn find_position(devices: &Vec<Device>, id: &str) -> (r: Option<usize>)
    ensures
        r matches Some(k) ==> position_of_id(views_of(devices@), id@) == Some(k as int),
        r is None ==> position_of_id(views_of(devices@), id@) is None,
        r matches Some(i) ==> i < devices@.len() && devices@[i as int]@.base.id == id@,
{
    let ghost devs = views_of(devices@);
    proof {
        lemma_position_from(devs, id@, 0);
    }
    let mut i: usize = 0;
    while i < devices.len()
        invariant
            i <= devices@.len(),
            devs == views_of(devices@),
            position_of_id(devs, id@) == position_from(devs, id@, i as int),
        decreases devices@.len() - i,
    {
        if str_eq(devices[i].device_id(), id) {
            return Some(i);
        }
        i = i + 1;
    }
    None
}

/// [`MAX_ID_DRAWS`] random 64-bit values.
fn draw_ids() -> (r: Vec<u64>)
    ensures
        r@.len() == MAX_ID_DRAWS,
{
    let mut draws: Vec<u64> = Vec::new();
    let mut k: usize = 0;
    while k < MAX_ID_DRAWS
        invariant
            k <= MAX_ID_DRAWS,
            draws@.len() == k,
        decreases MAX_ID_DRAWS - k,
    {
        draws.push(rand::random::<u64>());
        k = k + 1;
    }
    draws
}

/// Minting from at least one draw is a random mint: a fresh id, and no id
/// only when some record exists.
proof fn lemma_mint_random(devs: Seq<DeviceView>, draws: Seq<u64>)
    requires
        draws.len() > 0,
    ensures
        random_mint(devs, mint_of(devs, draws)),
{
    lemma_first_free_draw(devs, draws, 0);
    if devs.len() == 0 {
        assert(!id_in_use(devs, hex_digits(draws[0] as nat)));
        assert(first_free_draw(devs, draws, 0) == Some(0int));
    }
}

impl DeviceManager {
    /// The manager's state keeps its invariant.
    pub closed spec fn wf(&self) -> bool {
        manager_wf(self@) && self.slots.wf()
    }

    /// A manager with no devices, for a sandbox whose block driver is
    /// `virtio-mmio` or `virtio-blk`; any other driver is refused.
    pub fn new(block_driver: &str) -> (r: Result<Self, DeviceError>)
        ensures
            (block_driver@ == virtio_mmio() || block_driver@ == virtio_blk()) ==> r is Ok && r->Ok_0.wf()
                && manager_wf(r->Ok_0@)
                && r->Ok_0@ == (ManagerView {
                block_driver: block_driver@,
                devices: Seq::empty(),
                slots: SlotView { next: 0, released: Seq::empty() },
            }),
            !(block_driver@ == virtio_mmio() || block_driver@ == virtio_blk()) ==> r == Err::<
                Self,
                DeviceError,
            >(DeviceError::UnsupportedBlockDriver),
    {
        proof {
            reveal_strlit("virtio-mmio");
            reveal_strlit("virtio-blk");
        }
        assert("virtio-mmio"@ =~= virtio_mmio());
        assert("virtio-blk"@ =~= virtio_blk());
        if str_eq(block_driver, "virtio-mmio") || str_eq(block_driver, "virtio-blk") {
            let m = DeviceManager {
                block_driver: string_of(block_driver),
                devices: Vec::new(),
                slots: SlotAllocator::new(),
            };
            assert(m@.devices =~= Seq::<DeviceView>::empty());
            Ok(m)
        } else {
            Err(DeviceError::UnsupportedBlockDriver)
        }
    }

    /// The block driver of the sandbox.
    pub fn get_block_driver(&self) -> (r: &str)
        ensures
            r@ == self@.block_driver,
    {
        self.block_driver.as_str()
    }

    /// The registered device with this id.
    pub fn get_device_by_id(&self, id: &str) -> (r: Option<&Device>)
        ensures
            match position_of_id(self@.devices, id@) {
                Some(i) => r is Some && r->Some_0@ == self@.devices[i],
                None => r is None,
            },
    {
        match find_position(&self.devices, id) {
            Some(i) => {
                assert(self@.devices[i as int] == self.devices@[i as int]@);
                Some(&self.devices[i])
            },
            None => None,
        }
    }

    /// How many devices are registered.
    pub fn device_count(&self) -> (r: usize)
        ensures
            r == self@.devices.len(),
    {
        self.devices.len()
    }

    /// The next fresh block ordinal.
    pub fn block_index(&self) -> (r: u64)
        ensures
            r == self@.slots.next,
    {
        self.slots.block_index()
    }

    /// The released block ordinals, largest first.
    pub fn released_indices(&self) -> (r: Vec<u64>)
        ensures
            r@ == self@.slots.released,
    {
        self.slots.released_indices()
    }

    /// The guest path of the device with this id, once it has one.
    pub fn get_device_guest_path(&self, id: &str) -> (r: Option<String>)
        ensures
            match position_of_id(self@.devices, id@) {
                Some(i) => r.deep_view() == self@.devices[i].base.info.virt_path,
                None => r is None,
            },
    {
        match find_position(&self.devices, id) {
            Some(i) => {
                assert(self@.devices[i as int] == self.devices@[i as int]@);
                self.devices[i].get_device_info().virt_path
            },
            None => None,
        }
    }

    /// What the guest agent needs to know of the device with this id: its
    /// container path and, once the device has a guest path under the
    /// sandbox's block driver, its id, agent type and that path.
    pub fn generate_agent_device(&self, id: &str) -> (r: Result<AgentDevice, DeviceError>)
        ensures
            match position_of_id(self@.devices, id@) {
                Some(i) => r is Ok && r->Ok_0@ == agent_device_of(
                    id@,
                    self@.devices[i].base.info,
                    self@.block_driver,
                ),
                None => is_unknown(r, id@),
            },
    {
        let i = match find_position(&self.devices, id) {
            Some(i) => i,
            None => return Err(DeviceError::Unknown(string_of(id))),
        };
        assert(self@.devices[i as int] == self.devices@[i as int]@);
        let info = self.devices[i].get_device_info();
        let mut device = AgentDevice {
            id: String::new(),
            container_path: info.container_path,
            field_type: String::new(),
            vm_path: String::new(),
        };
        proof {
            reveal_strlit("virtio-mmio");
            reveal_strlit("virtio-blk");
            reveal_strlit("mmioblk");
            reveal_strlit("blk");
        }
        assert("virtio-mmio"@ =~= virtio_mmio());
        assert("virtio-blk"@ =~= virtio_blk());
        assert("mmioblk"@ =~= mmioblk_type());
        assert("blk"@ =~= blk_type());
        if str_eq(self.block_driver.as_str(), "virtio-mmio") {
            if let Some(path) = info.virt_path {
                device.id = string_of(id);
                device.field_type = string_of("mmioblk");
                device.vm_path = path;
            }
        } else if str_eq(self.block_driver.as_str(), "virtio-blk") {
            if let Some(addr) = info.pci_addr {
                device.id = string_of(id);
                device.field_type = string_of("blk");
                device.vm_path = addr;
            }
        }
        Ok(device)
    }

    fn find_device(&self, dev_info: &GenericConfig) -> (r: Option<usize>)
        ensures
            r matches Some(k) ==> first_match(self@.devices, dev_info@) == Some(k as int) && k
                < self@.devices.len(),
            r is None ==> first_match(self@.devices, dev_info@) is None,
    {
        let ghost devs = self@.devices;
        proof {
            lemma_first_match_from(devs, dev_info@, 0);
        }
        let mut i: usize = 0;
        while i < self.devices.len()
            invariant
                i <= self.devices@.len(),
                devs == views_of(self.devices@),
                first_match(devs, dev_info@) == first_match_from(devs, dev_info@, i as int),
            decreases self.devices@.len() - i,
        {
            assert(devs[i as int] == self.devices@[i as int]@);
            let info = self.devices[i].get_device_info();
            if matches_identity(&info, dev_info) {
                return Some(i);
            }
            i = i + 1;
        }
        None
    }

    fn is_id_in_use(&self, id: &str) -> (r: bool)
        ensures
            r == id_in_use(self@.devices, id@),
    {
        proof {
            lemma_position_from(self@.devices, id@, 0);
        }
        let found = find_position(&self.devices, id);
        found.is_some()
    }

    /// Mints an id from the given draws: the hexadecimal rendering of the first
    /// of the first [`MAX_ID_DRAWS`] draws that no record has as its id.
    pub fn device_id_from_draws(&self, draws: &Vec<u64>) -> (r: Result<String, DeviceError>)
        ensures
            match first_free_draw(self@.devices, draws@, 0) {
                Some(k) => r is Ok && r->Ok_0@ == hex_digits(draws@[k] as nat),
                None => r == Err::<String, DeviceError>(DeviceError::IdExhausted),
            },
    {
        let mut k: usize = 0;
        while k < draws.len() && k < MAX_ID_DRAWS
            invariant
                k <= MAX_ID_DRAWS,
                first_free_draw(self@.devices, draws@, 0) == first_free_draw(
                    self@.devices,
                    draws@,
                    k as int,
                ),
            decreases MAX_ID_DRAWS - k,
        {
            let id = hex_string(draws[k]);
            if !self.is_id_in_use(id.as_str()) {
                return Ok(id);
            }
            k = k + 1;
        }
        Err(DeviceError::IdExhausted)
    }

    /// Mints a device id that no record has: a random 64-bit value in
    /// lowercase hexadecimal, drawn up to [`MAX_ID_DRAWS`] times. With no
    /// record registered no draw can collide, so minting succeeds.
    pub fn new_device_id(&self) -> (r: Result<String, DeviceError>)
        ensures
            r matches Ok(id) ==> !id_in_use(self@.devices, id@) && exists|n: u64|
                id@ == hex_digits(n as nat),
            r is Err ==> r == Err::<String, DeviceError>(DeviceError::IdExhausted),
            self@.devices.len() == 0 ==> r is Ok,
    {
        let draws = draw_ids();
        proof {
            lemma_first_free_draw(self@.devices, draws@, 0);
            lemma_mint_random(self@.devices, draws@);
        }
        let r = self.device_id_from_draws(&draws);
        proof {
            if let Some(k) = first_free_draw(self@.devices, draws@, 0) {
                assert(r->Ok_0@ == hex_digits(draws@[k] as nat));
            }
        }
        r
    }

    /// Registers a device described by `dev_info`, whose host path is already
    /// resolved, minting the id of a new record from random draws. With no
    /// record registered no draw can collide, so a new registration fails
    /// only when no ordinal is left.
    pub fn try_add_device(&mut self, dev_info: &mut GenericConfig) -> (r: Result<AddStep, DeviceError>)
        requires
            old(self).wf(),
        ensures
            final(self).wf(),
            manager_wf(final(self)@),
            exists|mint: Option<Seq<char>>|
                random_mint(old(self)@.devices, mint) && #[trigger] add_relation(
                    old(self)@,
                    old(dev_info)@,
                    final(self)@,
                    final(dev_info)@,
                    add_result_view(r),
                    mint,
                ),
    {
        let draws = draw_ids();
        proof {
            lemma_mint_random(self@.devices, draws@);
        }
        let ghost mint = mint_of(self@.devices, draws@);
        let r = self.try_add_device_from_draws(dev_info, &draws);
        assert(random_mint(old(self)@.devices, mint));
        r
    }

    /// Registers a device described by `dev_info`, whose host path is already
    /// resolved. A device that is registered and attached already only counts
    /// one more attachment. A new one gets a fresh id, written into `dev_info`;
    /// a new block device also gets the sandbox's block driver as a driver
    /// option, an ordinal and a guest path, and the returned step carries the
    /// hot-plug request, whose outcome [`DeviceManager::complete_add_device`]
    /// takes. The id of a new record is minted from `draws`, as
    /// [`DeviceManager::device_id_from_draws`] does; a registration that finds
    /// a record awaiting the end of its hot-unplug is refused.
    pub fn try_add_device_from_draws(&mut self, dev_info: &mut GenericConfig, draws: &Vec<u64>) -> (r:
        Result<AddStep, DeviceError>)
        requires
            old(self).wf(),
        ensures
            final(self).wf(),
            manager_wf(final(self)@),
            add_relation(
                old(self)@,
                old(dev_info)@,
                final(self)@,
                final(dev_info)@,
                add_result_view(r),
                mint_of(old(self)@.devices, draws@),
            ),
    {
        if !is_valid_dev_type(dev_info.dev_type.as_str()) || dev_info.container_path.as_str().unicode_len()
            == 0 {
            return Err(DeviceError::InvalidSpec);
        }
        if let Some(i) = self.find_device(dev_info) {
            let ghost before = self@;
            proof {
                lemma_first_match_from(before.devices, dev_info@, 0);
            }
            assert(before.devices[i as int] == self.devices@[i as int]@);
            if self.devices[i].get_attach_count() == 0 {
                return Err(DeviceError::DetachPending);
            }
            let mut dev = self.devices.remove(i);
            assert(dev@ == before.devices[i as int]);
            let res = dev.increase_attach_count();
            let id = string_of(dev.device_id());
            self.devices.insert(i, dev);
            let ghost count = increase_outcome(before.devices[i as int].base.attach_count).0;
            assert(self@.devices =~= before.devices.update(
                i as int,
                DeviceView {
                    base: before.devices[i as int].base.with_count(count),
                    ..before.devices[i as int]
                },
            ));
            proof {
                lemma_wf_update_count(before, i as int, count);
                if res is Err {
                    assert(self@.devices =~= before.devices);
                }
            }
            return match res {
                Ok(_) => Ok(AddStep { id, request: None }),
                Err(e) => Err(e),
            };
        }
        proof {
            lemma_first_free_draw(self@.devices, draws@, 0);
        }
        let id = match self.device_id_from_draws(draws) {
            Ok(id) => id,
            Err(e) => return Err(e),
        };
        let ghost before = self@;
        proof {
            lemma_first_match_from(before.devices, dev_info@, 0);
        }
        let block = is_block(dev_info);
        let mut index: u64 = 0;
        if block {
            match self.slots.acquire() {
                Ok(k) => {
                    index = k;
                },
                Err(e) => {
                    return Err(e);
                },
            }
            proof {
                lemma_acquire_fresh(before);
            }
        }
        dev_info.id = id.clone();
        if block {
            proof {
                reveal_strlit("block-driver");
                lemma_options_with(
                    old(dev_info)@.driver_options,
                    block_driver_key(),
                    self@.block_driver,
                    block_driver_key(),
                );
            }
            assert("block-driver"@ =~= block_driver_key());
            set_option(&mut dev_info.driver_options, string_of("block-driver"), self.block_driver.clone());
            let ghost info = dev_info@;
            assert(info == registered_info(old(dev_info)@, id@, before.block_driver));
            let mut bd = BlockDevice::new(dev_info);
            let _ = bd.increase_attach_count();
            let name = virt_drive_name_of(index);
            assert(self@.block_driver.len() != nvdimm().len());
            let request = bd.attach(DeviceArgument { index: Some(index), drive_name: Some(name) });
            self.devices.push(Device::Block(bd));
            assert(self@.devices =~= before.devices.push(new_block_record(info, index)));
            proof {
                assert forall|a: int| 0 <= a < before.devices.len() implies !identity_matches(
                    #[trigger] before.devices[a].base.info,
                    new_block_record(info, index).base.info,
                ) by {
                    assert(!identity_matches(before.devices[a].base.info, old(dev_info)@));
                }
                lemma_wf_push(before, new_block_record(info, index), self@.slots);
            }
            Ok(AddStep { id, request: Some(request) })
        } else {
            let ghost info = dev_info@;
            assert(info == registered_info(old(dev_info)@, id@, before.block_driver));
            let mut gd = GenericDevice::new(dev_info);
            let _ = gd.increase_attach_count();
            self.devices.push(Device::Generic(gd));
            assert(self@.devices =~= before.devices.push(new_generic_record(info)));
            proof {
                assert forall|a: int| 0 <= a < before.devices.len() implies !identity_matches(
                    #[trigger] before.devices[a].base.info,
                    new_generic_record(info).base.info,
                ) by {
                    assert(!identity_matches(before.devices[a].base.info, old(dev_info)@));
                }
                lemma_wf_push(before, new_generic_record(info), self@.slots);
            }
            Ok(AddStep { id, request: None })
        }
    }

    /// Takes the hypervisor's answer to the hot-plug of the device with id
    /// `id`: on success the device keeps its record, with the guest PCI address
    /// the hypervisor gave, if any; on failure the record is dropped, its
    /// ordinal released, and the failure returned.
    pub fn complete_add_device(&mut self, id: &str, outcome: Result<Option<String>, String>) -> (r:
        Result<String, DeviceError>)
        requires
            old(self).wf(),
        ensures
            final(self).wf(),
            manager_wf(final(self)@),
            complete_add_relation(old(self)@, id@, outcome, final(self)@, r),
    {
        let ghost before = self@;
        let i = match find_position(&self.devices, id) {
            Some(i) => i,
            None => return Err(DeviceError::Unknown(string_of(id))),
        };
        assert(before.devices[i as int] == self.devices@[i as int]@);
        if self.devices[i].get_attach_count() == 0 {
            return Err(DeviceError::Unknown(string_of(id)));
        }
        match outcome {
            Ok(addr) => {
                if addr.is_some() {
                    let mut dev = self.devices.remove(i);
                    dev.set_pci_addr(addr);
                    self.devices.insert(i, dev);
                    let ghost rec = before.devices[i as int];
                    assert(self@.devices =~= before.devices.update(
                        i as int,
                        DeviceView {
                            base: rec.base.with_info(
                                GenericConfigView { pci_addr: self@.devices[i as int].base.info.pci_addr, ..rec.base.info },
                            ),
                            ..rec
                        },
                    ));
                    proof {
                        lemma_wf_update_info(before, i as int, self@.devices[i as int].base.info);
                    }
                } else {
                    assert(before.devices.update(i as int, before.devices[i as int]) =~= before.devices);
                }
                Ok(string_of(id))
            },
            Err(cause) => {
                let dev = self.devices.remove(i);
                if let Some(index) = dev.get_index() {
                    self.slots.release(index);
                }
                proof {
                    lemma_wf_remove(before, i as int);
                }
                assert(self@.devices =~= before.devices.remove(i as int));
                Err(DeviceError::AttachFailed(cause))
            },
        }
    }

    /// Unregisters one use of the device with id `id`. While other uses remain
    /// only the count goes down. On the last one a generic device is dropped at
    /// once, and a block device returns its hot-unplug request, whose outcome
    /// [`DeviceManager::complete_remove_device`] takes.
    pub fn try_remove_device(&mut self, id: &str) -> (r: Result<RemoveStep, DeviceError>)
        requires
            old(self).wf(),
        ensures
            final(self).wf(),
            manager_wf(final(self)@),
            remove_relation(old(self)@, id@, final(self)@, remove_request_view(r)),
    {
        let ghost before = self@;
        let i = match find_position(&self.devices, id) {
            Some(i) => i,
            None => return Err(DeviceError::Unknown(string_of(id))),
        };
        assert(before.devices[i as int] == self.devices@[i as int]@);
        let mut dev = self.devices.remove(i);
        let res = dev.decrease_attach_count();
        let ghost count = decrease_outcome(before.devices[i as int].base.attach_count).0;
        let ghost updated = before.devices.update(
            i as int,
            DeviceView {
                base: before.devices[i as int].base.with_count(count),
                ..before.devices[i as int]
            },
        );
        match res {
            Err(e) => {
                self.devices.insert(i, dev);
                assert(self@.devices =~= before.devices.update(i as int, before.devices[i as int]));
                assert(before.devices.update(i as int, before.devices[i as int]) =~= before.devices);
                Err(e)
            },
            Ok(true) => {
                self.devices.insert(i, dev);
                assert(self@.devices =~= updated);
                proof {
                    lemma_wf_update_count(before, i as int, count);
                }
                Ok(RemoveStep { request: None })
            },
            Ok(false) => {
                match dev {
                    Device::Block(b) => {
                        let request = b.detach();
                        self.devices.insert(i, Device::Block(b));
                        assert(self@.devices =~= updated);
                        proof {
                            lemma_wf_update_count(before, i as int, count);
                        }
                        Ok(RemoveStep { request: Some(request) })
                    },
                    Device::Generic(_) => {
                        assert(self@.devices =~= before.devices.remove(i as int));
                        proof {
                            lemma_wf_remove(before, i as int);
                        }
                        Ok(RemoveStep { request: None })
                    },
                }
            },
        }
    }

    /// Takes the hypervisor's answer to the hot-unplug of the device with id
    /// `id`: on success the record is dropped and its ordinal released; on
    /// failure the device counts one attachment again and the failure is
    /// returned.
    pub fn complete_remove_device(&mut self, id: &str, outcome: Result<(), String>) -> (r: Result<
        (),
        DeviceError,
    >)
        requires
            old(self).wf(),
        ensures
            final(self).wf(),
            manager_wf(final(self)@),
            !is_detaching(old(self)@, id@) ==> is_unknown(r, id@) && final(self)@ == old(self)@,
            is_detaching(old(self)@, id@) ==> ({
                let i = position_of_id(old(self)@.devices, id@)->Some_0;
                let rec = old(self)@.devices[i];
                match outcome {
                    Ok(_) => {
                        &&& r is Ok
                        &&& final(self)@ == (ManagerView {
                            devices: old(self)@.devices.remove(i),
                            slots: slots_without(old(self)@.slots, rec),
                            ..old(self)@
                        })
                    },
                    Err(cause) => {
                        &&& r == Err::<(), DeviceError>(DeviceError::DetachFailed(cause))
                        &&& final(self)@ == (ManagerView {
                            devices: old(self)@.devices.update(
                                i,
                                DeviceView { base: rec.base.with_count(1), ..rec },
                            ),
                            ..old(self)@
                        })
                    },
                }
            }),
    {
        let ghost before = self@;
        let i = match find_position(&self.devices, id) {
            Some(i) => i,
            None => return Err(DeviceError::Unknown(string_of(id))),
        };
        assert(before.devices[i as int] == self.devices@[i as int]@);
        if self.devices[i].get_attach_count() != 0 {
            return Err(DeviceError::Unknown(string_of(id)));
        }
        match outcome {
            Ok(()) => {
                let dev = self.devices.remove(i);
                if let Some(index) = dev.get_index() {
                    self.slots.release(index);
                }
                proof {
                    lemma_wf_remove(before, i as int);
                }
                assert(self@.devices =~= before.devices.remove(i as int));
                Ok(())
            },
            Err(cause) => {
                let mut dev = self.devices.remove(i);
                let _ = dev.increase_attach_count();
                self.devices.insert(i, dev);
                assert(self@.devices =~= before.devices.update(
                    i as int,
                    DeviceView {
                        base: before.devices[i as int].base.with_count(1),
                        ..before.devices[i as int]
                    },
                ));
                proof {
                    lemma_wf_update_count(before, i as int, 1);
                }
                Err(DeviceError::DetachFailed(cause))
            },
        }
    }

    /// In every state the manager reaches, no two records share an id, no two
    /// block records share an ordinal, and no ordinal a record holds is among
    /// the released ones.
    pub proof fn lemma_ids_and_ordinals_unique(&self)
        requires
            self.wf(),
        ensures
            ids_unique(self@.devices),
            ordinals_unique(self@.devices),
            ordinals_held(self@.devices, self@.slots),
    {
    }
}

} // verus!
