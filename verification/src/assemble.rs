//! Assembles the read stack of a carapace: a zero device, a verity and a snapshot
//! device per scute, and the operator-visible device on top.
//!
//! The stack is built by an [`Assembly`], a state machine: it says what to do next
//! ([`Assembly::next`]), the caller does it and reports the outcome. A failure turns
//! the machine round: it then asks for the removal of every device that was created,
//! the latest first, so that no device goes before one that is built on it.

use vstd::prelude::*;
use vstd::string::*;

use crate::dm::device::{
    create_outcome, dev_of, law_split_dev_inverts, load_outcome, major_minor, plain_outcome, DmCreateMode, DmDevice, DmDeviceModel,
    DM_UDEV_PRIMARY_SOURCE_COOKIE,
};
use crate::dm::header::DmHeader;
use crate::dm::listing::belongs;
use crate::dm::table::{DevRef, DmTable, LineModel, TableLine, TargetModel, TargetSpec};
use crate::dm::{DmErrorModel, IoError, IoErrorKind};
use crate::error::{CarapaceError, CarapaceErrorModel};
use crate::text::{decimal, decimal_text, lemma_decimal};

verus! {

/// The apparent length of the composed device: 64 GiB. Every snapshot has the length
/// of the zero device that it stands on; the kernel takes no longer one.
pub const ZERO_COUNT_SECTORS: u64 = 134217728;

/// The chunk size of every snapshot.
pub const SNAPSHOT_CHUNK_SIZE_SECTORS: u64 = 8;

/// The block size of every verity device.
pub const VERITY_BLOCK_SIZE_BYTES: u64 = 4096;

/// A scute that the chain walker has accepted: where its parts are, and what its
/// verity device is made with.
#[derive(Debug, PartialEq, Eq)]
pub struct Scute {
    /// The partition with the snapshot's exception store.
    pub cow: DevRef,
    /// The partition with the hash tree.
    pub verity: DevRef,
    pub algorithm: String,
    pub data_blocks: u64,
    pub salt: Vec<u8>,
    pub root: Vec<u8>,
}

/// What a [`Scute`] holds.
pub struct ScuteModel {
    pub cow: DevRef,
    pub verity: DevRef,
    pub algorithm: Seq<char>,
    pub data_blocks: u64,
    pub salt: Seq<u8>,
    pub root: Seq<u8>,
}

impl View for Scute {
    type V = ScuteModel;

    open spec fn view(&self) -> ScuteModel {
        ScuteModel {
            cow: self.cow,
            verity: self.verity,
            algorithm: self.algorithm@,
            data_blocks: self.data_blocks,
            salt: self.salt@,
            root: self.root@,
        }
    }
}

/// A layer of the stack. From the bottom: zero, then verity and snapshot of each
/// scute, then the top.
#[derive(Debug, Clone, Copy, PartialEq, Eq, Structural)]
pub enum Layer {
    Zero,
    Verity(usize),
    Snapshot(usize),
    Top,
}

/// How many layers a stack of `n` scutes has.
pub open spec fn layer_count(n: int) -> int {
    2 * n + 2
}

/// Layer number `k` of a stack of `n` scutes.
pub open spec fn layer_at(n: int, k: int) -> Layer {
    if k == 0 {
        Layer::Zero
    } else if k == 2 * n + 1 {
        Layer::Top
    } else if k % 2 == 1 {
        Layer::Verity((k / 2) as usize)
    } else {
        Layer::Snapshot((k / 2 - 1) as usize)
    }
}

/// The number of a layer in a stack of `n` scutes.
pub open spec fn layer_number(n: int, layer: Layer) -> int {
    match layer {
        Layer::Zero => 0,
        Layer::Verity(i) => 2 * i + 1,
        Layer::Snapshot(i) => 2 * i + 2,
        Layer::Top => 2 * n + 1,
    }
}

/// The name of a layer's device in the stack `name`.
pub open spec fn layer_name(name: Seq<char>, layer: Layer) -> Seq<char> {
    match layer {
        Layer::Zero => name + "-z0"@,
        Layer::Verity(i) => name + "-v"@ + decimal(i as nat),
        Layer::Snapshot(i) => name + "-s"@ + decimal(i as nat),
        Layer::Top => name,
    }
}

/// Only the zero device is created writable.
pub open spec fn layer_mode(layer: Layer) -> DmCreateMode {
    match layer {
        Layer::Zero => DmCreateMode::ReadWrite,
        _ => DmCreateMode::ReadOnly,
    }
}

/// Only the top is announced to udev as a device of its own.
pub open spec fn layer_cookie(layer: Layer) -> u32 {
    match layer {
        Layer::Top => DM_UDEV_PRIMARY_SOURCE_COOKIE,
        _ => 0,
    }
}

/// The layer that a snapshot stands on: the zero device, or the snapshot below it.
pub open spec fn origin_number(i: int) -> int {
    2 * i
}

/// The table of a layer, given the scutes and the devices of the layers below it.
pub open spec fn layer_line(
    scutes: Seq<ScuteModel>,
    devices: Seq<DmDeviceModel>,
    layer: Layer,
) -> LineModel {
    match layer {
        Layer::Zero => LineModel {
            start: 0,
            length: ZERO_COUNT_SECTORS,
            target: TargetModel::Zero,
        },
        Layer::Verity(i) => LineModel {
            start: 0,
            length: (scutes[i as int].data_blocks * VERITY_BLOCK_SIZE_BYTES / 512) as u64,
            target: TargetModel::Verity {
                data: scutes[i as int].cow,
                hash: scutes[i as int].verity,
                algorithm: scutes[i as int].algorithm,
                data_blocks: scutes[i as int].data_blocks,
                salt: scutes[i as int].salt,
                root: scutes[i as int].root,
            },
        },
        Layer::Snapshot(i) => LineModel {
            start: 0,
            length: ZERO_COUNT_SECTORS,
            target: TargetModel::Snapshot {
                origin: major_minor(devices[origin_number(i as int)].dev_t),
                cow: major_minor(devices[2 * i + 1].dev_t),
                chunk_size_sectors: SNAPSHOT_CHUNK_SIZE_SECTORS,
            },
        },
        Layer::Top => LineModel {
            start: 0,
            length: ZERO_COUNT_SECTORS,
            target: TargetModel::Linear {
                device: major_minor(devices[2 * (scutes.len() as int)].dev_t),
                offset_sectors: 0,
            },
        },
    }
}

/// Where an assembly stands.
pub enum PhaseModel {
    /// The next layer's device is to be created.
    Create,
    /// The latest device is to get its table.
    Load,
    /// The latest device is to be activated.
    Resume,
    /// The snapshot header is to be checked, as read through the latest device.
    Check,
    /// A stale link to the top is to be removed.
    Unlink,
    /// The link to the top is to be made.
    Link,
    /// The devices are to be removed, after this error.
    RollBack(CarapaceErrorModel),
    /// The stack is there.
    Done,
    /// There is no stack, after this error.
    Failed(CarapaceErrorModel),
}

/// The state of an assembly.
pub struct AssemblyModel {
    pub name: Seq<char>,
    pub scutes: Seq<ScuteModel>,
    /// The devices that were created, in order.
    pub devices: Seq<DmDeviceModel>,
    pub phase: PhaseModel,
}

/// What is to be done next.
pub enum ActionModel {
    Create { name: Seq<char>, mode: DmCreateMode },
    Load { table: Seq<LineModel> },
    Resume { udev_cookie: u32 },
    Check { node: Seq<char>, scute: usize },
    Unlink { path: Seq<char> },
    Link { path: Seq<char>, target: Seq<char> },
    Remove { name: Seq<char> },
    Nothing,
}

/// The path of the operator-visible device.
pub open spec fn mapper_path(name: Seq<char>) -> Seq<char> {
    "/dev/mapper/"@ + name
}

/// What a device's node is called.
pub open spec fn node_path(device: DmDeviceModel) -> Seq<char> {
    "/dev/dm-"@ + decimal(major_minor(device.dev_t).1 as nat)
}

/// What the link at [`mapper_path`] says: the node, as seen from there.
pub open spec fn link_target(device: DmDeviceModel) -> Seq<char> {
    "../dm-"@ + decimal(major_minor(device.dev_t).1 as nat)
}

impl AssemblyModel {
    /// A new assembly.
    pub open spec fn start(name: Seq<char>, scutes: Seq<ScuteModel>) -> AssemblyModel {
        AssemblyModel { name, scutes, devices: Seq::empty(), phase: PhaseModel::Create }
    }

    /// How many layers the stack will have.
    pub open spec fn total(self) -> int {
        layer_count(self.scutes.len() as int)
    }

    /// Layer number `k` of this stack.
    pub open spec fn layer(self, k: int) -> Layer {
        layer_at(self.scutes.len() as int, k)
    }

    /// The layer whose device was created last.
    pub open spec fn latest(self) -> Layer {
        self.layer(self.devices.len() - 1)
    }

    /// What always holds: the devices are those of the lowest layers, in order, and
    /// the phase fits their number.
    pub open spec fn wf(self) -> bool {
        &&& self.total() <= usize::MAX
        &&& forall|i: int|
            0 <= i < self.scutes.len() ==> (#[trigger] self.scutes[i]).data_blocks
                * VERITY_BLOCK_SIZE_BYTES <= u64::MAX
        &&& self.devices.len() <= self.total()
        &&& forall|k: int|
            0 <= k < self.devices.len() ==> {
                &&& (#[trigger] self.devices[k]).name == layer_name(self.name, self.layer(k))
                &&& self.devices[k].mode == layer_mode(self.layer(k))
                &&& self.devices[k].remove_on_drop == !(self.phase is Done)
            }
        &&& match self.phase {
            PhaseModel::Create => self.devices.len() < self.total(),
            PhaseModel::Load | PhaseModel::Resume => self.devices.len() > 0,
            PhaseModel::Check => self.devices.len() > 0 && self.latest() is Verity,
            PhaseModel::Unlink | PhaseModel::Link | PhaseModel::Done => self.devices.len()
                == self.total(),
            PhaseModel::RollBack(_) => self.devices.len() > 0,
            PhaseModel::Failed(_) => self.devices.len() == 0,
        }
    }

    /// The stack is being built: nothing has failed, and something is left to do.
    pub open spec fn building(self) -> bool {
        !(self.phase is RollBack || self.phase is Done || self.phase is Failed)
    }

    /// What is to be done next.
    pub open spec fn action(self) -> ActionModel {
        match self.phase {
            PhaseModel::Create => {
                let layer = self.layer(self.devices.len() as int);
                ActionModel::Create {
                    name: layer_name(self.name, layer),
                    mode: layer_mode(layer),
                }
            },
            PhaseModel::Load => ActionModel::Load {
                table: seq![layer_line(self.scutes, self.devices, self.latest())],
            },
            PhaseModel::Resume => ActionModel::Resume { udev_cookie: layer_cookie(self.latest()) },
            PhaseModel::Check => ActionModel::Check {
                node: node_path(self.devices.last()),
                scute: self.latest()->Verity_0,
            },
            PhaseModel::Unlink => ActionModel::Unlink { path: mapper_path(self.name) },
            PhaseModel::Link => ActionModel::Link {
                path: mapper_path(self.name),
                target: link_target(self.devices.last()),
            },
            PhaseModel::RollBack(_) => ActionModel::Remove { name: self.devices.last().name },
            PhaseModel::Done | PhaseModel::Failed(_) => ActionModel::Nothing,
        }
    }

    /// The same stack in another phase.
    pub open spec fn at(self, phase: PhaseModel) -> AssemblyModel {
        AssemblyModel { phase, ..self }
    }

    /// After a failure: the devices are to be removed, if there are any.
    pub open spec fn after_failure(self, error: CarapaceErrorModel) -> AssemblyModel {
        if self.devices.len() == 0 {
            self.at(PhaseModel::Failed(error))
        } else {
            self.at(PhaseModel::RollBack(error))
        }
    }

    /// The phase once the latest device is in place.
    pub open spec fn onward(self) -> PhaseModel {
        if self.devices.len() < self.total() {
            PhaseModel::Create
        } else {
            PhaseModel::Unlink
        }
    }

    /// After the reply to the creation of the next layer's device.
    pub open spec fn after_create(self, reply: Result<DmHeader, IoError>) -> AssemblyModel {
        let layer = self.layer(self.devices.len() as int);
        match create_outcome(layer_name(self.name, layer), layer_mode(layer), reply) {
            Ok(device) => AssemblyModel {
                devices: self.devices.push(device),
                phase: PhaseModel::Load,
                ..self
            },
            Err(e) => self.after_failure(CarapaceErrorModel::Dm(e)),
        }
    }

    /// After the reply to the load of the latest device's table.
    pub open spec fn after_load(
        self,
        rendered: Seq<char>,
        reply: Result<DmHeader, IoError>,
    ) -> AssemblyModel {
        match load_outcome(rendered, reply) {
            Ok(()) => self.at(PhaseModel::Resume),
            Err(e) => self.after_failure(CarapaceErrorModel::Dm(e)),
        }
    }

    /// After the reply to the activation of the latest device. What is read through a
    /// verity device is checked before anything is built on it.
    pub open spec fn after_resume(self, reply: Result<DmHeader, IoError>) -> AssemblyModel {
        match plain_outcome(reply, "DM_DEV_RESUME"@) {
            Ok(()) => if self.latest() is Verity {
                self.at(PhaseModel::Check)
            } else {
                self.at(self.onward())
            },
            Err(e) => self.after_failure(CarapaceErrorModel::Dm(e)),
        }
    }

    /// After the check of a snapshot header.
    pub open spec fn after_check(self, verdict: Result<(), CarapaceErrorModel>) -> AssemblyModel {
        match verdict {
            Ok(()) => self.at(self.onward()),
            Err(e) => self.after_failure(e),
        }
    }

    /// After the removal of a stale link: that there was none is fine.
    pub open spec fn after_unlink(self, reply: Result<(), IoError>) -> AssemblyModel {
        match reply {
            Ok(()) => self.at(PhaseModel::Link),
            Err(e) => if e.kind == IoErrorKind::NotFound {
                self.at(PhaseModel::Link)
            } else {
                self.after_failure(CarapaceErrorModel::Io(e@))
            },
        }
    }

    /// After the link was made: the devices are to outlive the process.
    pub open spec fn after_link(self, reply: Result<(), IoError>) -> AssemblyModel {
        match reply {
            Ok(()) => AssemblyModel {
                devices: self.devices.map_values(
                    |d: DmDeviceModel| DmDeviceModel { remove_on_drop: false, ..d },
                ),
                phase: PhaseModel::Done,
                ..self
            },
            Err(e) => self.after_failure(CarapaceErrorModel::Io(e@)),
        }
    }

    /// After the removal of the latest device, whether or not it succeeded.
    pub open spec fn after_removal(self) -> AssemblyModel {
        let error = self.phase->RollBack_0;
        AssemblyModel { devices: self.devices.drop_last(), ..self }.after_failure(error)
    }
}

#[derive(Debug)]
enum Phase {
    Create,
    Load,
    Resume,
    Check,
    Unlink,
    Link,
    RollBack(CarapaceError),
    Done,
    Failed(CarapaceError),
}

impl View for Phase {
    type V = PhaseModel;

    closed spec fn view(&self) -> PhaseModel {
        match self {
            Phase::Create => PhaseModel::Create,
            Phase::Load => PhaseModel::Load,
            Phase::Resume => PhaseModel::Resume,
            Phase::Check => PhaseModel::Check,
            Phase::Unlink => PhaseModel::Unlink,
            Phase::Link => PhaseModel::Link,
            Phase::RollBack(e) => PhaseModel::RollBack(e@),
            Phase::Done => PhaseModel::Done,
            Phase::Failed(e) => PhaseModel::Failed(e@),
        }
    }
}

/// What is to be done next.
#[derive(Debug, PartialEq, Eq)]
pub enum Action {
    /// Create the device `name`; report with [`Assembly::created`].
    Create { name: String, mode: DmCreateMode },
    /// Load `table` into [`Assembly::device`]; report with [`Assembly::loaded`].
    Load { table: DmTable },
    /// Activate [`Assembly::device`]; report with [`Assembly::resumed`].
    Resume { udev_cookie: u32 },
    /// Check the snapshot header of scute number `scute`, as read from `node`; report
    /// with [`Assembly::checked`].
    Check { node: String, scute: usize },
    /// Remove the file at `path`; report with [`Assembly::unlinked`].
    Unlink { path: String },
    /// Make a symbolic link to `target` at `path`; report with [`Assembly::linked`].
    Link { path: String, target: String },
    /// Remove the device `name`; report with [`Assembly::removed`].
    Remove { name: String },
    /// Nothing: [`Assembly::finish`] tells how it ended.
    Nothing,
}

impl View for Action {
    type V = ActionModel;

    open spec fn view(&self) -> ActionModel {
        match self {
            Action::Create { name, mode } => ActionModel::Create { name: name@, mode: *mode },
            Action::Load { table } => ActionModel::Load { table: table@ },
            Action::Resume { udev_cookie } => ActionModel::Resume { udev_cookie: *udev_cookie },
            Action::Check { node, scute } => ActionModel::Check { node: node@, scute: *scute },
            Action::Unlink { path } => ActionModel::Unlink { path: path@ },
            Action::Link { path, target } => ActionModel::Link { path: path@, target: target@ },
            Action::Remove { name } => ActionModel::Remove { name: name@ },
            Action::Nothing => ActionModel::Nothing,
        }
    }
}

/// A read stack that is being built, or torn down again.
#[derive(Debug)]
pub struct Assembly {
    name: String,
    scutes: Vec<Scute>,
    devices: Vec<DmDevice>,
    phase: Phase,
}

/// What a vector of scutes holds.
pub open spec fn scute_models(scutes: Seq<Scute>) -> Seq<ScuteModel> {
    scutes.map_values(|s: Scute| s@)
}

/// What a vector of devices holds.
pub open spec fn device_models(devices: Seq<DmDevice>) -> Seq<DmDeviceModel> {
    devices.map_values(|d: DmDevice| d@)
}

impl View for Assembly {
    type V = AssemblyModel;

    closed spec fn view(&self) -> AssemblyModel {
        AssemblyModel {
            name: self.name@,
            scutes: scute_models(self.scutes@),
            devices: device_models(self.devices@),
            phase: self.phase@,
        }
    }
}

/// Starts to build the read stack `name` over `scutes`, given from the base to the
/// top.
pub fn assemble_read_stack(name: &str, scutes: Vec<Scute>) -> (r: Assembly)
    requires
        layer_count(scutes@.len() as int) <= usize::MAX,
        forall|i: int|
            0 <= i < scutes@.len() ==> (#[trigger] scutes@[i]).data_blocks * VERITY_BLOCK_SIZE_BYTES
                <= u64::MAX,
    ensures
        r@ == AssemblyModel::start(name@, scute_models(scutes@)),
        r@.wf(),
{
    let r = Assembly { name: name.to_string(), scutes, devices: Vec::new(), phase: Phase::Create };
    assert(r@.devices =~= Seq::empty());
    r
}

/// The name of a layer's device in the stack `name`.
fn name_of(name: &str, layer: Layer) -> (r: String)
    ensures
        r@ == layer_name(name@, layer),
{
    let mut out = name.to_string();
    match layer {
        Layer::Zero => {
            out.append("-z0");
        },
        Layer::Verity(i) => {
            out.append("-v");
            out.append(&decimal_text(i as u64));
        },
        Layer::Snapshot(i) => {
            out.append("-s");
            out.append(&decimal_text(i as u64));
        },
        Layer::Top => {},
    }
    out
}

/// The mode of a layer's device.
fn mode_of(layer: Layer) -> (r: DmCreateMode)
    ensures
        r == layer_mode(layer),
{
    match layer {
        Layer::Zero => DmCreateMode::ReadWrite,
        _ => DmCreateMode::ReadOnly,
    }
}

/// Forgets every device, so that none is removed.
fn commit(devices: Vec<DmDevice>) -> (r: Vec<DmDevice>)
    ensures
        device_models(r@) == device_models(devices@).map_values(
            |d: DmDeviceModel| DmDeviceModel { remove_on_drop: false, ..d },
        ),
{
    let mut out: Vec<DmDevice> = Vec::new();
    let ghost forgotten = device_models(devices@).map_values(
        |d: DmDeviceModel| DmDeviceModel { remove_on_drop: false, ..d },
    );
    for device in it: devices
        invariant
            it.seq() == devices@,
            forgotten == device_models(devices@).map_values(
                |d: DmDeviceModel| DmDeviceModel { remove_on_drop: false, ..d },
            ),
            device_models(out@) == forgotten.take(it.index()),
    {
        let ghost before = out@;
        out.push(device.forget());
        assert(device_models(out@) =~= device_models(before).push(out@.last()@));
        assert(forgotten.take(it.index() + 1) =~= forgotten.take(it.index()).push(
            forgotten[it.index()],
        ));
    }
    assert(forgotten.take(forgotten.len() as int) =~= forgotten);
    out
}

impl Assembly {
    /// Layer number `k` of the stack.
    fn layer(&self, k: usize) -> (r: Layer)
        requires
            self@.total() <= usize::MAX,
            k < self@.total(),
        ensures
            r == self@.layer(k as int),
    {
        let n: usize = self.scutes.len();
        if k == 0 {
            Layer::Zero
        } else if k == 2 * n + 1 {
            Layer::Top
        } else if k % 2 == 1 {
            Layer::Verity(k / 2)
        } else {
            Layer::Snapshot(k / 2 - 1)
        }
    }

    /// The table of the layer whose device was created last.
    fn table(&self) -> (r: DmTable)
        requires
            self@.wf(),
            self@.devices.len() > 0,
        ensures
            r@ == seq![layer_line(self@.scutes, self@.devices, self@.latest())],
    {
        let layer = self.layer(self.devices.len() - 1);
        let line = match layer {
            Layer::Zero => TableLine {
                start: 0,
                length: ZERO_COUNT_SECTORS,
                target: TargetSpec::Zero,
            },
            Layer::Verity(i) => {
                let scute = &self.scutes[i];
                assert(self@.scutes[i as int] == scute@);
                TableLine {
                    start: 0,
                    length: scute.data_blocks * VERITY_BLOCK_SIZE_BYTES / 512,
                    target: TargetSpec::Verity {
                        data: scute.cow,
                        hash: scute.verity,
                        algorithm: scute.algorithm.clone(),
                        data_blocks: scute.data_blocks,
                        salt: vstd::slice::slice_to_vec(&scute.salt),
                        root: vstd::slice::slice_to_vec(&scute.root),
                    },
                }
            },
            Layer::Snapshot(i) => TableLine {
                start: 0,
                length: ZERO_COUNT_SECTORS,
                target: TargetSpec::Snapshot {
                    origin: self.devices[2 * i].dev_ref(),
                    cow: self.devices[2 * i + 1].dev_ref(),
                    chunk_size_sectors: SNAPSHOT_CHUNK_SIZE_SECTORS,
                },
            },
            Layer::Top => TableLine {
                start: 0,
                length: ZERO_COUNT_SECTORS,
                target: TargetSpec::Linear {
                    device: self.devices[2 * self.scutes.len()].dev_ref(),
                    offset_sectors: 0,
                },
            },
        };
        let ghost model = line@;
        let table = DmTable { lines: vec![line] };
        assert(table@ =~= seq![model]);
        table
    }

    /// What is to be done next.
    pub fn next(&self) -> (r: Action)
        requires
            self@.wf(),
        ensures
            r@ == self@.action(),
    {
        match &self.phase {
            Phase::Create => {
                let layer = self.layer(self.devices.len());
                Action::Create { name: name_of(&self.name, layer), mode: mode_of(layer) }
            },
            Phase::Load => Action::Load { table: self.table() },
            Phase::Resume => {
                let udev_cookie: u32 = match self.layer(self.devices.len() - 1) {
                    Layer::Top => DM_UDEV_PRIMARY_SOURCE_COOKIE,
                    _ => 0,
                };
                Action::Resume { udev_cookie }
            },
            Phase::Check => {
                let node = self.device().dev_node();
                match self.layer(self.devices.len() - 1) {
                    Layer::Verity(scute) => Action::Check { node, scute },
                    _ => Action::Nothing,
                }
            },
            Phase::Unlink => Action::Unlink { path: self.path() },
            Phase::Link => {
                let (_, minor) = self.device().dev_ref();
                let mut target = "../dm-".to_string();
                target.append(&decimal_text(minor as u64));
                Action::Link { path: self.path(), target }
            },
            Phase::RollBack(_) => Action::Remove { name: self.device().name().to_string() },
            Phase::Done | Phase::Failed(_) => Action::Nothing,
        }
    }

    /// The device that was created last.
    pub fn device(&self) -> (r: &DmDevice)
        requires
            self@.devices.len() > 0,
        ensures
            r@ == self@.devices.last(),
    {
        &self.devices[self.devices.len() - 1]
    }

    /// The path of the operator-visible device.
    fn path(&self) -> (r: String)
        ensures
            r@ == mapper_path(self@.name),
    {
        let mut path = "/dev/mapper/".to_string();
        path.append(&self.name);
        path
    }

    /// The phase once the latest device is in place.
    fn onward(&self) -> (r: Phase)
        requires
            self@.wf(),
        ensures
            r@ == self@.onward(),
    {
        if self.devices.len() < 2 * self.scutes.len() + 2 {
            Phase::Create
        } else {
            Phase::Unlink
        }
    }

    /// Reports that a step could not be carried out.
    pub fn failed(&mut self, error: CarapaceError)
        requires
            old(self)@.wf(),
            old(self)@.building(),
        ensures
            final(self)@ == old(self)@.after_failure(error@),
            final(self)@.wf(),
    {
        if self.devices.len() == 0 {
            self.phase = Phase::Failed(error);
        } else {
            self.phase = Phase::RollBack(error);
        }
    }

    /// Reports the reply to the creation of a device.
    pub fn created(&mut self, reply: Result<DmHeader, IoError>)
        requires
            old(self)@.wf(),
            old(self)@.phase is Create,
        ensures
            final(self)@ == old(self)@.after_create(reply),
            final(self)@.wf(),
    {
        let layer = self.layer(self.devices.len());
        let name = name_of(&self.name, layer);
        match DmDevice::create(&name, mode_of(layer), reply) {
            Ok(device) => {
                let ghost before = self.devices@;
                self.devices.push(device);
                self.phase = Phase::Load;
                assert(device_models(self.devices@) =~= device_models(before).push(device@));
            },
            Err(e) => {
                self.failed(CarapaceError::Dm(e));
            },
        }
    }

    /// Reports the reply to the load of a table, which `rendered` shows as the
    /// operator reads it.
    pub fn loaded(&mut self, rendered: String, reply: Result<DmHeader, IoError>)
        requires
            old(self)@.wf(),
            old(self)@.phase is Load,
        ensures
            final(self)@ == old(self)@.after_load(rendered@, reply),
            final(self)@.wf(),
    {
        match self.device().load_table(rendered, reply) {
            Ok(()) => {
                self.phase = Phase::Resume;
            },
            Err(e) => {
                self.failed(CarapaceError::Dm(e));
            },
        }
    }

    /// Reports the reply to an activation.
    pub fn resumed(&mut self, reply: Result<DmHeader, IoError>)
        requires
            old(self)@.wf(),
            old(self)@.phase is Resume,
        ensures
            final(self)@ == old(self)@.after_resume(reply),
            final(self)@.wf(),
    {
        match self.device().resume(reply) {
            Ok(()) => match self.layer(self.devices.len() - 1) {
                Layer::Verity(_) => {
                    self.phase = Phase::Check;
                },
                _ => {
                    self.phase = self.onward();
                },
            },
            Err(e) => {
                self.failed(CarapaceError::Dm(e));
            },
        }
    }

    /// Reports the verdict on a snapshot header.
    pub fn checked(&mut self, verdict: Result<(), CarapaceError>)
        requires
            old(self)@.wf(),
            old(self)@.phase is Check,
        ensures
            final(self)@ == old(self)@.after_check(
                match verdict {
                    Ok(()) => Ok(()),
                    Err(e) => Err(e@),
                },
            ),
            final(self)@.wf(),
    {
        match verdict {
            Ok(()) => {
                self.phase = self.onward();
            },
            Err(e) => {
                self.failed(e);
            },
        }
    }

    /// Reports the outcome of the removal of a stale link.
    pub fn unlinked(&mut self, reply: Result<(), IoError>)
        requires
            old(self)@.wf(),
            old(self)@.phase is Unlink,
        ensures
            final(self)@ == old(self)@.after_unlink(reply),
            final(self)@.wf(),
    {
        match reply {
            Ok(()) => {
                self.phase = Phase::Link;
            },
            Err(e) => match e.kind {
                IoErrorKind::NotFound => {
                    self.phase = Phase::Link;
                },
                _ => {
                    self.failed(CarapaceError::Io(e));
                },
            },
        }
    }

    /// Reports the outcome of making the link.
    pub fn linked(&mut self, reply: Result<(), IoError>)
        requires
            old(self)@.wf(),
            old(self)@.phase is Link,
        ensures
            final(self)@ == old(self)@.after_link(reply),
            final(self)@.wf(),
    {
        match reply {
            Ok(()) => {
                let mut devices: Vec<DmDevice> = Vec::new();
                std::mem::swap(&mut devices, &mut self.devices);
                self.devices = commit(devices);
                self.phase = Phase::Done;
            },
            Err(e) => {
                self.failed(CarapaceError::Io(e));
            },
        }
    }

    /// Reports that the removal of a device was tried. Whether it succeeded makes no
    /// difference: the others are removed all the same.
    pub fn removed(&mut self)
        requires
            old(self)@.wf(),
            old(self)@.phase is RollBack,
        ensures
            final(self)@ == old(self)@.after_removal(),
            final(self)@.wf(),
    {
        let ghost before = self.devices@;
        let _ = self.devices.pop();
        assert(device_models(self.devices@) =~= device_models(before).drop_last());
        if self.devices.len() == 0 {
            let mut phase = Phase::Done;
            std::mem::swap(&mut phase, &mut self.phase);
            match phase {
                Phase::RollBack(e) => {
                    self.phase = Phase::Failed(e);
                },
                other => {
                    self.phase = other;
                },
            }
        }
    }

    /// How it ended: the path of the operator-visible device, or the error. `None`
    /// while there is still something to do.
    pub fn finish(self) -> (r: Option<Result<String, CarapaceError>>)
        ensures
            match self@.phase {
                PhaseModel::Done => r is Some && r->0 is Ok && r->0->Ok_0@ == mapper_path(self@.name),
                PhaseModel::Failed(e) => r is Some && r->0 is Err && r->0->Err_0@ == e,
                _ => r is None,
            },
    {
        let path = self.path();
        match self.phase {
            Phase::Done => Some(Ok(path)),
            Phase::Failed(e) => Some(Err(e)),
            _ => None,
        }
    }
}

/// The layers of a stack and their numbers match one to one.
pub proof fn law_layers_are_numbered(n: int, k: int)
    requires
        0 <= n,
        layer_count(n) <= usize::MAX,
        0 <= k < layer_count(n),
    ensures
        layer_number(n, layer_at(n, k)) == k,
{
}

/// The devices of one stack all have different names.
pub proof fn law_layer_names_differ(name: Seq<char>, a: Layer, b: Layer)
    requires
        a != b,
    ensures
        layer_name(name, a) != layer_name(name, b),
{
    let x = layer_name(name, a);
    let y = layer_name(name, b);
    lemma_layer_suffix(name, a);
    lemma_layer_suffix(name, b);
    if x == y {
        assert(x.skip(name.len() as int) == y.skip(name.len() as int));
        lemma_suffixes_differ(a, b);
    }
}

/// What a layer's name adds to the stack's.
spec fn layer_suffix(layer: Layer) -> Seq<char> {
    match layer {
        Layer::Zero => seq!['-', 'z', '0'],
        Layer::Verity(i) => seq!['-', 'v'] + decimal(i as nat),
        Layer::Snapshot(i) => seq!['-', 's'] + decimal(i as nat),
        Layer::Top => Seq::empty(),
    }
}

proof fn lemma_layer_suffix(name: Seq<char>, layer: Layer)
    ensures
        layer_name(name, layer) == name + layer_suffix(layer),
        layer_name(name, layer).skip(name.len() as int) == layer_suffix(layer),
{
    reveal_strlit("-z0");
    reveal_strlit("-v");
    reveal_strlit("-s");
    assert(layer_name(name, layer) =~= name + layer_suffix(layer));
    assert((name + layer_suffix(layer)).skip(name.len() as int) =~= layer_suffix(layer));
}

proof fn lemma_suffixes_differ(a: Layer, b: Layer)
    requires
        layer_suffix(a) == layer_suffix(b),
    ensures
        a == b,
{
    let x = layer_suffix(a);
    let y = layer_suffix(b);
    if !(a is Top) && !(b is Top) {
        assert(x[1] == y[1]);
    }
    match (a, b) {
        (Layer::Verity(i), Layer::Verity(j)) | (Layer::Snapshot(i), Layer::Snapshot(j)) => {
            assert(x.skip(2) =~= decimal(i as nat));
            assert(y.skip(2) =~= decimal(j as nat));
            lemma_decimal(i as nat);
            lemma_decimal(j as nat);
        },
        _ => {
            assert(x.len() == y.len());
        },
    }
}

/// Every device of a stack is one that a listing for that stack finds.
pub proof fn law_layers_belong(name: Seq<char>, layer: Layer)
    ensures
        belongs(layer_name(name, layer), name),
{
    lemma_layer_suffix(name, layer);
    if !(layer is Top) {
        assert(layer_name(name, layer).take(name.len() as int + 1) =~= name.push('-'));
    } else {
        assert(name + layer_suffix(layer) =~= name);
    }
}

/// Every snapshot stands on the snapshot of the scute below, the lowest on the zero
/// device; it reads its chunks through the verity device of its own scute; and the
/// top shows the highest snapshot.
pub proof fn law_snapshots_are_chained(n: int, i: int)
    requires
        0 <= i < n,
        layer_count(n) <= usize::MAX,
    ensures
        layer_at(n, origin_number(i)) == (if i == 0 {
            Layer::Zero
        } else {
            Layer::Snapshot((i - 1) as usize)
        }),
        layer_at(n, 2 * i + 1) == Layer::Verity(i as usize),
        layer_at(n, 2 * n) == Layer::Snapshot((n - 1) as usize),
{
}

/// Every layer but the verity devices has the length of the zero device, so that no
/// snapshot is longer than what it stands on.
pub proof fn law_lengths_are_locked(
    scutes: Seq<ScuteModel>,
    devices: Seq<DmDeviceModel>,
    layer: Layer,
)
    requires
        !(layer is Verity),
    ensures
        layer_line(scutes, devices, layer).length == ZERO_COUNT_SECTORS,
{
}

/// The table of layer number `k` refers to layer number `j`.
pub open spec fn refers(n: int, k: int, j: int) -> bool {
    match layer_at(n, k) {
        Layer::Zero | Layer::Verity(_) => false,
        Layer::Snapshot(i) => j == origin_number(i as int) || j == 2 * i + 1,
        Layer::Top => j == 2 * n,
    }
}

/// The table of a layer depends on no device of the stack but those that it refers
/// to, and these are all below it.
pub proof fn law_layers_refer_downward(
    scutes: Seq<ScuteModel>,
    a: Seq<DmDeviceModel>,
    b: Seq<DmDeviceModel>,
    k: int,
)
    requires
        layer_count(scutes.len() as int) <= usize::MAX,
        0 <= k < layer_count(scutes.len() as int),
        forall|j: int| #[trigger] refers(scutes.len() as int, k, j) ==> a[j].dev_t == b[j].dev_t,
    ensures
        forall|j: int| #[trigger] refers(scutes.len() as int, k, j) ==> 0 <= j < k,
        layer_line(scutes, a, layer_at(scutes.len() as int, k)) == layer_line(
            scutes,
            b,
            layer_at(scutes.len() as int, k),
        ),
{
    let n = scutes.len() as int;
    match layer_at(n, k) {
        Layer::Zero | Layer::Verity(_) => {},
        Layer::Snapshot(i) => {
            assert(refers(n, k, origin_number(i as int)));
            assert(refers(n, k, 2 * i + 1));
        },
        Layer::Top => {
            assert(refers(n, k, 2 * n));
        },
    }
}

/// The names of the devices that are removed from here on, in order.
pub open spec fn removals(m: AssemblyModel) -> Seq<Seq<char>>
    decreases m.devices.len(),
{
    if m.phase is RollBack && m.devices.len() > 0 {
        seq![m.action()->Remove_name] + removals(m.after_removal())
    } else {
        Seq::empty()
    }
}

/// The state once all removals were tried.
pub open spec fn torn_down(m: AssemblyModel) -> AssemblyModel
    decreases m.devices.len(),
{
    if m.phase is RollBack && m.devices.len() > 0 {
        torn_down(m.after_removal())
    } else {
        m
    }
}

/// A failure at any point removes every device that was created, each once, in the
/// reverse order of their creation, and ends with the error that it started with.
pub proof fn law_failure_tears_down(m: AssemblyModel, error: CarapaceErrorModel)
    requires
        m.building(),
    ensures
        removals(m.after_failure(error)) == m.devices.map_values(
            |d: DmDeviceModel| d.name,
        ).reverse(),
        torn_down(m.after_failure(error)).phase == PhaseModel::Failed(error),
        torn_down(m.after_failure(error)).devices.len() == 0,
{
    lemma_tears_down(m.after_failure(error), error);
}

proof fn lemma_tears_down(m: AssemblyModel, error: CarapaceErrorModel)
    requires
        m.phase == (if m.devices.len() == 0 {
            PhaseModel::Failed(error)
        } else {
            PhaseModel::RollBack(error)
        }),
    ensures
        removals(m) == m.devices.map_values(|d: DmDeviceModel| d.name).reverse(),
        torn_down(m).phase == PhaseModel::Failed(error),
        torn_down(m).devices.len() == 0,
    decreases m.devices.len(),
{
    let names = m.devices.map_values(|d: DmDeviceModel| d.name);
    if m.devices.len() > 0 {
        let next = m.after_removal();
        lemma_tears_down(next, error);
        let rest = next.devices.map_values(|d: DmDeviceModel| d.name);
        assert(names.reverse() =~= seq![m.devices.last().name] + rest.reverse());
    } else {
        assert(names.reverse() =~= Seq::empty());
    }
}

/// An upper bound on the steps that an assembly still takes.
pub open spec fn steps_left(m: AssemblyModel) -> int {
    let open = (m.total() - m.devices.len()) * 4 + m.total() + 1;
    match m.phase {
        PhaseModel::Create => open + 3,
        PhaseModel::Load => open + 6,
        PhaseModel::Resume => open + 5,
        PhaseModel::Check => open + 4,
        PhaseModel::Unlink => open + 2,
        PhaseModel::Link => open + 1,
        PhaseModel::RollBack(_) => m.devices.len() as int,
        PhaseModel::Done | PhaseModel::Failed(_) => 0,
    }
}

/// Every report brings an assembly nearer to its end, whatever it reports: no sequence
/// of replies keeps it going for ever.
pub proof fn law_assembly_ends(
    m: AssemblyModel,
    rendered: Seq<char>,
    reply: Result<DmHeader, IoError>,
    verdict: Result<(), CarapaceErrorModel>,
    done: Result<(), IoError>,
    error: CarapaceErrorModel,
)
    requires
        m.wf(),
    ensures
        steps_left(m) >= 0,
        m.phase is Create ==> steps_left(m.after_create(reply)) < steps_left(m),
        m.phase is Load ==> steps_left(m.after_load(rendered, reply)) < steps_left(m),
        m.phase is Resume ==> steps_left(m.after_resume(reply)) < steps_left(m),
        m.phase is Check ==> steps_left(m.after_check(verdict)) < steps_left(m),
        m.phase is Unlink ==> steps_left(m.after_unlink(done)) < steps_left(m),
        m.phase is Link ==> steps_left(m.after_link(done)) < steps_left(m),
        m.phase is RollBack ==> steps_left(m.after_removal()) < steps_left(m),
        m.building() ==> steps_left(m.after_failure(error)) < steps_left(m),
        steps_left(m) == 0 <==> m.action() is Nothing,
{
}

/// An assembly that has ended well left the whole stack behind, each device under its
/// layer's name and none of them to be removed.
pub proof fn law_done_stack_is_whole(m: AssemblyModel, k: int)
    requires
        m.wf(),
        m.phase is Done,
        0 <= k < layer_count(m.scutes.len() as int),
    ensures
        m.devices.len() == layer_count(m.scutes.len() as int),
        m.devices[k].name == layer_name(m.name, layer_at(m.scutes.len() as int, k)),
        m.devices[k].mode == layer_mode(layer_at(m.scutes.len() as int, k)),
        !m.devices[k].remove_on_drop,
{
}

/// A report on a step of an assembly.
pub enum Report {
    Created(Result<DmHeader, IoError>),
    Loaded(Seq<char>, Result<DmHeader, IoError>),
    Resumed(Result<DmHeader, IoError>),
    Checked(Result<(), CarapaceErrorModel>),
    Unlinked(Result<(), IoError>),
    Linked(Result<(), IoError>),
    Removed,
    Failed(CarapaceErrorModel),
}

impl AssemblyModel {
    /// The report is on the step that is to be done next.
    pub open spec fn awaits(self, report: Report) -> bool {
        match report {
            Report::Created(_) => self.phase is Create,
            Report::Loaded(_, _) => self.phase is Load,
            Report::Resumed(_) => self.phase is Resume,
            Report::Checked(_) => self.phase is Check,
            Report::Unlinked(_) => self.phase is Unlink,
            Report::Linked(_) => self.phase is Link,
            Report::Removed => self.phase is RollBack,
            Report::Failed(_) => self.building(),
        }
    }

    /// After a report.
    pub open spec fn after(self, report: Report) -> AssemblyModel {
        match report {
            Report::Created(reply) => self.after_create(reply),
            Report::Loaded(rendered, reply) => self.after_load(rendered, reply),
            Report::Resumed(reply) => self.after_resume(reply),
            Report::Checked(verdict) => self.after_check(verdict),
            Report::Unlinked(reply) => self.after_unlink(reply),
            Report::Linked(reply) => self.after_link(reply),
            Report::Removed => self.after_removal(),
            Report::Failed(error) => self.after_failure(error),
        }
    }

    /// After a series of reports.
    pub open spec fn after_all(self, reports: Seq<Report>) -> AssemblyModel
        decreases reports.len(),
    {
        if reports.len() == 0 {
            self
        } else {
            self.after_all(reports.drop_last()).after(reports.last())
        }
    }

    /// Each of a series of reports is on the step that was to be done.
    pub open spec fn awaits_all(self, reports: Seq<Report>) -> bool
        decreases reports.len(),
    {
        reports.len() == 0 || self.awaits_all(reports.drop_last()) && self.after_all(
            reports.drop_last(),
        ).awaits(reports.last())
    }

    /// The scutes whose snapshot headers passed in a series of reports, in order.
    pub open spec fn passed(self, reports: Seq<Report>) -> Seq<usize>
        decreases reports.len(),
    {
        if reports.len() == 0 {
            Seq::empty()
        } else {
            let before = self.passed(reports.drop_last());
            match reports.last() {
                Report::Checked(Ok(())) => before.push(
                    self.after_all(reports.drop_last()).latest()->Verity_0,
                ),
                _ => before,
            }
        }
    }

    /// How many scutes have been checked in this state of a stack that is being built.
    spec fn checks_done(self) -> int {
        match self.phase {
            PhaseModel::Load | PhaseModel::Resume | PhaseModel::Check => (self.devices.len() - 1) / 2,
            PhaseModel::Create => self.devices.len() as int / 2,
            _ => self.scutes.len() as int,
        }
    }
}

/// Whatever is reported, an assembly stays well formed.
pub proof fn law_reports_keep_the_stack_well_formed(m: AssemblyModel, report: Report)
    requires
        m.wf(),
        m.awaits(report),
    ensures
        m.after(report).wf(),
        m.after(report).name == m.name,
        m.after(report).scutes == m.scutes,
{
    let next = m.after(report);
    match report {
        Report::Created(_) => {
            assert forall|k: int| 0 <= k < next.devices.len() implies {
                &&& (#[trigger] next.devices[k]).name == layer_name(next.name, next.layer(k))
                &&& next.devices[k].mode == layer_mode(next.layer(k))
                &&& next.devices[k].remove_on_drop
            } by {
                if k < m.devices.len() {
                    assert(next.devices[k] == m.devices[k]);
                }
            }
        },
        Report::Removed => {
            assert forall|k: int| 0 <= k < next.devices.len() implies next.devices[k]
                == m.devices[k] by {}
        },
        _ => {},
    }
}

/// After any series of reports on a new assembly, what holds of it still holds, and the
/// scutes that passed are the lowest ones, in order.
proof fn lemma_history(name: Seq<char>, scutes: Seq<ScuteModel>, reports: Seq<Report>)
    requires
        AssemblyModel::start(name, scutes).wf(),
        AssemblyModel::start(name, scutes).awaits_all(reports),
    ensures
        ({
            let start = AssemblyModel::start(name, scutes);
            let now = start.after_all(reports);
            &&& now.wf()
            &&& now.name == name
            &&& now.scutes == scutes
            &&& now.building() || now.phase is Done ==> start.passed(reports) == Seq::new(
                now.checks_done() as nat,
                |i: int| i as usize,
            )
        }),
    decreases reports.len(),
{
    let start = AssemblyModel::start(name, scutes);
    if reports.len() == 0 {
        assert(start.passed(reports) =~= Seq::new(0, |i: int| i as usize));
    } else {
        let before = start.after_all(reports.drop_last());
        lemma_history(name, scutes, reports.drop_last());
        law_reports_keep_the_stack_well_formed(before, reports.last());
        let now = before.after(reports.last());
        if now.building() || now.phase is Done {
            assert(start.passed(reports) =~= Seq::new(
                now.checks_done() as nat,
                |i: int| i as usize,
            ));
        }
    }
}

/// A stack is done only after the snapshot header of every scute has passed its check,
/// the base's first.
pub proof fn law_done_stack_was_checked(
    name: Seq<char>,
    scutes: Seq<ScuteModel>,
    reports: Seq<Report>,
)
    requires
        AssemblyModel::start(name, scutes).wf(),
        AssemblyModel::start(name, scutes).awaits_all(reports),
        AssemblyModel::start(name, scutes).after_all(reports).phase is Done,
    ensures
        AssemblyModel::start(name, scutes).passed(reports) == Seq::new(
            scutes.len(),
            |i: int| i as usize,
        ),
{
    lemma_history(name, scutes, reports);
}

/// Nothing is built on a scute before its snapshot header has passed: where a device of
/// a layer above it is to be created, or is there, the scute is among those that passed.
pub proof fn law_nothing_is_built_on_an_unchecked_scute(
    name: Seq<char>,
    scutes: Seq<ScuteModel>,
    reports: Seq<Report>,
    i: int,
)
    requires
        AssemblyModel::start(name, scutes).wf(),
        AssemblyModel::start(name, scutes).awaits_all(reports),
        ({
            let now = AssemblyModel::start(name, scutes).after_all(reports);
            &&& 0 <= i < scutes.len()
            &&& now.building()
            &&& now.devices.len() > layer_number(scutes.len() as int, Layer::Verity(i as usize)) + 1
                || now.phase is Create && now.devices.len() == layer_number(
                scutes.len() as int,
                Layer::Verity(i as usize),
            ) + 1
        }),
    ensures
        AssemblyModel::start(name, scutes).passed(reports).contains(i as usize),
{
    lemma_history(name, scutes, reports);
    let passed = AssemblyModel::start(name, scutes).passed(reports);
    assert(passed[i] == i as usize);
}

/// The table of a verity device covers the scute's data, to the byte: as many sectors of
/// 512 bytes as there are bytes in its blocks of 4096. It reads the scute's own parts, and
/// is made with the scute's own parameters.
pub proof fn law_verity_covers_the_scute(
    scutes: Seq<ScuteModel>,
    devices: Seq<DmDeviceModel>,
    i: usize,
)
    requires
        i < scutes.len(),
        scutes[i as int].data_blocks * 4096 <= u64::MAX,
    ensures
        ({
            let line = layer_line(scutes, devices, Layer::Verity(i));
            &&& line.start == 0
            &&& line.length * 512 == scutes[i as int].data_blocks * 4096
            &&& line.target is Verity
            &&& line.target->data == scutes[i as int].cow
            &&& line.target->hash == scutes[i as int].verity
            &&& line.target->algorithm == scutes[i as int].algorithm
            &&& line.target->data_blocks == scutes[i as int].data_blocks
            &&& line.target->salt == scutes[i as int].salt
            &&& line.target->root == scutes[i as int].root
        }),
{
}

/// The other tables show 64 GiB each, from their start on. The zero device shows zeroes;
/// a snapshot shows the snapshot below it, or the zero device, with the chunks of 8 sectors
/// that its scute's verity device holds; the top shows the highest snapshot from its first
/// sector on. Devices are named by the numbers in their `dev_t`.
pub proof fn law_tables_show_the_layers_below(
    scutes: Seq<ScuteModel>,
    devices: Seq<DmDeviceModel>,
    numbers: Seq<(u32, u32)>,
    i: usize,
)
    requires
        numbers.len() == devices.len(),
        forall|k: int|
            0 <= k < devices.len() ==> numbers[k].0 < 0x1000 && numbers[k].1 < 0x10_0000
                && (#[trigger] devices[k]).dev_t == numbers[k].1 % 0x100 + numbers[k].0 * 0x100
                + numbers[k].1 / 0x100 * 0x10_0000,
    ensures
        ({
            let line = layer_line(scutes, devices, Layer::Zero);
            line.start == 0 && line.length * 512 == 64 * 1024 * 1024 * 1024 && line.target is Zero
        }),
        devices.len() > 2 * i + 1 ==> ({
            let line = layer_line(scutes, devices, Layer::Snapshot(i));
            &&& line.start == 0
            &&& line.length * 512 == 64 * 1024 * 1024 * 1024
            &&& line.target == TargetModel::Snapshot {
                origin: numbers[2 * i as int],
                cow: numbers[2 * i + 1],
                chunk_size_sectors: 8,
            }
        }),
        devices.len() > 2 * scutes.len() ==> ({
            let line = layer_line(scutes, devices, Layer::Top);
            &&& line.start == 0
            &&& line.length * 512 == 64 * 1024 * 1024 * 1024
            &&& line.target == TargetModel::Linear {
                device: numbers[2 * scutes.len() as int],
                offset_sectors: 0,
            }
        }),
{
    if devices.len() > 2 * i + 1 {
        assert(devices[2 * i as int].dev_t == devices[2 * i as int].dev_t);
        assert(devices[2 * i + 1].dev_t == devices[2 * i + 1].dev_t);
        lemma_number(devices[2 * i as int], numbers[2 * i as int]);
        lemma_number(devices[2 * i + 1], numbers[2 * i + 1]);
    }
    if devices.len() > 2 * scutes.len() {
        let k = 2 * scutes.len() as int;
        assert(devices[k].dev_t == devices[k].dev_t);
        lemma_number(devices[k], numbers[k]);
    }
}

proof fn lemma_number(device: DmDeviceModel, number: (u32, u32))
    requires
        number.0 < 0x1000,
        number.1 < 0x10_0000,
        device.dev_t == number.1 % 0x100 + number.0 * 0x100 + number.1 / 0x100 * 0x10_0000,
    ensures
        major_minor(device.dev_t) == number,
{
    law_split_dev_inverts(number.0, number.1);
    assert(dev_of(number.0, number.1) == device.dev_t);
}

/// What each device is created as: `<name>-z0`, writable; then for each scute, counted
/// from 0, `<name>-v<i>` and `<name>-s<i>`, read-only; and last `<name>`, read-only.
pub proof fn law_devices_are_created_in_order(m: AssemblyModel, i: int)
    requires
        m.wf(),
        m.phase is Create,
    ensures
        m.devices.len() == 0 ==> m.action() == (ActionModel::Create {
            name: m.name + "-z0"@,
            mode: DmCreateMode::ReadWrite,
        }),
        0 <= i < m.scutes.len() && m.devices.len() == 2 * i + 1 ==> m.action() == (ActionModel::Create {
            name: m.name + "-v"@ + decimal(i as nat),
            mode: DmCreateMode::ReadOnly,
        }),
        0 <= i < m.scutes.len() && m.devices.len() == 2 * i + 2 ==> m.action() == (ActionModel::Create {
            name: m.name + "-s"@ + decimal(i as nat),
            mode: DmCreateMode::ReadOnly,
        }),
        m.devices.len() == 2 * m.scutes.len() + 1 ==> m.action() == (ActionModel::Create {
            name: m.name,
            mode: DmCreateMode::ReadOnly,
        }),
{
}

/// The latest device gets the table of its layer, one line, and is then activated: the
/// top with the cookie of a primary source, the others without one.
pub proof fn law_latest_device_is_set_up(m: AssemblyModel, i: int)
    requires
        m.wf(),
    ensures
        m.phase is Load ==> m.action() is Load && m.action()->table.len() == 1,
        m.phase is Load && m.devices.len() == 1 ==> m.action()->table[0] == layer_line(
            m.scutes,
            m.devices,
            Layer::Zero,
        ),
        m.phase is Load && 0 <= i < m.scutes.len() && m.devices.len() == 2 * i + 2 ==> m.action()->table[0] == layer_line(
            m.scutes,
            m.devices,
            Layer::Verity(i as usize),
        ),
        m.phase is Load && 0 <= i < m.scutes.len() && m.devices.len() == 2 * i + 3 ==> m.action()->table[0] == layer_line(
            m.scutes,
            m.devices,
            Layer::Snapshot(i as usize),
        ),
        m.phase is Load && m.devices.len() == 2 * m.scutes.len() + 2 ==> m.action()->table[0]
            == layer_line(m.scutes, m.devices, Layer::Top),
        m.phase is Resume && m.devices.len() < 2 * m.scutes.len() + 2 ==> m.action()
            == (ActionModel::Resume { udev_cookie: 0 }),
        m.phase is Resume && m.devices.len() == 2 * m.scutes.len() + 2 ==> m.action()
            == (ActionModel::Resume { udev_cookie: 0x0040_0000 }),
        m.phase is Check && 0 <= i < m.scutes.len() && m.devices.len() == 2 * i + 2 ==> m.action() is Check
            && m.action()->scute == i,
{
}

/// The header of a scute is read through the node of its verity device, and the link at
/// `/dev/mapper/<name>` leads to the node of the top, as seen from there. A stale one at
/// that path is removed before. A rollback removes the device that was created last.
pub proof fn law_paths_are_those_of_the_latest_device(m: AssemblyModel, major: u32, minor: u32)
    requires
        m.wf(),
        m.devices.len() > 0,
        major < 0x1000,
        minor < 0x10_0000,
        m.devices.last().dev_t == minor % 0x100 + major * 0x100 + minor / 0x100 * 0x10_0000,
    ensures
        m.phase is Check ==> m.action()->node == "/dev/dm-"@ + decimal(minor as nat),
        m.phase is Unlink ==> m.action() == (ActionModel::Unlink { path: "/dev/mapper/"@ + m.name }),
        m.phase is Link ==> m.action() == (ActionModel::Link {
            path: "/dev/mapper/"@ + m.name,
            target: "../dm-"@ + decimal(minor as nat),
        }),
        m.phase is RollBack ==> m.action() == (ActionModel::Remove {
            name: m.devices[m.devices.len() - 1].name,
        }),
{
    lemma_number(m.devices.last(), (major, minor));
}

/// Where every reply is good, each device is created, loaded and activated, a verity
/// device is checked, and the next one follows; after the top come the two steps on its
/// link, and the end. Nothing of the stack changes but for the device that is created,
/// which is named by the `dev_t` of the reply.
pub proof fn law_good_replies_lead_on(
    m: AssemblyModel,
    reply: DmHeader,
    rendered: Seq<char>,
    absent: IoError,
)
    requires
        m.wf(),
        reply.inner.version@[0] == 4,
        absent.kind == IoErrorKind::NotFound,
    ensures
        m.phase is Create ==> ({
            let next = m.after_create(Ok(reply));
            &&& next.phase is Load
            &&& next.devices.len() == m.devices.len() + 1
            &&& next.devices.drop_last() == m.devices
            &&& next.devices.last() == (DmDeviceModel {
                name: m.action()->Create_name,
                remove_on_drop: true,
                mode: m.action()->mode,
                dev_t: reply.inner.dev,
            })
            &&& next.name == m.name && next.scutes == m.scutes
        }),
        m.phase is Load ==> m.after_load(rendered, Ok(reply)) == (AssemblyModel {
            phase: PhaseModel::Resume,
            ..m
        }),
        m.phase is Resume && m.devices.len() % 2 == 0 && m.devices.len() < 2 * m.scutes.len() + 2
            ==> m.after_resume(Ok(reply)) == (AssemblyModel { phase: PhaseModel::Check, ..m }),
        m.phase is Resume && m.devices.len() % 2 == 1 ==> m.after_resume(Ok(reply)) == (
        AssemblyModel { phase: PhaseModel::Create, ..m }),
        m.phase is Resume && m.devices.len() == 2 * m.scutes.len() + 2 ==> m.after_resume(Ok(reply))
            == (AssemblyModel { phase: PhaseModel::Unlink, ..m }),
        m.phase is Check ==> m.after_check(Ok(())) == (AssemblyModel {
            phase: PhaseModel::Create,
            ..m
        }),
        m.phase is Unlink ==> m.after_unlink(Ok(())) == (AssemblyModel {
            phase: PhaseModel::Link,
            ..m
        }) && m.after_unlink(Err(absent)) == (AssemblyModel { phase: PhaseModel::Link, ..m }),
        m.phase is Link ==> ({
            let next = m.after_link(Ok(()));
            &&& next.phase is Done
            &&& next.devices.len() == m.devices.len()
            &&& forall|k: int|
                0 <= k < m.devices.len() ==> (#[trigger] next.devices[k]) == (DmDeviceModel {
                    remove_on_drop: false,
                    ..m.devices[k]
                })
            &&& next.name == m.name && next.scutes == m.scutes
        }),
{
    assert(m.phase is Create ==> m.after_create(Ok(reply)).devices.drop_last() =~= m.devices);
}

/// Any failure ends the building, with its own error: a name that is taken is told apart,
/// the load of a table shows that table, and a rejected header or a failed link is passed
/// on as it is. Only a missing stale link is no failure.
pub proof fn law_bad_replies_are_told(
    m: AssemblyModel,
    source: IoError,
    rendered: Seq<char>,
    error: CarapaceErrorModel,
)
    requires
        m.wf(),
        m.building(),
    ensures
        ({
            let ended = |next: AssemblyModel, e: CarapaceErrorModel|
                {
                    &&& next.devices == m.devices
                    &&& next.name == m.name && next.scutes == m.scutes
                    &&& m.devices.len() == 0 ==> next.phase == PhaseModel::Failed(e)
                    &&& m.devices.len() > 0 ==> next.phase == PhaseModel::RollBack(e)
                };
            let failed = |op: Seq<char>, table: Option<Seq<char>>|
                CarapaceErrorModel::Dm(
                    DmErrorModel::DmIoctl { op, source: source@, table_line: table },
                );
            &&& ended(m.after_failure(error), error)
            &&& m.phase is Create && (source.kind == IoErrorKind::AlreadyExists || source.kind
                == IoErrorKind::ResourceBusy) ==> ended(
                m.after_create(Err(source)),
                CarapaceErrorModel::Dm(DmErrorModel::NameConflict { name: m.action()->Create_name }),
            )
            &&& m.phase is Create && source.kind != IoErrorKind::AlreadyExists && source.kind
                != IoErrorKind::ResourceBusy ==> ended(
                m.after_create(Err(source)),
                failed("DM_DEV_CREATE"@, None),
            )
            &&& ended(m.after_load(rendered, Err(source)), failed("DM_TABLE_LOAD"@, Some(rendered)))
            &&& ended(m.after_resume(Err(source)), failed("DM_DEV_RESUME"@, None))
            &&& ended(m.after_check(Err(error)), error)
            &&& source.kind != IoErrorKind::NotFound ==> ended(
                m.after_unlink(Err(source)),
                CarapaceErrorModel::Io(source@),
            )
            &&& ended(m.after_link(Err(source)), CarapaceErrorModel::Io(source@))
        }),
{
}

/// A new assembly has nothing yet, and the path that it ends with is that of the device
/// under `/dev/mapper`.
pub proof fn law_assembly_starts_empty(name: Seq<char>, scutes: Seq<ScuteModel>)
    ensures
        AssemblyModel::start(name, scutes).name == name,
        AssemblyModel::start(name, scutes).scutes == scutes,
        AssemblyModel::start(name, scutes).devices.len() == 0,
        AssemblyModel::start(name, scutes).phase is Create,
        2 * scutes.len() + 2 <= usize::MAX && (forall|i: int|
            0 <= i < scutes.len() ==> (#[trigger] scutes[i]).data_blocks * 4096 <= u64::MAX)
            ==> AssemblyModel::start(name, scutes).wf(),
        mapper_path(name) == "/dev/mapper/"@ + name,
{
}

/// Each step of an assembly is what its state says, and each report leads to the state that
/// its model leads to.
pub proof fn law_assembly_follows_its_model(
    assembly: &Assembly,
    action: Action,
    a: &mut Assembly,
    b: &mut Assembly,
    c: &mut Assembly,
    d: &mut Assembly,
    e: &mut Assembly,
    f: &mut Assembly,
    g: &mut Assembly,
    h: &mut Assembly,
    reply: Result<DmHeader, IoError>,
    rendered: String,
    verdict: Result<(), CarapaceError>,
    done: Result<(), IoError>,
    error: CarapaceError,
)
    requires
        call_ensures(Assembly::next, (assembly,), action),
        call_ensures(Assembly::created, (a, reply), ()),
        call_ensures(Assembly::loaded, (b, rendered, reply), ()),
        call_ensures(Assembly::resumed, (c, reply), ()),
        call_ensures(Assembly::checked, (d, verdict), ()),
        call_ensures(Assembly::unlinked, (e, done), ()),
        call_ensures(Assembly::linked, (f, done), ()),
        call_ensures(Assembly::removed, (g,), ()),
        call_ensures(Assembly::failed, (h, error), ()),
    ensures
        action@ == assembly@.action(),
        final(a)@ == old(a)@.after_create(reply),
        final(b)@ == old(b)@.after_load(rendered@, reply),
        final(c)@ == old(c)@.after_resume(reply),
        verdict is Ok ==> final(d)@ == old(d)@.after_check(Ok(())),
        verdict is Err ==> final(d)@ == old(d)@.after_check(Err(verdict->Err_0@)),
        final(e)@ == old(e)@.after_unlink(done),
        final(f)@ == old(f)@.after_link(done),
        final(g)@ == old(g)@.after_removal(),
        final(h)@ == old(h)@.after_failure(error@),
{
}

/// An assembly is over the scutes that it was given, part for part, and ends with the path of
/// the device or with its error.
pub proof fn law_assembly_is_over_its_scutes(
    name: &str,
    scutes: Vec<Scute>,
    new: Assembly,
    i: int,
    assembly: Assembly,
    ended: Option<Result<String, CarapaceError>>,
    latest: &DmDevice,
)
    requires
        call_ensures(assemble_read_stack, (name, scutes), new),
        call_ensures(Assembly::finish, (assembly,), ended),
        call_ensures(Assembly::device, (&assembly,), latest),
    ensures
        new@.name == name@,
        new@.scutes.len() == scutes@.len(),
        new@.devices.len() == 0,
        new@.phase is Create,
        0 <= i < scutes@.len() ==> {
            &&& new@.scutes[i].cow == scutes@[i].cow
            &&& new@.scutes[i].verity == scutes@[i].verity
            &&& new@.scutes[i].algorithm == scutes@[i].algorithm@
            &&& new@.scutes[i].data_blocks == scutes@[i].data_blocks
            &&& new@.scutes[i].salt == scutes@[i].salt@
            &&& new@.scutes[i].root == scutes@[i].root@
        },
        assembly@.phase is Done ==> ended is Some && ended->0 is Ok && ended->0->Ok_0@
            == "/dev/mapper/"@ + assembly@.name,
        assembly@.phase is Failed ==> ended is Some && ended->0 is Err && ended->0->Err_0@
            == assembly@.phase->Failed_0,
        !(assembly@.phase is Done) && !(assembly@.phase is Failed) ==> ended is None,
        assembly@.devices.len() > 0 ==> latest@ == assembly@.devices[assembly@.devices.len() - 1],
{
}

/// A rollback takes the devices off from the end, one by one, and keeps the error that it
/// started with. A stack is being built as long as it is neither torn down nor ended.
pub proof fn law_rollback_takes_off_the_latest(m: AssemblyModel, error: CarapaceErrorModel)
    requires
        m.phase == PhaseModel::RollBack(error),
        m.devices.len() > 0,
    ensures
        m.after_removal().name == m.name && m.after_removal().scutes == m.scutes,
        m.after_removal().devices == m.devices.take(m.devices.len() - 1),
        m.devices.len() == 1 ==> m.after_removal().phase == PhaseModel::Failed(error),
        m.devices.len() > 1 ==> m.after_removal().phase == PhaseModel::RollBack(error),
        forall|n: AssemblyModel| #[trigger]
            n.building() <==> n.phase is Create || n.phase is Load || n.phase is Resume || n.phase is Check
                || n.phase is Unlink || n.phase is Link,
{
    assert(m.devices.drop_last() =~= m.devices.take(m.devices.len() - 1));
}

/// An action says what it holds.
pub proof fn law_actions_say_what_they_hold(
    a: String,
    b: String,
    mode: DmCreateMode,
    table: DmTable,
    cookie: u32,
    scute: usize,
)
    ensures
        (Action::Create { name: a, mode })@ == (ActionModel::Create { name: a@, mode }),
        (Action::Load { table })@ == (ActionModel::Load { table: table@ }),
        (Action::Resume { udev_cookie: cookie })@ == (ActionModel::Resume { udev_cookie: cookie }),
        (Action::Check { node: a, scute })@ == (ActionModel::Check { node: a@, scute }),
        (Action::Unlink { path: a })@ == (ActionModel::Unlink { path: a@ }),
        (Action::Link { path: a, target: b })@ == (ActionModel::Link { path: a@, target: b@ }),
        (Action::Remove { name: a })@ == (ActionModel::Remove { name: a@ }),
        Action::Nothing@ == ActionModel::Nothing,
{
}

} // verus!
