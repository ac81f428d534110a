//! Loop devices: a file that is held as the block device `/dev/loopN`.
//!
//! The ioctls are issued by the caller; here stand their order, their argument, and what
//! to make of their replies. Cleanup is explicit: a device is detached, or its handle
//! forgotten.

use vstd::prelude::*;
use vstd::string::*;

use crate::dm::{outcome, DmError, DmErrorModel, IoError};
use crate::text::{decimal, decimal_text};

verus! {

/// The logical block size of the loop devices.
pub const LOOP_BLOCK_SIZE: u32 = 4096;

/// `struct loop_info64` of `<linux/loop.h>`.
#[allow(non_camel_case_types)]
#[derive(Clone, Copy)]
pub struct loop_info64_raw {
    pub lo_device: u64,
    pub lo_inode: u64,
    pub lo_rdevice: u64,
    pub lo_offset: u64,
    pub lo_sizelimit: u64,
    pub lo_number: u32,
    pub lo_encrypt_type: u32,
    pub lo_encrypt_key_size: u32,
    pub lo_flags: u32,
    pub lo_file_name: [u8; 64],
    pub lo_crypt_name: [u8; 64],
    pub lo_encrypt_key: [u8; 32],
    pub lo_init: [u64; 2],
}

/// `struct loop_config` of `<linux/loop.h>`.
#[allow(non_camel_case_types)]
#[derive(Clone, Copy)]
pub struct loop_config_raw {
    pub fd: u32,
    pub block_size: u32,
    pub info: loop_info64_raw,
    pub __reserved: [u64; 8],
}

/// The argument of `LOOP_CONFIGURE`.
#[derive(Clone, Copy)]
pub struct LoopConfig {
    pub inner: loop_config_raw,
}

impl loop_info64_raw {
    /// Every field is zero: the whole file, as large as it is, and no flags.
    pub open spec fn is_zero(self) -> bool {
        &&& self.lo_device == 0
        &&& self.lo_inode == 0
        &&& self.lo_rdevice == 0
        &&& self.lo_offset == 0
        &&& self.lo_sizelimit == 0
        &&& self.lo_number == 0
        &&& self.lo_encrypt_type == 0
        &&& self.lo_encrypt_key_size == 0
        &&& self.lo_flags == 0
        &&& forall|i: int| 0 <= i < 64 ==> #[trigger] self.lo_file_name@[i] == 0
        &&& forall|i: int| 0 <= i < 64 ==> #[trigger] self.lo_crypt_name@[i] == 0
        &&& forall|i: int| 0 <= i < 32 ==> #[trigger] self.lo_encrypt_key@[i] == 0
        &&& forall|i: int| 0 <= i < 2 ==> #[trigger] self.lo_init@[i] == 0
    }
}

impl LoopConfig {
    /// This configures a device over the whole of the file behind descriptor `fd`, and
    /// sets nothing else but the block size.
    pub open spec fn is_for(self, fd: i32) -> bool {
        &&& self.inner.fd == fd as u32
        &&& self.inner.block_size == LOOP_BLOCK_SIZE
        &&& self.inner.info.is_zero()
        &&& forall|i: int| 0 <= i < 8 ==> #[trigger] self.inner.__reserved@[i] == 0
    }

    /// A loop device over the whole of the file behind descriptor `fd`, in blocks of
    /// 4096 bytes.
    pub fn new(fd: i32) -> (r: LoopConfig)
        ensures
            r.is_for(fd),
    {
        LoopConfig {
            inner: loop_config_raw {
                fd: fd as u32,
                block_size: LOOP_BLOCK_SIZE,
                info: loop_info64_raw {
                    lo_device: 0,
                    lo_inode: 0,
                    lo_rdevice: 0,
                    lo_offset: 0,
                    lo_sizelimit: 0,
                    lo_number: 0,
                    lo_encrypt_type: 0,
                    lo_encrypt_key_size: 0,
                    lo_flags: 0,
                    lo_file_name: [0u8; 64],
                    lo_crypt_name: [0u8; 64],
                    lo_encrypt_key: [0u8; 32],
                    lo_init: [0u64; 2],
                },
                __reserved: [0u64; 8],
            },
        }
    }
}

/// An ioctl on a loop device that failed.
pub open spec fn loop_fault(op: Seq<char>, source: IoError) -> DmErrorModel {
    DmErrorModel::DmIoctl { op, source: source@, table_line: None }
}

/// The path of loop device number `index`.
pub open spec fn loop_path(index: u32) -> Seq<char> {
    "/dev/loop"@ + decimal(index as nat)
}

/// Where an attach stands. `fd` is the descriptor of the file to attach.
pub enum AttachModel {
    /// The file to attach is to be opened.
    Backing,
    /// `/dev/loop-control` is to be opened.
    Control { fd: i32 },
    /// A free device is to be asked for.
    Free { fd: i32 },
    /// The loop device at `path` is to be opened.
    Device { fd: i32, path: Seq<char> },
    /// The loop device is to be configured.
    Configure { fd: i32, path: Seq<char> },
    /// The file is attached as the device at `path`.
    Done { path: Seq<char> },
    /// It is not, after this error.
    Failed(DmErrorModel),
}

impl AttachModel {
    /// A file is to be opened next.
    pub open spec fn opens(self) -> bool {
        self is Backing || self is Control || self is Device
    }

    /// After the attempt to open a file.
    pub open spec fn after_open(self, reply: Result<i32, IoError>) -> AttachModel {
        match reply {
            Err(source) => AttachModel::Failed(DmErrorModel::Io(source@)),
            Ok(opened) => match self {
                AttachModel::Backing => AttachModel::Control { fd: opened },
                AttachModel::Control { fd } => AttachModel::Free { fd },
                AttachModel::Device { fd, path } => AttachModel::Configure { fd, path },
                other => other,
            },
        }
    }

    /// After the reply to `LOOP_CTL_GET_FREE`, the index of a free device.
    pub open spec fn after_get_free(self, reply: Result<u32, IoError>) -> AttachModel {
        match reply {
            Err(source) => AttachModel::Failed(loop_fault("LOOP_CTL_GET_FREE"@, source)),
            Ok(index) => AttachModel::Device { fd: self->Free_fd, path: loop_path(index) },
        }
    }

    /// After the reply to `LOOP_CONFIGURE`.
    pub open spec fn after_configure(self, reply: Result<u32, IoError>) -> AttachModel {
        match reply {
            Err(source) => AttachModel::Failed(loop_fault("LOOP_CONFIGURE"@, source)),
            Ok(_) => AttachModel::Done { path: self->Configure_path },
        }
    }
}

#[derive(Debug)]
enum AttachPhase {
    Backing,
    Control { fd: i32 },
    Free { fd: i32 },
    Device { fd: i32, path: String },
    Configure { fd: i32, path: String },
    Done { path: String },
    Failed(DmError),
}

/// An attach that is under way: it says what to do next ([`LoopAttach::next`]), the
/// caller does it and reports the outcome.
#[derive(Debug)]
pub struct LoopAttach {
    phase: AttachPhase,
}

impl View for LoopAttach {
    type V = AttachModel;

    closed spec fn view(&self) -> AttachModel {
        match self.phase {
            AttachPhase::Backing => AttachModel::Backing,
            AttachPhase::Control { fd } => AttachModel::Control { fd },
            AttachPhase::Free { fd } => AttachModel::Free { fd },
            AttachPhase::Device { fd, path } => AttachModel::Device { fd, path: path@ },
            AttachPhase::Configure { fd, path } => AttachModel::Configure { fd, path: path@ },
            AttachPhase::Done { path } => AttachModel::Done { path: path@ },
            AttachPhase::Failed(e) => AttachModel::Failed(e@),
        }
    }
}

/// What an attach needs next.
#[derive(Clone, Copy)]
pub enum AttachAction<'a> {
    /// Open the file to attach; report its descriptor with [`LoopAttach::opened`].
    OpenBacking,
    /// Open the file at this path; report with [`LoopAttach::opened`].
    Open(&'a str),
    /// Ask for a free device; report with [`LoopAttach::found_free`].
    GetFree,
    /// Configure the device that was opened last; report with
    /// [`LoopAttach::configured`].
    Configure(LoopConfig),
    /// Nothing: [`LoopAttach::finish`] tells how it ended.
    Nothing,
}

impl LoopAttach {
    /// What is to be done next.
    pub fn next(&self) -> (r: AttachAction<'_>)
        ensures
            match self@ {
                AttachModel::Backing => r is OpenBacking,
                AttachModel::Control { .. } => r is Open && r->Open_0@ == "/dev/loop-control"@,
                AttachModel::Free { .. } => r is GetFree,
                AttachModel::Device { path, .. } => r is Open && r->Open_0@ == path,
                AttachModel::Configure { fd, .. } => r is Configure && r->Configure_0.is_for(fd),
                AttachModel::Done { .. } | AttachModel::Failed(_) => r is Nothing,
            },
    {
        match &self.phase {
            AttachPhase::Backing => AttachAction::OpenBacking,
            AttachPhase::Control { .. } => AttachAction::Open("/dev/loop-control"),
            AttachPhase::Free { .. } => AttachAction::GetFree,
            AttachPhase::Device { path, .. } => AttachAction::Open(path.as_str()),
            AttachPhase::Configure { fd, .. } => AttachAction::Configure(LoopConfig::new(*fd)),
            AttachPhase::Done { .. } | AttachPhase::Failed(_) => AttachAction::Nothing,
        }
    }

    /// Reports the attempt to open a file.
    pub fn opened(self, reply: Result<i32, IoError>) -> (r: LoopAttach)
        requires
            self@.opens(),
        ensures
            r@ == self@.after_open(reply),
    {
        let phase = match reply {
            Err(source) => AttachPhase::Failed(DmError::Io(source)),
            Ok(opened) => match self.phase {
                AttachPhase::Backing => AttachPhase::Control { fd: opened },
                AttachPhase::Control { fd } => AttachPhase::Free { fd },
                AttachPhase::Device { fd, path } => AttachPhase::Configure { fd, path },
                other => other,
            },
        };
        LoopAttach { phase }
    }

    /// Reports the reply to `LOOP_CTL_GET_FREE`, the index of a free device.
    pub fn found_free(self, reply: Result<u32, IoError>) -> (r: LoopAttach)
        requires
            self@ is Free,
        ensures
            r@ == self@.after_get_free(reply),
    {
        let phase = match (self.phase, reply) {
            (_, Err(source)) => AttachPhase::Failed(
                DmError::DmIoctl { op: "LOOP_CTL_GET_FREE", source, table_line: None },
            ),
            (AttachPhase::Free { fd }, Ok(index)) => {
                let mut path = "/dev/loop".to_string();
                path.append(&decimal_text(index as u64));
                AttachPhase::Device { fd, path }
            },
            (other, Ok(_)) => other,
        };
        LoopAttach { phase }
    }

    /// Reports the reply to `LOOP_CONFIGURE`.
    pub fn configured(self, reply: Result<u32, IoError>) -> (r: LoopAttach)
        requires
            self@ is Configure,
        ensures
            r@ == self@.after_configure(reply),
    {
        let phase = match (self.phase, reply) {
            (_, Err(source)) => AttachPhase::Failed(
                DmError::DmIoctl { op: "LOOP_CONFIGURE", source, table_line: None },
            ),
            (AttachPhase::Configure { path, .. }, Ok(_)) => AttachPhase::Done { path },
            (other, Ok(_)) => other,
        };
        LoopAttach { phase }
    }

    /// How it ended: the handle, or the error. `None` while there is still something to
    /// do.
    pub fn finish(self) -> (r: Option<Result<LoopDevice, DmError>>)
        ensures
            match self@ {
                AttachModel::Done { path } => r is Some && r->0 is Ok && r->0->Ok_0@ == path,
                AttachModel::Failed(e) => r is Some && r->0 is Err && r->0->Err_0@ == e,
                _ => r is None,
            },
    {
        match self.phase {
            AttachPhase::Done { path } => Some(Ok(LoopDevice { path })),
            AttachPhase::Failed(e) => Some(Err(e)),
            _ => None,
        }
    }
}

/// The handle of an attached `/dev/loopN`.
#[derive(Debug)]
pub struct LoopDevice {
    path: String,
}

impl View for LoopDevice {
    type V = Seq<char>;

    /// The path of the device.
    closed spec fn view(&self) -> Seq<char> {
        self.path@
    }
}

impl LoopDevice {
    /// Starts to attach a file to a free loop device.
    pub fn attach() -> (r: LoopAttach)
        ensures
            r@ == AttachModel::Backing,
    {
        LoopAttach { phase: AttachPhase::Backing }
    }

    /// The path of the device, to be named in a table.
    pub fn path(&self) -> (r: &str)
        ensures
            r@ == self@,
    {
        &self.path
    }

    /// Takes the reply to `LOOP_CLR_FD`, which detaches the file.
    pub fn detach(self, reply: Result<u32, IoError>) -> (r: Result<(), DmError>)
        ensures
            outcome(r) == (match reply {
                Ok(_) => Ok::<(), DmErrorModel>(()),
                Err(source) => Err(loop_fault("LOOP_CLR_FD"@, source)),
            }),
    {
        match reply {
            Ok(_) => Ok(()),
            Err(source) => Err(DmError::DmIoctl { op: "LOOP_CLR_FD", source, table_line: None }),
        }
    }

    /// Gives the handle up, and the path back: the device stays attached.
    pub fn forget(self) -> (r: String)
        ensures
            r@ == self@,
    {
        self.path
    }
}

/// Where every step succeeds, the file that was opened first is what the free device is
/// configured with, and the handle is that device's.
pub proof fn law_attach_configures_the_free_device(
    backing: i32,
    control: i32,
    index: u32,
    device: i32,
    done: u32,
)
    ensures
        ({
            let asked = AttachModel::Backing.after_open(Ok(backing)).after_open(Ok(control));
            let found = asked.after_get_free(Ok(index));
            let ready = found.after_open(Ok(device));
            &&& asked == AttachModel::Free { fd: backing }
            &&& found == AttachModel::Device { fd: backing, path: loop_path(index) }
            &&& ready == AttachModel::Configure { fd: backing, path: loop_path(index) }
            &&& ready.after_configure(Ok(done)) == AttachModel::Done { path: loop_path(index) }
        }),
{
}

/// Any step that fails ends the attach, with the error of that step.
pub proof fn law_attach_stops_at_a_failure(m: AttachModel, source: IoError)
    ensures
        m.after_open(Err(source)) == AttachModel::Failed(DmErrorModel::Io(source@)),
        m.after_get_free(Err(source)) == AttachModel::Failed(
            loop_fault("LOOP_CTL_GET_FREE"@, source),
        ),
        m.after_configure(Err(source)) == AttachModel::Failed(
            loop_fault("LOOP_CONFIGURE"@, source),
        ),
{
}

/// What an attach asks for at each step: the file, the control device, a free device, that
/// device, and its configuration with the file, in blocks of 4096 bytes and otherwise
/// zero.
pub proof fn law_attach_asks_for_each_step(attach: &LoopAttach, action: AttachAction<'_>)
    requires
        call_ensures(LoopAttach::next, (attach,), action),
    ensures
        attach@ is Backing ==> action is OpenBacking,
        attach@ is Control ==> action is Open && action->Open_0@ == "/dev/loop-control"@,
        attach@ is Free ==> action is GetFree,
        attach@ is Device ==> action is Open && action->Open_0@ == attach@->Device_path,
        attach@ is Configure ==> action is Configure && ({
            let c = action->Configure_0.inner;
            &&& c.fd == attach@->Configure_fd as u32
            &&& c.block_size == 4096
            &&& c.info.lo_offset == 0 && c.info.lo_sizelimit == 0 && c.info.lo_flags == 0
            &&& c.info.lo_device == 0 && c.info.lo_inode == 0 && c.info.lo_rdevice == 0
            &&& c.info.lo_number == 0 && c.info.lo_encrypt_type == 0 && c.info.lo_encrypt_key_size
                == 0
            &&& forall|i: int| 0 <= i < 64 ==> #[trigger] c.info.lo_file_name@[i] == 0
            &&& forall|i: int| 0 <= i < 64 ==> #[trigger] c.info.lo_crypt_name@[i] == 0
            &&& forall|i: int| 0 <= i < 32 ==> #[trigger] c.info.lo_encrypt_key@[i] == 0
            &&& forall|i: int| 0 <= i < 2 ==> #[trigger] c.info.lo_init@[i] == 0
            &&& forall|i: int| 0 <= i < 8 ==> #[trigger] c.__reserved@[i] == 0
        }),
        attach@ is Done || attach@ is Failed ==> action is Nothing,
{
}

/// What follows each report of an attach, and what it ends with.
pub proof fn law_attach_follows_its_reports(
    new: LoopAttach,
    attach: LoopAttach,
    reply: Result<i32, IoError>,
    opened: LoopAttach,
    index: Result<u32, IoError>,
    found: LoopAttach,
    configured: LoopAttach,
    ended: Option<Result<LoopDevice, DmError>>,
)
    requires
        call_ensures(LoopDevice::attach, (), new),
        call_ensures(LoopAttach::opened, (attach, reply), opened),
        call_ensures(LoopAttach::found_free, (attach, index), found),
        call_ensures(LoopAttach::configured, (attach, index), configured),
        call_ensures(LoopAttach::finish, (attach,), ended),
    ensures
        new@ is Backing,
        reply is Ok && attach@ is Backing ==> opened@ == (AttachModel::Control { fd: reply->Ok_0 }),
        reply is Ok && attach@ is Control ==> opened@ == (AttachModel::Free {
            fd: attach@->Control_fd,
        }),
        reply is Ok && attach@ is Device ==> opened@ == (AttachModel::Configure {
            fd: attach@->Device_fd,
            path: attach@->Device_path,
        }),
        reply is Err ==> opened@ == AttachModel::Failed(DmErrorModel::Io(reply->Err_0@)),
        index is Ok && attach@ is Free ==> found@ == (AttachModel::Device {
            fd: attach@->Free_fd,
            path: "/dev/loop"@ + decimal(index->Ok_0 as nat),
        }),
        index is Err ==> found@ == AttachModel::Failed(
            DmErrorModel::DmIoctl {
                op: "LOOP_CTL_GET_FREE"@,
                source: index->Err_0@,
                table_line: None,
            },
        ),
        index is Ok && attach@ is Configure ==> configured@ == (AttachModel::Done {
            path: attach@->Configure_path,
        }),
        index is Err ==> configured@ == AttachModel::Failed(
            DmErrorModel::DmIoctl {
                op: "LOOP_CONFIGURE"@,
                source: index->Err_0@,
                table_line: None,
            },
        ),
        attach@ is Done ==> ended is Some && ended->0 is Ok && ended->0->Ok_0@
            == attach@->Done_path,
        attach@ is Failed ==> ended is Some && ended->0 is Err && ended->0->Err_0@
            == attach@->Failed_0,
        !(attach@ is Done) && !(attach@ is Failed) ==> ended is None,
{
}

/// A loop device is detached as the kernel says, and keeps its path until then.
pub proof fn law_loop_device_keeps_its_path(
    device: LoopDevice,
    path: &str,
    reply: Result<u32, IoError>,
    detached: Result<(), DmError>,
    forgotten: String,
)
    requires
        call_ensures(LoopDevice::path, (&device,), path),
        call_ensures(LoopDevice::detach, (device, reply), detached),
        call_ensures(LoopDevice::forget, (device,), forgotten),
    ensures
        path@ == device@,
        forgotten@ == device@,
        reply is Ok ==> detached is Ok,
        reply is Err ==> detached is Err && detached->Err_0@ == (DmErrorModel::DmIoctl {
            op: "LOOP_CLR_FD"@,
            source: reply->Err_0@,
            table_line: None,
        }),
{
}

/// The configuration of a device is over the file's descriptor, in blocks of 4096 bytes.
pub proof fn law_config_is_over_the_file(fd: i32, r: LoopConfig)
    requires
        call_ensures(LoopConfig::new, (fd,), r),
    ensures
        r.inner.fd == fd as u32,
        r.inner.block_size == 4096,
        r.inner.info.lo_offset == 0 && r.inner.info.lo_sizelimit == 0 && r.inner.info.lo_flags == 0,
        forall|i: int| 0 <= i < 8 ==> #[trigger] r.inner.__reserved@[i] == 0,
{
}

} // verus!
