//! `DmDevice`: the handle of a created device, and what to make of the kernel's
//! replies about it.
//!
//! Each ioctl has two functions here: one makes the request, the other takes the
//! reply (the header as the kernel left it, or the failure) and decides.

use vstd::prelude::*;
use vstd::string::*;
use vstd::utf8::encode_utf8;
use crate::dm::header::{name_fault, DmHeader};
use crate::dm::uapi::{dm_ioctl_raw, DM_IOCTL_VERSION_MAJOR, DM_READONLY_FLAG};
use crate::dm::{outcome, DmError, DmErrorModel, IoError, IoErrorKind, IoErrorModel};
use crate::text::{decimal, decimal_text};

verus! {

/// Whether a device may be written to.
#[derive(Debug, Clone, Copy, PartialEq, Eq, Structural)]
pub enum DmCreateMode {
    ReadOnly,
    ReadWrite,
}

/// The udev cookie for the operator-visible top device: `DM_UDEV_PRIMARY_SOURCE_FLAG`
/// (0x0040) in the cookie's high half. It marks the resume as the authoritative
/// activation, so that udev creates and keeps `/dev/mapper/<name>`.
pub const DM_UDEV_PRIMARY_SOURCE_COOKIE: u32 = 0x0040_0000;

/// The room for the reply to `DM_LIST_DEVICES`, behind the header.
pub const LIST_PAYLOAD_CAP: usize = 65536;

/// The room for the reply to `DM_TABLE_STATUS` at the first attempt.
pub const STATUS_INITIAL_CAP: usize = 4096;

/// The most room that is offered for the reply to `DM_TABLE_STATUS`.
pub const STATUS_MAX_CAP: usize = 262144;

/// `(major, minor)` of a kernel `dev_t`. The lower 32 bits hold, from the top,
/// `minor[19:8]`, `major[11:0]` and `minor[7:0]`.
pub open spec fn major_minor(dev: u64) -> (u32, u32) {
    let d = dev as int % 0x1_0000_0000;
    ((d / 0x100 % 0x1000) as u32, (d % 0x100 + d / 0x10_0000 * 0x100) as u32)
}

/// The `dev_t` of the device `major`:`minor`.
pub open spec fn dev_of(major: u32, minor: u32) -> int {
    minor % 0x100 + major * 0x100 + minor / 0x100 * 0x10_0000
}

/// Decodes a kernel `dev_t`.
pub fn split_dev(dev: u64) -> (r: (u32, u32))
    ensures
        r == major_minor(dev),
{
    let low: u32 = (dev % 0x1_0000_0000) as u32;
    let major: u32 = (low >> 8) & 0x0000_0fff;
    let minor: u32 = (low & 0x0000_00ff) | ((low >> 12) & 0x000f_ff00);
    assert((low >> 8) & 0x0000_0fff == low / 0x100 % 0x1000) by (bit_vector);
    assert((low & 0x0000_00ff) | ((low >> 12) & 0x000f_ff00) == low % 0x100 + low / 0x10_0000 * 0x100)
        by (bit_vector);
    (major, minor)
}

/// A `dev_t` decodes to the device that it was made of, for every major number of 12
/// bits and minor number of 20.
pub proof fn law_split_dev_inverts(major: u32, minor: u32)
    requires
        major < 0x1000,
        minor < 0x10_0000,
    ensures
        0 <= dev_of(major, minor) < 0x1_0000_0000,
        major_minor(dev_of(major, minor) as u64) == (major, minor),
{
}

/// Two `dev_t` of 32 bits that decode alike are the same.
pub proof fn law_split_dev_is_one_to_one(a: u64, b: u64)
    requires
        a < 0x1_0000_0000,
        b < 0x1_0000_0000,
        major_minor(a) == major_minor(b),
    ensures
        a == b,
{
}

/// An outcome, with what it holds taken by its view.
pub open spec fn outcome_view<T: View>(r: Result<T, DmError>) -> Result<T::V, DmErrorModel> {
    match r {
        Ok(t) => Ok(t@),
        Err(e) => Err(e@),
    }
}

/// The error of an ioctl that failed.
pub open spec fn ioctl_fault(op: Seq<char>, source: IoErrorModel) -> DmErrorModel {
    DmErrorModel::DmIoctl { op, source, table_line: None }
}

/// What is wrong with the version in a reply, or nothing: the major version must be
/// the one that is spoken here.
pub open spec fn version_fault(header: DmHeader, op: Seq<char>) -> Option<DmErrorModel> {
    let v = header.inner.version@;
    if v[0] != DM_IOCTL_VERSION_MAJOR {
        Some(
            ioctl_fault(
                op,
                IoErrorModel {
                    kind: IoErrorKind::Unsupported,
                    text: "kernel returned dm-ioctl version "@ + decimal(v[0] as nat) + "."@
                        + decimal(v[1] as nat) + "."@ + decimal(v[2] as nat)
                        + "; we require major == 4"@,
                },
            ),
        )
    } else {
        None
    }
}

/// What a reply means for an operation that wants nothing of it but success.
pub open spec fn plain_outcome(
    reply: Result<DmHeader, IoError>,
    op: Seq<char>,
) -> Result<(), DmErrorModel> {
    match reply {
        Err(source) => Err(ioctl_fault(op, source@)),
        Ok(header) => match version_fault(header, op) {
            Some(fault) => Err(fault),
            None => Ok(()),
        },
    }
}

/// Checks that a reply has the version that is spoken here.
pub fn check_version(header: &DmHeader, op: &'static str) -> (r: Result<(), DmError>)
    ensures
        match version_fault(*header, op@) {
            Some(fault) => outcome(r) == Err::<(), DmErrorModel>(fault),
            None => r == Ok::<(), DmError>(()),
        },
{
    let version = header.inner.version;
    if version[0] != DM_IOCTL_VERSION_MAJOR {
        let mut text = "kernel returned dm-ioctl version ".to_string();
        text.append(&decimal_text(version[0] as u64));
        text.append(".");
        text.append(&decimal_text(version[1] as u64));
        text.append(".");
        text.append(&decimal_text(version[2] as u64));
        text.append("; we require major == 4");
        return Err(
            DmError::DmIoctl {
                op,
                source: IoError { kind: IoErrorKind::Unsupported, text },
                table_line: None,
            },
        );
    }
    Ok(())
}

/// Takes a reply of which nothing is wanted but success.
fn plain_reply(reply: Result<DmHeader, IoError>, op: &'static str) -> (r: Result<(), DmError>)
    ensures
        outcome(r) == plain_outcome(reply, op@),
{
    match reply {
        Err(source) => Err(DmError::DmIoctl { op, source, table_line: None }),
        Ok(header) => check_version(&header, op),
    }
}

/// The handle of a device that was created. The device is to be removed when the
/// handle is dropped, unless it was forgotten.
#[derive(Debug)]
pub struct DmDevice {
    name: String,
    remove_on_drop: bool,
    mode: DmCreateMode,
    dev_t: u64,
}

/// What a [`DmDevice`] holds.
pub struct DmDeviceModel {
    pub name: Seq<char>,
    pub remove_on_drop: bool,
    pub mode: DmCreateMode,
    pub dev_t: u64,
}

impl View for DmDevice {
    type V = DmDeviceModel;

    closed spec fn view(&self) -> DmDeviceModel {
        DmDeviceModel {
            name: self.name@,
            remove_on_drop: self.remove_on_drop,
            mode: self.mode,
            dev_t: self.dev_t,
        }
    }
}

/// What the reply to `DM_DEV_CREATE` means: a name that is taken is told apart from
/// the other failures.
pub open spec fn create_outcome(
    name: Seq<char>,
    mode: DmCreateMode,
    reply: Result<DmHeader, IoError>,
) -> Result<DmDeviceModel, DmErrorModel> {
    match reply {
        Err(source) => if source.kind == IoErrorKind::AlreadyExists || source.kind
            == IoErrorKind::ResourceBusy {
            Err(DmErrorModel::NameConflict { name })
        } else {
            Err(ioctl_fault("DM_DEV_CREATE"@, source@))
        },
        Ok(header) => match version_fault(header, "DM_DEV_CREATE"@) {
            Some(fault) => Err(fault),
            None => Ok(DmDeviceModel { name, remove_on_drop: true, mode, dev_t: header.inner.dev }),
        },
    }
}

/// The flags of a request about a device of the given mode.
pub open spec fn mode_flags(mode: DmCreateMode) -> u32 {
    match mode {
        DmCreateMode::ReadOnly => DM_READONLY_FLAG,
        DmCreateMode::ReadWrite => 0,
    }
}

/// `r` is a new request about the device `name`, but for the three fields given; or
/// the name is at fault.
pub open spec fn is_request(
    r: Result<DmHeader, DmError>,
    name: Seq<char>,
    flags: u32,
    data_size: int,
    event_nr: u32,
) -> bool {
    match name_fault(name) {
        Some(fault) => outcome(r) == Err::<DmHeader, DmErrorModel>(fault),
        None => {
            &&& r is Ok
            &&& r->Ok_0.inner.flags == flags
            &&& r->Ok_0.inner.data_size == data_size
            &&& r->Ok_0.inner.event_nr == event_nr
            &&& (DmHeader {
                inner: dm_ioctl_raw { flags: 0, data_size: 312, event_nr: 0, ..r->Ok_0.inner },
            }).is_new(name)
        },
    }
}

impl DmDevice {
    /// The request of `DM_DEV_CREATE`.
    pub fn create_request(name: &str, mode: DmCreateMode) -> (r: Result<DmHeader, DmError>)
        ensures
            is_request(r, name@, mode_flags(mode), 312, 0),
    {
        match DmHeader::new(name) {
            Err(e) => Err(e),
            Ok(header) => {
                let mut header = header;
                match mode {
                    DmCreateMode::ReadOnly => {
                        header.add_readonly();
                        assert(0u32 | 1u32 == 1u32) by (bit_vector);
                    },
                    DmCreateMode::ReadWrite => {},
                }
                Ok(header)
            },
        }
    }

    /// Takes the reply to `DM_DEV_CREATE` for the device `name`.
    pub fn create(name: &str, mode: DmCreateMode, reply: Result<DmHeader, IoError>) -> (r: Result<
        DmDevice,
        DmError,
    >)
        ensures
            outcome_view(r) == create_outcome(name@, mode, reply),
    {
        match reply {
            Err(source) => match source.kind {
                IoErrorKind::AlreadyExists | IoErrorKind::ResourceBusy => Err(
                    DmError::NameConflict { name: name.to_string() },
                ),
                _ => Err(DmError::DmIoctl { op: "DM_DEV_CREATE", source, table_line: None }),
            },
            Ok(header) => {
                match check_version(&header, "DM_DEV_CREATE") {
                    Err(e) => Err(e),
                    Ok(()) => Ok(
                        DmDevice {
                            name: name.to_string(),
                            remove_on_drop: true,
                            mode,
                            dev_t: header.inner.dev,
                        },
                    ),
                }
            },
        }
    }

    /// The device's name.
    pub fn name(&self) -> (r: &str)
        ensures
            r@ == self@.name,
    {
        &self.name
    }

    /// `(major, minor)`, the way that a table names the device.
    pub fn dev_ref(&self) -> (r: (u32, u32))
        ensures
            r == major_minor(self@.dev_t),
    {
        split_dev(self.dev_t)
    }

    /// The path of the device's node, `/dev/dm-<minor>`, which is there from the
    /// creation on.
    pub fn dev_node(&self) -> (r: String)
        ensures
            r@ == "/dev/dm-"@ + decimal(major_minor(self@.dev_t).1 as nat),
    {
        let (_, minor) = split_dev(self.dev_t);
        let mut path = "/dev/dm-".to_string();
        path.append(&decimal_text(minor as u64));
        path
    }

    /// The request of `DM_TABLE_LOAD`, given the header that was built for the table:
    /// the mode of the creation is replayed, as the kernel asks for it.
    pub fn load_table_request(&self, built: DmHeader) -> (r: DmHeader)
        ensures
            r == (match self@.mode {
                DmCreateMode::ReadOnly => built.with_flags(built.inner.flags | DM_READONLY_FLAG),
                DmCreateMode::ReadWrite => built,
            }),
    {
        let mut header = built;
        match self.mode {
            DmCreateMode::ReadOnly => {
                header.add_readonly();
            },
            DmCreateMode::ReadWrite => {},
        }
        header
    }

    /// Takes the reply to `DM_TABLE_LOAD`. An error carries `rendered`, the table as
    /// the operator reads it.
    pub fn load_table(&self, rendered: String, reply: Result<DmHeader, IoError>) -> (r: Result<
        (),
        DmError,
    >)
        ensures
            outcome(r) == load_outcome(rendered@, reply),
    {
        match reply {
            Err(source) => Err(
                DmError::DmIoctl { op: "DM_TABLE_LOAD", source, table_line: Some(rendered) },
            ),
            Ok(header) => {
                let version = header.inner.version;
                if version[0] != DM_IOCTL_VERSION_MAJOR {
                    let mut text = "kernel returned dm-ioctl version major ".to_string();
                    text.append(&decimal_text(version[0] as u64));
                    text.append("; require 4");
                    return Err(
                        DmError::DmIoctl {
                            op: "DM_TABLE_LOAD",
                            source: IoError { kind: IoErrorKind::Unsupported, text },
                            table_line: Some(rendered),
                        },
                    );
                }
                Ok(())
            },
        }
    }

    /// The request that publishes the loaded table. The kernel echoes `udev_cookie`
    /// to udev: [`DM_UDEV_PRIMARY_SOURCE_COOKIE`] for the operator-visible device, 0
    /// for the layers below it.
    pub fn resume_request(&self, udev_cookie: u32) -> (r: Result<DmHeader, DmError>)
        ensures
            is_request(r, self@.name, mode_flags(self@.mode), 312, udev_cookie),
    {
        match DmDevice::create_request(&self.name, self.mode) {
            Err(e) => Err(e),
            Ok(header) => {
                let mut header = header;
                header.set_suspend(false);
                header.set_udev_cookie(udev_cookie);
                assert(0u32 & !2u32 == 0u32) by (bit_vector);
                assert(1u32 & !2u32 == 1u32) by (bit_vector);
                Ok(header)
            },
        }
    }

    /// Takes the reply to the resume.
    pub fn resume(&self, reply: Result<DmHeader, IoError>) -> (r: Result<(), DmError>)
        ensures
            outcome(r) == plain_outcome(reply, "DM_DEV_RESUME"@),
    {
        plain_reply(reply, "DM_DEV_RESUME")
    }

    /// Opts out of the removal: the device outlives the handle.
    pub fn forget(self) -> (r: DmDevice)
        ensures
            r@ == (DmDeviceModel { remove_on_drop: false, ..self@ }),
    {
        DmDevice { name: self.name, remove_on_drop: false, mode: self.mode, dev_t: self.dev_t }
    }

    /// Whether the device is to be removed when the handle is dropped.
    pub fn removes_on_drop(&self) -> (r: bool)
        ensures
            r == self@.remove_on_drop,
    {
        self.remove_on_drop
    }

    /// What to tell the operator when the removal on drop failed, which nothing else
    /// comes of.
    pub fn removal_complaint(&self, error: &DmError) -> (r: String)
        ensures
            r@ == "carapace: best-effort DM_DEV_REMOVE for '"@ + self@.name + "' failed: "@
                + error@.text(),
    {
        let mut text = "carapace: best-effort DM_DEV_REMOVE for '".to_string();
        text.append(&self.name);
        text.append("' failed: ");
        text.append(&error.message());
        text
    }
}

/// What the reply to `DM_TABLE_LOAD` means; every error carries the table.
pub open spec fn load_outcome(rendered: Seq<char>, reply: Result<DmHeader, IoError>) -> Result<
    (),
    DmErrorModel,
> {
    match reply {
        Err(source) => Err(
            DmErrorModel::DmIoctl {
                op: "DM_TABLE_LOAD"@,
                source: source@,
                table_line: Some(rendered),
            },
        ),
        Ok(header) => if header.inner.version@[0] != DM_IOCTL_VERSION_MAJOR {
            Err(
                DmErrorModel::DmIoctl {
                    op: "DM_TABLE_LOAD"@,
                    source: IoErrorModel {
                        kind: IoErrorKind::Unsupported,
                        text: "kernel returned dm-ioctl version major "@ + decimal(
                            header.inner.version@[0] as nat,
                        ) + "; require 4"@,
                    },
                    table_line: Some(rendered),
                },
            )
        } else {
            Ok(())
        },
    }
}

/// The request that removes the device `name`.
pub fn remove_request(name: &str) -> (r: Result<DmHeader, DmError>)
    ensures
        is_request(r, name@, 0, 312, 0),
{
    DmHeader::new(name)
}

/// Takes the reply to `DM_DEV_REMOVE`.
pub fn remove_by_name(reply: Result<DmHeader, IoError>) -> (r: Result<(), DmError>)
    ensures
        outcome(r) == plain_outcome(reply, "DM_DEV_REMOVE"@),
{
    plain_reply(reply, "DM_DEV_REMOVE")
}


/// A `dev_t` holds, from the top of its lower 32 bits, twelve bits of the minor number,
/// twelve of the major number, and the eight lowest of the minor number; what stands above
/// them is not looked at.
pub proof fn law_dev_is_split_by_its_bits(dev: u64, major: u32, minor: u32)
    requires
        major < 0x1000,
        minor < 0x10_0000,
        dev & 0xffff_ffff == (minor as u64 & 0xff) | ((major as u64) << 8) | ((minor as u64 & 0xfff00)
            << 12),
    ensures
        major_minor(dev) == (major, minor),
{
    let low = dev & 0xffff_ffff;
    let x = major as u64;
    let y = minor as u64;
    assert(low == dev % 0x1_0000_0000) by (bit_vector)
        requires
            low == dev & 0xffff_ffff,
    ;
    assert((y & 0xff) | (x << 8) | ((y & 0xfff00) << 12) == y % 0x100 + x * 0x100 + y / 0x100
        * 0x10_0000) by (bit_vector)
        requires
            x < 0x1000,
            y < 0x10_0000,
    ;
}

/// A reply of another major version than 4 is an error of the operation, which shows the
/// whole version; one of version 4 is not.
pub proof fn law_only_version_four_is_taken(header: DmHeader, op: Seq<char>, name: Seq<char>, mode:
    DmCreateMode, rendered: Seq<char>)
    ensures
        ({
            let v = header.inner.version@;
            let fault = |o: Seq<char>|
                DmErrorModel::DmIoctl {
                    op: o,
                    source: IoErrorModel {
                        kind: IoErrorKind::Unsupported,
                        text: "kernel returned dm-ioctl version "@ + decimal(v[0] as nat) + "."@
                            + decimal(v[1] as nat) + "."@ + decimal(v[2] as nat)
                            + "; we require major == 4"@,
                    },
                    table_line: None,
                };
            &&& v[0] == 4 ==> version_fault(header, op) is None && plain_outcome(Ok(header), op) == Ok::<
                (),
                DmErrorModel,
            >(()) && load_outcome(rendered, Ok(header)) == Ok::<(), DmErrorModel>(())
            &&& v[0] != 4 ==> version_fault(header, op) == Some(fault(op)) && plain_outcome(
                Ok(header),
                op,
            ) == Err::<(), DmErrorModel>(fault(op)) && create_outcome(name, mode, Ok(header)) == Err::<
                DmDeviceModel,
                DmErrorModel,
            >(fault("DM_DEV_CREATE"@)) && load_outcome(rendered, Ok(header)) == Err::<
                (),
                DmErrorModel,
            >(
                DmErrorModel::DmIoctl {
                    op: "DM_TABLE_LOAD"@,
                    source: IoErrorModel {
                        kind: IoErrorKind::Unsupported,
                        text: "kernel returned dm-ioctl version major "@ + decimal(v[0] as nat)
                            + "; require 4"@,
                    },
                    table_line: Some(rendered),
                },
            )
        }),
{
}

/// An ioctl that fails is an error of its operation, with what the kernel said. Of a
/// creation that fails because the name is taken, only the name is told.
pub proof fn law_failed_ioctls_are_told(source: IoError, op: Seq<char>, name: Seq<char>, mode:
    DmCreateMode, rendered: Seq<char>)
    ensures
        plain_outcome(Err(source), op) == Err::<(), DmErrorModel>(
            DmErrorModel::DmIoctl { op, source: source@, table_line: None },
        ),
        load_outcome(rendered, Err(source)) == Err::<(), DmErrorModel>(
            DmErrorModel::DmIoctl {
                op: "DM_TABLE_LOAD"@,
                source: source@,
                table_line: Some(rendered),
            },
        ),
        source.kind == IoErrorKind::AlreadyExists || source.kind == IoErrorKind::ResourceBusy
            ==> create_outcome(name, mode, Err(source)) == Err::<DmDeviceModel, DmErrorModel>(
            DmErrorModel::NameConflict { name },
        ),
        source.kind != IoErrorKind::AlreadyExists && source.kind != IoErrorKind::ResourceBusy
            ==> create_outcome(name, mode, Err(source)) == Err::<DmDeviceModel, DmErrorModel>(
            DmErrorModel::DmIoctl { op: "DM_DEV_CREATE"@, source: source@, table_line: None },
        ),
{
}

/// The handle of a device that was created has the name and mode that were asked for, and
/// the `dev_t` of the reply; its device is to be removed with it.
pub proof fn law_created_device_is_the_replys(name: Seq<char>, mode: DmCreateMode, reply: DmHeader)
    requires
        reply.inner.version@[0] == 4,
    ensures
        create_outcome(name, mode, Ok(reply)) == Ok::<DmDeviceModel, DmErrorModel>(
            DmDeviceModel { name, remove_on_drop: true, mode, dev_t: reply.inner.dev },
        ),
{
}

/// A request speaks version 4.0.0, sets the size, flags and cookie that are given and
/// nothing else, and names the device, padded with zeroes. A name of 128 bytes or more is
/// refused, and no other.
pub proof fn law_requests_are_filled_in(
    r: Result<DmHeader, DmError>,
    name: Seq<char>,
    flags: u32,
    data_size: int,
    event_nr: u32,
)
    requires
        is_request(r, name, flags, data_size, event_nr),
    ensures
        r is Ok <==> encode_utf8(name).len() < 128,
        r is Err ==> r->Err_0@ is Usage,
        r is Ok ==> ({
            let h = r->Ok_0.inner;
            &&& h.version@[0] == 4 && h.version@[1] == 0 && h.version@[2] == 0
            &&& h.data_size == data_size && h.data_start == 312
            &&& h.flags == flags && h.event_nr == event_nr
            &&& h.target_count == 0 && h.open_count == 0 && h.padding == 0 && h.dev == 0
            &&& forall|i: int|
                0 <= i < 128 ==> (#[trigger] h.name@[i]) == (if i < encode_utf8(name).len() {
                    encode_utf8(name)[i]
                } else {
                    0u8
                })
            &&& forall|i: int| 0 <= i < 129 ==> (#[trigger] h.uuid@[i]) == 0
            &&& forall|i: int| 0 <= i < 7 ==> (#[trigger] h.data@[i]) == 0
        }),
        mode_flags(DmCreateMode::ReadOnly) == 1,
        mode_flags(DmCreateMode::ReadWrite) == 0,
{
}

/// How each request is filled in: with the device's name, its mode where it was created
/// read-only, and the cookie where it is activated.
pub proof fn law_requests_are_for_the_device(
    name: &str,
    mode: DmCreateMode,
    created: Result<DmHeader, DmError>,
    removed: Result<DmHeader, DmError>,
    device: &DmDevice,
    cookie: u32,
    resumed: Result<DmHeader, DmError>,
    built: DmHeader,
    loaded: DmHeader,
)
    requires
        call_ensures(DmDevice::create_request, (name, mode), created),
        call_ensures(remove_request, (name,), removed),
        call_ensures(DmDevice::resume_request, (device, cookie), resumed),
        call_ensures(DmDevice::load_table_request, (device, built), loaded),
    ensures
        mode == DmCreateMode::ReadOnly ==> is_request(created, name@, 1, 312, 0),
        mode == DmCreateMode::ReadWrite ==> is_request(created, name@, 0, 312, 0),
        is_request(removed, name@, 0, 312, 0),
        device@.mode == DmCreateMode::ReadOnly ==> is_request(resumed, device@.name, 1, 312, cookie),
        device@.mode == DmCreateMode::ReadWrite ==> is_request(
            resumed,
            device@.name,
            0,
            312,
            cookie,
        ),
        device@.mode == DmCreateMode::ReadOnly ==> loaded == (DmHeader {
            inner: dm_ioctl_raw { flags: built.inner.flags | 1, ..built.inner },
        }),
        device@.mode == DmCreateMode::ReadWrite ==> loaded == built,
{
}

/// What each reply comes to: success where it is one of version 4, and otherwise the error
/// of the operation that it replies to.
pub proof fn law_replies_are_taken(
    device: &DmDevice,
    reply: Result<DmHeader, IoError>,
    rendered: String,
    resumed: Result<(), DmError>,
    removed: Result<(), DmError>,
    loaded: Result<(), DmError>,
    name: &str,
    mode: DmCreateMode,
    created: Result<DmDevice, DmError>,
)
    requires
        call_ensures(DmDevice::resume, (device, reply), resumed),
        call_ensures(remove_by_name, (reply,), removed),
        call_ensures(DmDevice::load_table, (device, rendered, reply), loaded),
        call_ensures(DmDevice::create, (name, mode, reply), created),
    ensures
        ({
            let good = reply is Ok && reply->Ok_0.inner.version@[0] == 4;
            &&& resumed is Ok <==> good
            &&& removed is Ok <==> good
            &&& loaded is Ok <==> good
            &&& created is Ok <==> good
            &&& good ==> created->Ok_0@ == (DmDeviceModel {
                name: name@,
                remove_on_drop: true,
                mode,
                dev_t: reply->Ok_0.inner.dev,
            })
        }),
        outcome(resumed) == plain_outcome(reply, "DM_DEV_RESUME"@),
        outcome(removed) == plain_outcome(reply, "DM_DEV_REMOVE"@),
        outcome(loaded) == load_outcome(rendered@, reply),
        outcome_view(created) == create_outcome(name@, mode, reply),
{
}

/// A device is where the kernel said: its numbers and its node follow from its `dev_t`. To
/// forget it keeps everything but that it is to be removed.
pub proof fn law_device_is_where_the_kernel_said(
    device: DmDevice,
    major: u32,
    minor: u32,
    dev_ref: (u32, u32),
    node: String,
    name: &str,
    forgotten: DmDevice,
    removes: bool,
    error: &DmError,
    complaint: String,
)
    requires
        call_ensures(DmDevice::dev_ref, (&device,), dev_ref),
        call_ensures(DmDevice::dev_node, (&device,), node),
        call_ensures(DmDevice::name, (&device,), name),
        call_ensures(DmDevice::forget, (device,), forgotten),
        call_ensures(DmDevice::removes_on_drop, (&device,), removes),
        call_ensures(DmDevice::removal_complaint, (&device, error), complaint),
        major < 0x1000,
        minor < 0x10_0000,
        device@.dev_t & 0xffff_ffff == (minor as u64 & 0xff) | ((major as u64) << 8) | ((minor as u64
            & 0xfff00) << 12),
    ensures
        dev_ref == (major, minor),
        node@ == "/dev/dm-"@ + decimal(minor as nat),
        name@ == device@.name,
        removes == device@.remove_on_drop,
        !forgotten@.remove_on_drop,
        forgotten@.name == device@.name && forgotten@.mode == device@.mode && forgotten@.dev_t
            == device@.dev_t,
        complaint@ == "carapace: best-effort DM_DEV_REMOVE for '"@ + device@.name + "' failed: "@
            + error@.text(),
{
    law_dev_is_split_by_its_bits(device@.dev_t, major, minor);
}

/// A new header is a request that sets nothing but the name, and a reply is checked for its
/// version alone.
pub proof fn law_new_headers_are_plain_requests(
    name: &str,
    r: Result<DmHeader, DmError>,
    header: &DmHeader,
    op: &'static str,
    checked: Result<(), DmError>,
)
    requires
        call_ensures(DmHeader::new, (name,), r),
        call_ensures(check_version, (header, op), checked),
    ensures
        is_request(r, name@, 0, 312, 0),
        header.inner.version@[0] == 4 ==> checked is Ok,
        header.inner.version@[0] != 4 ==> checked is Err && checked->Err_0@ is DmIoctl
            && checked->Err_0@->op == op@ && checked->Err_0@->source.kind == IoErrorKind::Unsupported,
{
}

} // verus!
