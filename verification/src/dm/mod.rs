//! The device-mapper layer: requests to the kernel and what its replies mean.
//!
//! * [`uapi`]: mirrors of the kernel's structs and its constants.
//! * [`header`]: `DmHeader`, the fixed part of every request and reply.
//! * [`table`]: what a device maps to.
//! * [`device`]: `DmDevice`, and the decisions around each ioctl.
//! * [`listing`]: which devices there are.
//! * [`status`]: how much of a snapshot's store is in use.
//!
//! The ioctls themselves are issued by the caller, which hands the reply back. Nothing
//! here knows what a scute is.

use vstd::prelude::*;
use vstd::string::*;

pub mod device;
pub mod header;
pub mod listing;
pub mod status;
pub mod table;
pub mod uapi;

verus! {

/// What kind of failure the operating system reported, as far as a decision depends
/// on it.
#[derive(Debug, Clone, Copy, PartialEq, Eq, Structural)]
pub enum IoErrorKind {
    NotFound,
    AlreadyExists,
    ResourceBusy,
    OutOfMemory,
    Unsupported,
    Other,
}

/// A failure that the operating system reported: its kind, and its text.
#[derive(Debug, PartialEq, Eq)]
pub struct IoError {
    pub kind: IoErrorKind,
    pub text: String,
}

/// What an [`IoError`] says.
pub struct IoErrorModel {
    pub kind: IoErrorKind,
    pub text: Seq<char>,
}

impl View for IoError {
    type V = IoErrorModel;

    open spec fn view(&self) -> IoErrorModel {
        IoErrorModel { kind: self.kind, text: self.text@ }
    }
}

/// Errors from the device-mapper layer. Operational failures only: nothing here
/// judges a chain.
#[derive(Debug, PartialEq, Eq)]
pub enum DmError {
    Usage(String),
    Io(IoError),
    DmIoctl {
        op: &'static str,
        source: IoError,
        /// The table, where the failure can be put down to it (`DM_TABLE_LOAD`).
        table_line: Option<String>,
    },
    NameConflict { name: String },
}

/// What a [`DmError`] says.
pub enum DmErrorModel {
    Usage(Seq<char>),
    Io(IoErrorModel),
    DmIoctl { op: Seq<char>, source: IoErrorModel, table_line: Option<Seq<char>> },
    NameConflict { name: Seq<char> },
}

impl View for DmError {
    type V = DmErrorModel;

    open spec fn view(&self) -> DmErrorModel {
        match self {
            DmError::Usage(text) => DmErrorModel::Usage(text@),
            DmError::Io(source) => DmErrorModel::Io(source@),
            DmError::DmIoctl { op, source, table_line } => DmErrorModel::DmIoctl {
                op: op@,
                source: source@,
                table_line: match table_line {
                    Some(line) => Some(line@),
                    None => None,
                },
            },
            DmError::NameConflict { name } => DmErrorModel::NameConflict { name: name@ },
        }
    }
}

/// An outcome, with its error taken for what it says.
pub open spec fn outcome<T>(r: Result<T, DmError>) -> Result<T, DmErrorModel> {
    match r {
        Ok(t) => Ok(t),
        Err(e) => Err(e@),
    }
}

impl DmErrorModel {
    /// The text of an error, for the operator.
    pub open spec fn text(self) -> Seq<char> {
        match self {
            DmErrorModel::Usage(text) => "usage: "@ + text,
            DmErrorModel::Io(source) => "io: "@ + source.text,
            DmErrorModel::DmIoctl { op, source, table_line } => "dm ioctl "@ + op + " failed: "@
                + source.text + (match table_line {
                Some(line) => " (table: "@ + line + ")"@,
                None => Seq::empty(),
            }),
            DmErrorModel::NameConflict { name } => "dm device name conflict: /dev/mapper/"@ + name
                + " already exists"@,
        }
    }
}

impl DmError {
    /// The text of the error, for the operator.
    pub fn message(&self) -> (r: String)
        ensures
            r@ == self@.text(),
    {
        match self {
            DmError::Usage(text) => {
                let mut out = "usage: ".to_string();
                out.append(text);
                out
            },
            DmError::Io(source) => {
                let mut out = "io: ".to_string();
                out.append(&source.text);
                out
            },
            DmError::DmIoctl { op, source, table_line } => {
                let mut out = "dm ioctl ".to_string();
                out.append(op);
                out.append(" failed: ");
                out.append(&source.text);
                match table_line {
                    Some(line) => {
                        let mut table = " (table: ".to_string();
                        table.append(line);
                        table.append(")");
                        out.append(&table);
                    },
                    None => {
                        assert(out@ =~= out@ + Seq::<char>::empty());
                    },
                }
                out
            },
            DmError::NameConflict { name } => {
                let mut out = "dm device name conflict: /dev/mapper/".to_string();
                out.append(name);
                out.append(" already exists");
                out
            },
        }
    }
}


/// How each error reads: what kind it is, and all that it carries.
pub proof fn law_errors_show_what_they_carry(
    text: Seq<char>,
    source: IoErrorModel,
    op: Seq<char>,
    table: Seq<char>,
)
    ensures
        DmErrorModel::Usage(text).text() == "usage: "@ + text,
        DmErrorModel::Io(source).text() == "io: "@ + source.text,
        (DmErrorModel::NameConflict { name: text }).text() == "dm device name conflict: /dev/mapper/"@
            + text + " already exists"@,
        (DmErrorModel::DmIoctl { op, source, table_line: None }).text() == "dm ioctl "@ + op
            + " failed: "@ + source.text,
        (DmErrorModel::DmIoctl { op, source, table_line: Some(table) }).text() == "dm ioctl "@ + op
            + " failed: "@ + source.text + " (table: "@ + table + ")"@,
{
    let start = "dm ioctl "@ + op + " failed: "@ + source.text;
    assert(start + Seq::<char>::empty() =~= start);
    assert(start + (" (table: "@ + table + ")"@) =~= start + " (table: "@ + table + ")"@);
}

/// The message of an error shows all that it carries.
pub proof fn law_messages_show_what_errors_carry(e: &DmError, r: String)
    requires
        call_ensures(DmError::message, (e,), r),
    ensures
        *e is Usage ==> r@ == "usage: "@ + e->Usage_0@,
        *e is Io ==> r@ == "io: "@ + e->Io_0.text@,
        *e is NameConflict ==> r@ == "dm device name conflict: /dev/mapper/"@ + e->name@
            + " already exists"@,
        *e is DmIoctl && e->table_line is None ==> r@ == "dm ioctl "@ + e->op@ + " failed: "@
            + e->source.text@,
        *e is DmIoctl && e->table_line is Some ==> r@ == "dm ioctl "@ + e->op@ + " failed: "@
            + e->source.text@ + " (table: "@ + e->table_line->0@ + ")"@,
        *e is Io ==> e@ is Io && e@->Io_0.kind == e->Io_0.kind,
        *e is DmIoctl ==> e@ is DmIoctl && e@->source.kind == e->source.kind,
{
    match e {
        DmError::DmIoctl { op, source, table_line } => {
            law_errors_show_what_they_carry(
                source.text@,
                source@,
                op@,
                match table_line {
                    Some(line) => line@,
                    None => Seq::empty(),
                },
            );
        },
        _ => {},
    }
}

} // verus!
