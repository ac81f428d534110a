//! What a device maps to: a table of lines, each a run of sectors with a target.

use vstd::prelude::*;

verus! {

/// A device, as `(major, minor)`.
pub type DevRef = (u32, u32);

/// What a run of sectors reads from.
#[derive(Debug, PartialEq, Eq)]
pub enum TargetSpec {
    /// Zeroes.
    Zero,
    /// The sectors of `device` from `offset_sectors` on.
    Linear { device: DevRef, offset_sectors: u64 },
    /// The blocks of `data`, each checked against the hash tree in `hash`, whose root
    /// is `root`.
    Verity {
        data: DevRef,
        hash: DevRef,
        algorithm: String,
        data_blocks: u64,
        salt: Vec<u8>,
        root: Vec<u8>,
    },
    /// `origin`, with the chunks that `cow` holds in place of its own.
    Snapshot { origin: DevRef, cow: DevRef, chunk_size_sectors: u64 },
}

/// A run of sectors and its target.
#[derive(Debug, PartialEq, Eq)]
pub struct TableLine {
    pub start: u64,
    pub length: u64,
    pub target: TargetSpec,
}

/// The table of a device.
#[derive(Debug, PartialEq, Eq)]
pub struct DmTable {
    pub lines: Vec<TableLine>,
}

/// What a [`TargetSpec`] says.
pub enum TargetModel {
    Zero,
    Linear { device: DevRef, offset_sectors: u64 },
    Verity {
        data: DevRef,
        hash: DevRef,
        algorithm: Seq<char>,
        data_blocks: u64,
        salt: Seq<u8>,
        root: Seq<u8>,
    },
    Snapshot { origin: DevRef, cow: DevRef, chunk_size_sectors: u64 },
}

/// What a [`TableLine`] says.
pub struct LineModel {
    pub start: u64,
    pub length: u64,
    pub target: TargetModel,
}

impl View for TargetSpec {
    type V = TargetModel;

    open spec fn view(&self) -> TargetModel {
        match self {
            TargetSpec::Zero => TargetModel::Zero,
            TargetSpec::Linear { device, offset_sectors } => TargetModel::Linear {
                device: *device,
                offset_sectors: *offset_sectors,
            },
            TargetSpec::Verity { data, hash, algorithm, data_blocks, salt, root } => {
                TargetModel::Verity {
                    data: *data,
                    hash: *hash,
                    algorithm: algorithm@,
                    data_blocks: *data_blocks,
                    salt: salt@,
                    root: root@,
                }
            },
            TargetSpec::Snapshot { origin, cow, chunk_size_sectors } => TargetModel::Snapshot {
                origin: *origin,
                cow: *cow,
                chunk_size_sectors: *chunk_size_sectors,
            },
        }
    }
}

impl View for TableLine {
    type V = LineModel;

    open spec fn view(&self) -> LineModel {
        LineModel { start: self.start, length: self.length, target: self.target@ }
    }
}

impl View for DmTable {
    type V = Seq<LineModel>;

    open spec fn view(&self) -> Seq<LineModel> {
        self.lines@.map_values(|line: TableLine| line@)
    }
}

/// A table says what its lines hold, in order.
pub proof fn law_tables_say_what_they_hold(
    table: DmTable,
    k: int,
    start: u64,
    length: u64,
    a: DevRef,
    b: DevRef,
    n: u64,
    algorithm: String,
    salt: Vec<u8>,
    root: Vec<u8>,
)
    ensures
        table@.len() == table.lines@.len(),
        0 <= k < table.lines@.len() ==> table@[k].start == table.lines@[k].start && table@[k].length
            == table.lines@[k].length && table@[k].target == table.lines@[k].target@,
        TargetSpec::Zero@ == TargetModel::Zero,
        (TargetSpec::Linear { device: a, offset_sectors: n })@ == (TargetModel::Linear {
            device: a,
            offset_sectors: n,
        }),
        (TargetSpec::Snapshot { origin: a, cow: b, chunk_size_sectors: n })@ == (
        TargetModel::Snapshot { origin: a, cow: b, chunk_size_sectors: n }),
        (TargetSpec::Verity { data: a, hash: b, algorithm, data_blocks: n, salt, root })@ == (
        TargetModel::Verity {
            data: a,
            hash: b,
            algorithm: algorithm@,
            data_blocks: n,
            salt: salt@,
            root: root@,
        }),
{
}

} // verus!
