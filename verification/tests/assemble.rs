use carapace::assemble::{assemble_read_stack, Action, Assembly, Scute, ZERO_COUNT_SECTORS};
use carapace::dm::device::DmCreateMode;
use carapace::dm::header::DmHeader;
use carapace::dm::listing::belongs_to;
use carapace::dm::table::{DmTable, TableLine, TargetSpec};
use carapace::dm::{DmError, IoError, IoErrorKind};
use carapace::error::CarapaceError;

fn scute(n: u32) -> Scute {
    Scute {
        cow: (8, n),
        verity: (9, n),
        algorithm: "sha256".to_string(),
        data_blocks: 100 + n as u64,
        salt: vec![n as u8; 2],
        root: vec![0xaa, n as u8],
    }
}

fn failure(kind: IoErrorKind) -> IoError {
    IoError { kind, text: "no".to_string() }
}

fn created(minor: u64) -> DmHeader {
    let mut header = DmHeader::new("x").unwrap();
    header.inner.dev = (253 << 8) | minor;
    header
}

fn ok() -> DmHeader {
    DmHeader::new("x").unwrap()
}

/// Plays the kernel: every step succeeds, and the created devices get minor numbers
/// from 0 on.
fn step(assembly: &mut Assembly, minor: &mut u64, log: &mut Vec<Action>) -> bool {
    let action = assembly.next();
    match &action {
        Action::Create { .. } => {
            assembly.created(Ok(created(*minor)));
            *minor += 1;
        }
        Action::Load { .. } => assembly.loaded("table".to_string(), Ok(ok())),
        Action::Resume { .. } => assembly.resumed(Ok(ok())),
        Action::Check { .. } => assembly.checked(Ok(())),
        Action::Unlink { .. } => assembly.unlinked(Err(failure(IoErrorKind::NotFound))),
        Action::Link { .. } => assembly.linked(Ok(())),
        Action::Remove { .. } => assembly.removed(),
        Action::Nothing => return false,
    }
    log.push(action);
    true
}

fn line(length: u64, target: TargetSpec) -> Action {
    Action::Load { table: DmTable { lines: vec![TableLine { start: 0, length, target }] } }
}

fn create(name: &str, mode: DmCreateMode) -> Action {
    Action::Create { name: name.to_string(), mode }
}

fn verity(n: u32) -> TargetSpec {
    TargetSpec::Verity {
        data: (8, n),
        hash: (9, n),
        algorithm: "sha256".to_string(),
        data_blocks: 100 + n as u64,
        salt: vec![n as u8; 2],
        root: vec![0xaa, n as u8],
    }
}

fn snapshot(origin: u32, cow: u32) -> TargetSpec {
    TargetSpec::Snapshot { origin: (253, origin), cow: (253, cow), chunk_size_sectors: 8 }
}

#[test]
fn a_stack_is_built_from_the_bottom() {
    let mut assembly = assemble_read_stack("root", vec![scute(0), scute(1)]);
    let mut log = Vec::new();
    let mut minor = 0;
    while step(&mut assembly, &mut minor, &mut log) {}
    let internal = || Action::Resume { udev_cookie: 0 };
    let check = |node: &str, scute: usize| Action::Check { node: node.to_string(), scute };
    assert_eq!(
        log,
        vec![
            create("root-z0", DmCreateMode::ReadWrite),
            line(ZERO_COUNT_SECTORS, TargetSpec::Zero),
            internal(),
            create("root-v0", DmCreateMode::ReadOnly),
            line(800, verity(0)),
            internal(),
            check("/dev/dm-1", 0),
            create("root-s0", DmCreateMode::ReadOnly),
            line(ZERO_COUNT_SECTORS, snapshot(0, 1)),
            internal(),
            create("root-v1", DmCreateMode::ReadOnly),
            line(808, verity(1)),
            internal(),
            check("/dev/dm-3", 1),
            create("root-s1", DmCreateMode::ReadOnly),
            line(ZERO_COUNT_SECTORS, snapshot(2, 3)),
            internal(),
            create("root", DmCreateMode::ReadOnly),
            line(ZERO_COUNT_SECTORS, TargetSpec::Linear { device: (253, 4), offset_sectors: 0 }),
            Action::Resume { udev_cookie: 0x0040_0000 },
            Action::Unlink { path: "/dev/mapper/root".to_string() },
            Action::Link { path: "/dev/mapper/root".to_string(), target: "../dm-5".to_string() },
        ]
    );
    assert_eq!(ZERO_COUNT_SECTORS, 64 * 1024 * 1024 * 1024 / 512);
    assert!(!assembly.device().removes_on_drop());
    assert_eq!(assembly.finish(), Some(Ok("/dev/mapper/root".to_string())));
}

#[test]
fn the_stack_of_an_empty_chain_is_the_zero_device() {
    let mut assembly = assemble_read_stack("e", vec![]);
    let mut log = Vec::new();
    let mut minor = 7;
    while step(&mut assembly, &mut minor, &mut log) {}
    assert_eq!(log[3], create("e", DmCreateMode::ReadOnly));
    assert_eq!(
        log[4],
        line(ZERO_COUNT_SECTORS, TargetSpec::Linear { device: (253, 7), offset_sectors: 0 })
    );
    assert_eq!(assembly.finish(), Some(Ok("/dev/mapper/e".to_string())));
}

#[test]
fn every_layer_belongs_to_its_stack_under_a_name_of_its_own() {
    let mut assembly = assemble_read_stack("vault", (0..12).map(scute).collect());
    let mut log = Vec::new();
    let mut minor = 0;
    while step(&mut assembly, &mut minor, &mut log) {}
    let mut names: Vec<String> = Vec::new();
    for action in log {
        if let Action::Create { name, .. } = action {
            assert!(belongs_to(&name, "vault"));
            assert!(!names.contains(&name));
            names.push(name);
        }
    }
    assert_eq!(names.len(), 26);
    assert_eq!(names[24], "vault-s11");
}

/// Fails the step number `n`, and gives the names that are removed then, and the
/// names that had been created.
fn fail_at(n: usize, scutes: usize) -> Option<(Vec<String>, Vec<String>, CarapaceError)> {
    let mut assembly = assemble_read_stack("r", (0..scutes as u32).map(scute).collect());
    let mut log = Vec::new();
    let mut minor = 0;
    let mut made = Vec::new();
    for _ in 0..n {
        if !step(&mut assembly, &mut minor, &mut log) {
            return None;
        }
    }
    for action in &log {
        if let Action::Create { name, .. } = action {
            made.push(name.clone());
        }
    }
    let io = || Err(failure(IoErrorKind::Other));
    match assembly.next() {
        Action::Create { .. } => assembly.created(Err(failure(IoErrorKind::AlreadyExists))),
        Action::Load { .. } => assembly.loaded("table".to_string(), Err(failure(IoErrorKind::Other))),
        Action::Resume { .. } => assembly.resumed(Err(failure(IoErrorKind::Other))),
        Action::Check { .. } => assembly.checked(Err(CarapaceError::Rejected("magic".to_string()))),
        Action::Unlink { .. } => assembly.unlinked(io()),
        Action::Link { .. } => assembly.linked(io()),
        _ => return None,
    }
    let mut removed = Vec::new();
    while let Action::Remove { name } = assembly.next() {
        removed.push(name);
        assembly.removed();
    }
    assert_eq!(assembly.next(), Action::Nothing);
    match assembly.finish() {
        Some(Err(e)) => Some((removed, made, e)),
        other => panic!("{:?}", other),
    }
}

#[test]
fn a_failure_anywhere_tears_the_stack_down_in_reverse() {
    let mut n = 0;
    while let Some((removed, mut made, _)) = fail_at(n, 2) {
        made.reverse();
        assert_eq!(removed, made);
        n += 1;
    }
    assert_eq!(n, 22);
}

#[test]
fn a_failure_ends_with_its_own_error() {
    let dm = |op| DmError::DmIoctl { op, source: failure(IoErrorKind::Other), table_line: None };
    assert_eq!(
        fail_at(0, 1).unwrap().2,
        CarapaceError::Dm(DmError::NameConflict { name: "r-z0".to_string() })
    );
    assert_eq!(
        fail_at(1, 1).unwrap().2,
        CarapaceError::Dm(DmError::DmIoctl {
            op: "DM_TABLE_LOAD",
            source: failure(IoErrorKind::Other),
            table_line: Some("table".to_string()),
        })
    );
    assert_eq!(fail_at(2, 1).unwrap().2, CarapaceError::Dm(dm("DM_DEV_RESUME")));
    assert_eq!(fail_at(6, 1).unwrap().2, CarapaceError::Rejected("magic".to_string()));
    assert_eq!(fail_at(13, 1).unwrap().2, CarapaceError::Io(failure(IoErrorKind::Other)));
    assert_eq!(fail_at(14, 1).unwrap().2, CarapaceError::Io(failure(IoErrorKind::Other)));
}

#[test]
fn a_step_that_cannot_be_carried_out_tears_the_stack_down() {
    let mut assembly = assemble_read_stack("r", vec![]);
    assembly.failed(CarapaceError::Io(failure(IoErrorKind::Other)));
    assert_eq!(assembly.finish(), Some(Err(CarapaceError::Io(failure(IoErrorKind::Other)))));

    let mut assembly = assemble_read_stack("r", vec![]);
    assembly.created(Ok(created(3)));
    assembly.failed(CarapaceError::Usage("x".to_string()));
    assert_eq!(assembly.next(), Action::Remove { name: "r-z0".to_string() });
    assembly.removed();
    assert_eq!(assembly.finish(), Some(Err(CarapaceError::Usage("x".to_string()))));
}

#[test]
fn an_assembly_under_way_has_not_ended() {
    let mut assembly = assemble_read_stack("r", vec![scute(0)]);
    assembly.created(Ok(created(0)));
    assert!(assembly.device().removes_on_drop());
    assert_eq!(assembly.finish(), None);
}

#[test]
fn an_old_link_is_replaced() {
    let mut assembly = assemble_read_stack("r", vec![]);
    let mut log = Vec::new();
    let mut minor = 0;
    while !matches!(assembly.next(), Action::Unlink { .. }) {
        step(&mut assembly, &mut minor, &mut log);
    }
    assembly.unlinked(Ok(()));
    assert!(matches!(assembly.next(), Action::Link { .. }));
}
