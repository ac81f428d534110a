use carapace::bytes::ByteOrder;
use carapace::dm::device::{
    check_version, remove_by_name, remove_request, split_dev, DmCreateMode, DmDevice, DM_UDEV_PRIMARY_SOURCE_COOKIE,
    LIST_PAYLOAD_CAP, STATUS_INITIAL_CAP, STATUS_MAX_CAP,
};
use carapace::dm::header::DmHeader;
use carapace::dm::listing::{belongs_to, list_devices_with_prefix, list_request};
use carapace::dm::status::{parse_snapshot_status, parse_snapshot_status_line, StatusStep};
use carapace::dm::uapi::dm_ioctl_raw;
use carapace::dm::{DmError, IoError, IoErrorKind};
use carapace::text::{decimal_text, white_space};

fn failure(kind: IoErrorKind) -> IoError {
    IoError { kind, text: "no".to_string() }
}

fn reply() -> DmHeader {
    DmHeader::new("x").unwrap()
}

fn old_reply() -> DmHeader {
    let mut header = reply();
    header.inner.version = [3, 7, 10];
    header
}

fn device(mode: DmCreateMode) -> DmDevice {
    let mut header = reply();
    header.inner.dev = dev(253, 0x12345);
    DmDevice::create("root", mode, Ok(header)).unwrap()
}

fn dev(major: u64, minor: u64) -> u64 {
    (minor & 0xff) | (major << 8) | ((minor & 0xfff00) << 12)
}

fn usage<T>(text: &str) -> Result<T, DmError> {
    Err(DmError::Usage(text.to_string()))
}

fn ioctl<T>(op: &'static str, kind: IoErrorKind, text: &str) -> Result<T, DmError> {
    Err(DmError::DmIoctl { op, source: IoError { kind, text: text.to_string() }, table_line: None })
}

#[test]
fn split_dev_decomposes_kernel_encoding() {
    let major_in = 253u32;
    let minor_in = 15u32;
    let dev = (minor_in & 0xFF) | ((major_in & 0xFFF) << 8) | ((minor_in & 0xFFF00) << 12);
    let (m, n) = split_dev(dev as u64);
    assert_eq!(m, major_in);
    assert_eq!(n, minor_in);
}

#[test]
fn split_dev_inverts_the_encoding() {
    for (major, minor) in [(0, 0), (1, 0x100), (0xfff, 0xfffff), (253, 0xabcde), (7, 0xff)] {
        assert_eq!(split_dev(dev(major, minor)), (major as u32, minor as u32));
    }
    assert_eq!(split_dev(0xffff_ffff_0000_fd00), (253, 0));
}

#[test]
fn parse_snapshot_status_line_extracts_allocated_total() {
    assert_eq!(parse_snapshot_status_line("16/40960 8").unwrap(), (16, 40960));
}

#[test]
fn parse_snapshot_status_line_ignores_trailing_metadata() {
    assert_eq!(parse_snapshot_status_line("1024/2097152 256").unwrap(), (1024, 2_097_152));
}

#[test]
fn parse_snapshot_status_line_rejects_invalid() {
    assert!(matches!(parse_snapshot_status_line("Invalid"), Err(DmError::Usage(_))));
    assert_eq!(
        parse_snapshot_status_line(" Invalid\n"),
        usage("dm-snapshot status is 'Invalid' (snapshot is not usable)")
    );
}

#[test]
fn parse_snapshot_status_line_rejects_overflow() {
    assert!(matches!(parse_snapshot_status_line("Overflow"), Err(DmError::Usage(_))));
    assert_eq!(
        parse_snapshot_status_line("Overflow"),
        usage("dm-snapshot status is 'Overflow' (snapshot is not usable)")
    );
}

#[test]
fn parse_snapshot_status_line_rejects_non_snapshot() {
    assert!(matches!(parse_snapshot_status_line("0 2048 linear"), Err(DmError::Usage(_))));
    assert_eq!(
        parse_snapshot_status_line("0 2048 linear"),
        usage("dm-snapshot status token \"0\" is not '<allocated>/<total>' (device may not be a snapshot)")
    );
}

#[test]
fn parse_snapshot_status_line_says_what_is_wrong() {
    assert_eq!(parse_snapshot_status_line(" \t"), usage("dm-snapshot status line is empty: \" \\t\""));
    assert_eq!(
        parse_snapshot_status_line("x/5 1"),
        usage("dm-snapshot allocated sectors not an integer: \"x\"")
    );
    assert_eq!(parse_snapshot_status_line("5/ 1"), usage("dm-snapshot total sectors not an integer: \"\""));
    assert_eq!(parse_snapshot_status_line("1/2/3"), usage("dm-snapshot total sectors not an integer: \"2/3\""));
    assert_eq!(
        parse_snapshot_status_line("18446744073709551616/1"),
        usage("dm-snapshot allocated sectors not an integer: \"18446744073709551616\"")
    );
}

#[test]
fn numbers_are_read_as_rust_reads_them() {
    let texts = ["0", "+7", "-7", "+", "", "007", "18446744073709551615", "18446744073709551616", "1 ", "٣", "+-1", "++1"];
    for text in texts {
        let line = format!("{text}/1");
        let expected = if text.trim() == text { text.parse::<u64>().ok() } else { None };
        assert_eq!(parse_snapshot_status_line(&line).ok().map(|r| r.0), expected, "{}", text);
    }
}

#[test]
fn usage_reads_back() {
    for (a, t) in [(0, 0), (1, 2), (u64::MAX, u64::MAX), (90, 1000)] {
        for (lead, behind) in [("", " 16"), ("", ""), (" \t", "\n"), ("\u{3000}\n", " \t 16 17"), ("", "\u{a0}x/y")] {
            let line = format!("{lead}{a}/{t}{behind}");
            assert_eq!(parse_snapshot_status_line(&line), Ok((a, t)));
        }
    }
}

#[test]
fn parse_snapshot_status_zero_targets_errors() {
    assert!(matches!(parse_snapshot_status(&[0u8; 64], 0, 0, 64), Err(DmError::Usage(_))));
    assert_eq!(
        parse_snapshot_status(&[0u8; 64], 0, 0, 64),
        usage("DM_TABLE_STATUS returned no targets (device has no live table)")
    );
}

#[test]
fn parse_snapshot_status_steps_over_the_target() {
    let mut bytes = vec![0xffu8; 40];
    bytes.extend_from_slice(b"16/32 8\0\xff\xff");
    let end = bytes.len();
    assert_eq!(parse_snapshot_status(&bytes, 1, 0, end), Ok((16, 32)));
    assert_eq!(parse_snapshot_status(&bytes, 1, 0, 45), Ok((16, 32)));
    assert_eq!(
        parse_snapshot_status(&bytes, 1, 1, 40),
        usage("DM_TABLE_STATUS reply truncated before status string")
    );
    assert_eq!(
        parse_snapshot_status(&bytes, 1, usize::MAX, 40),
        usage("DM_TABLE_STATUS reply truncated before status string")
    );
    assert_eq!(parse_snapshot_status(&bytes, 1, 0, 40), usage("dm-snapshot status line is empty: \"\""));
    bytes[41] = 0xff;
    assert_eq!(
        parse_snapshot_status(&bytes, 1, 0, end),
        usage("DM_TABLE_STATUS status string is not UTF-8")
    );
}

#[test]
fn requests_name_the_device() {
    let header = DmDevice::create_request("root", DmCreateMode::ReadOnly).unwrap();
    assert_eq!(header.inner.version, [4, 0, 0]);
    assert_eq!(header.inner.data_size, 312);
    assert_eq!(header.inner.data_start, 312);
    assert_eq!(header.inner.flags, 1);
    assert_eq!(header.inner.event_nr, 0);
    assert_eq!(&header.inner.name[..5], b"root\0");
    assert_eq!(header.inner.name[5..], [0u8; 123]);
    assert_eq!(DmDevice::create_request("root", DmCreateMode::ReadWrite).unwrap().inner.flags, 0);
    assert_eq!(remove_request("root").unwrap().inner.flags, 0);
    assert_eq!(core::mem::size_of::<dm_ioctl_raw>(), 312);
}

#[test]
fn a_name_that_does_not_fit_is_refused() {
    assert!(DmHeader::new(&"a".repeat(127)).is_ok());
    let long = "a".repeat(128);
    assert_eq!(
        DmHeader::new(&long).err(),
        Some(DmError::Usage(format!("dm device name is longer than 127 bytes: {long:?}")))
    );
    assert!(DmHeader::new(&"é".repeat(64)).is_err());
}

#[test]
fn create_tells_a_taken_name_apart() {
    for kind in [IoErrorKind::AlreadyExists, IoErrorKind::ResourceBusy] {
        let r = DmDevice::create("root", DmCreateMode::ReadOnly, Err(failure(kind)));
        assert_eq!(r.err(), Some(DmError::NameConflict { name: "root".to_string() }));
    }
    let r = DmDevice::create("root", DmCreateMode::ReadOnly, Err(failure(IoErrorKind::Other)));
    assert_eq!(r.map(|_| ()), ioctl("DM_DEV_CREATE", IoErrorKind::Other, "no"));
    let r = DmDevice::create("root", DmCreateMode::ReadOnly, Ok(old_reply()));
    assert_eq!(
        r.map(|_| ()),
        ioctl(
            "DM_DEV_CREATE",
            IoErrorKind::Unsupported,
            "kernel returned dm-ioctl version 3.7.10; we require major == 4"
        )
    );
}

#[test]
fn a_device_knows_where_it_is() {
    let device = device(DmCreateMode::ReadOnly);
    assert_eq!(device.name(), "root");
    assert_eq!(device.dev_ref(), (253, 0x12345));
    assert_eq!(device.dev_node(), "/dev/dm-74565");
    assert!(device.removes_on_drop());
    assert!(!device.forget().removes_on_drop());
}

#[test]
fn load_replays_the_mode() {
    let mut built = reply();
    built.inner.flags = 4;
    assert_eq!(device(DmCreateMode::ReadOnly).load_table_request(built).inner.flags, 5);
    assert_eq!(device(DmCreateMode::ReadWrite).load_table_request(built).inner.flags, 4);
}

#[test]
fn a_failed_load_shows_the_table() {
    let device = device(DmCreateMode::ReadOnly);
    assert_eq!(device.load_table("0 8 zero".to_string(), Ok(reply())), Ok(()));
    let failed = device.load_table("0 8 zero".to_string(), Err(failure(IoErrorKind::Other))).unwrap_err();
    assert_eq!(failed.message(), "dm ioctl DM_TABLE_LOAD failed: no (table: 0 8 zero)");
    let old = device.load_table("0 8 zero".to_string(), Ok(old_reply())).unwrap_err();
    assert_eq!(
        old.message(),
        "dm ioctl DM_TABLE_LOAD failed: kernel returned dm-ioctl version major 3; require 4 (table: 0 8 zero)"
    );
}

#[test]
fn resume_carries_the_cookie() {
    let device = device(DmCreateMode::ReadOnly);
    let header = device.resume_request(DM_UDEV_PRIMARY_SOURCE_COOKIE).unwrap();
    assert_eq!(header.inner.event_nr, 0x0040_0000);
    assert_eq!(header.inner.flags, 1);
    assert_eq!(device.resume(Ok(reply())), Ok(()));
    assert_eq!(device.resume(Err(failure(IoErrorKind::Other))), ioctl("DM_DEV_RESUME", IoErrorKind::Other, "no"));
    assert!(device.resume(Ok(old_reply())).is_err());
}

#[test]
fn suspend_is_set_and_cleared() {
    let mut header = reply();
    header.set_suspend(true);
    assert_eq!(header.inner.flags, 2);
    header.add_readonly();
    header.set_suspend(false);
    assert_eq!(header.inner.flags, 1);
}

#[test]
fn remove_reports_what_the_kernel_says() {
    assert_eq!(remove_by_name(Ok(reply())), Ok(()));
    assert_eq!(remove_by_name(Err(failure(IoErrorKind::NotFound))), ioctl("DM_DEV_REMOVE", IoErrorKind::NotFound, "no"));
    assert_eq!(check_version(&reply(), "X"), Ok(()));
    assert!(check_version(&old_reply(), "X").is_err());
}

#[test]
fn errors_read_well() {
    let io = || failure(IoErrorKind::Other);
    assert_eq!(DmError::Usage("u".to_string()).message(), "usage: u");
    assert_eq!(DmError::Io(io()).message(), "io: no");
    assert_eq!(
        DmError::DmIoctl { op: "X", source: io(), table_line: None }.message(),
        "dm ioctl X failed: no"
    );
    let conflict = DmError::NameConflict { name: "root".to_string() };
    assert_eq!(conflict.message(), "dm device name conflict: /dev/mapper/root already exists");
    assert_eq!(
        device(DmCreateMode::ReadOnly).removal_complaint(&conflict),
        "carapace: best-effort DM_DEV_REMOVE for 'root' failed: \
         dm device name conflict: /dev/mapper/root already exists"
    );
}

#[test]
fn status_grows_its_buffer_up_to_a_limit() {
    let device = device(DmCreateMode::ReadOnly);
    let mut full = reply();
    full.inner.flags = 256;
    let mut cap = STATUS_INITIAL_CAP;
    let mut caps = Vec::new();
    loop {
        caps.push(cap);
        assert_eq!(device.status_request(cap).unwrap().inner.data_size as usize, 312 + cap);
        match device.snapshot_allocated(cap, Ok(full), &[]) {
            Ok(StatusStep::Again(larger)) => cap = larger,
            Ok(StatusStep::Usage(..)) => panic!("usage"),
            Err(e) => {
                assert_eq!(
                    e.message(),
                    "dm ioctl DM_TABLE_STATUS failed: snapshot status exceeded 262144-byte buffer"
                );
                break;
            }
        }
    }
    assert_eq!(caps, vec![4096, 8192, 16384, 32768, 65536, 131072, 262144]);
    assert_eq!(cap, STATUS_MAX_CAP);
}

#[test]
fn status_reads_the_first_target() {
    let device = device(DmCreateMode::ReadOnly);
    let mut bytes = vec![0u8; 312 + 40];
    bytes.extend_from_slice(b"16/32 8\0");
    let mut header = reply();
    header.inner.target_count = 1;
    header.inner.data_size = 5000;
    assert_eq!(device.snapshot_allocated(4096, Ok(header), &bytes), Ok(StatusStep::Usage(16, 32)));
    header.inner.data_size = 320;
    assert!(device.snapshot_allocated(4096, Ok(header), &bytes).is_err());
    assert_eq!(
        device.snapshot_allocated(4096, Err(failure(IoErrorKind::Other)), &bytes),
        ioctl("DM_TABLE_STATUS", IoErrorKind::Other, "no")
    );
    assert!(device.snapshot_allocated(4096, Ok(old_reply()), &bytes).is_err());
}

fn listing(names: &[&[u8]], big: bool) -> Vec<u8> {
    let mut bytes = vec![0u8; 312];
    for (i, name) in names.iter().enumerate() {
        let mut record = vec![0u8; 8];
        let size = (12 + name.len() + 1).next_multiple_of(8);
        let next = if i + 1 == names.len() { 0 } else { size as u32 };
        let next_bytes = if big { next.to_be_bytes() } else { next.to_le_bytes() };
        record.extend_from_slice(&next_bytes);
        record.extend_from_slice(name);
        record.resize(size, 0);
        bytes.extend_from_slice(&record);
    }
    bytes
}

fn listed(base: &str, bytes: &[u8], order: ByteOrder) -> Vec<String> {
    let mut header = list_request().unwrap();
    header.inner.data_size = bytes.len() as u32;
    list_devices_with_prefix(base, order, Ok(header), bytes).unwrap()
}

#[test]
fn a_listing_takes_the_stack_and_nothing_else() {
    let names: [&[u8]; 8] =
        [b"vault", b"vaultkeeper", b"vault-z0", b"vaul", b"other", b"vault-\xff", b"vault-", b"xvault"];
    for big in [false, true] {
        let order = if big { ByteOrder::Big } else { ByteOrder::Little };
        let bytes = listing(&names, big);
        assert_eq!(listed("vault", &bytes, order), vec!["vault", "vault-z0", "vault-"]);
        assert_eq!(listed("other", &bytes, order), vec!["other"]);
        assert!(listed("none", &bytes, order).is_empty());
    }
}

#[test]
fn a_listing_can_be_empty_or_cut_short() {
    assert!(listed("a", &[0u8; 312], ByteOrder::Little).is_empty());
    let mut bytes = listing(&[b"a", b"a-1"], false);
    assert_eq!(listed("a", &bytes, ByteOrder::Little), vec!["a", "a-1"]);
    bytes.truncate(312 + 16 + 15);
    assert_eq!(listed("a", &bytes, ByteOrder::Little), vec!["a", "a-1"]);
    bytes.truncate(312 + 16 + 11);
    assert_eq!(listed("a", &bytes, ByteOrder::Little), vec!["a"]);
    let mut looping = listing(&[b"a", b"a-1"], false);
    looping[312 + 8] = 4;
    assert_eq!(listed("a", &looping, ByteOrder::Little), vec!["a"]);
    looping[312 + 8..312 + 12].copy_from_slice(&[0xff; 4]);
    assert_eq!(listed("a", &looping, ByteOrder::Little), vec!["a"]);
}

#[test]
fn a_listing_that_did_not_fit_is_an_error() {
    let mut header = list_request().unwrap();
    assert_eq!(header.inner.data_size as usize, 312 + LIST_PAYLOAD_CAP);
    header.inner.flags = 256;
    assert_eq!(
        list_devices_with_prefix("a", ByteOrder::Little, Ok(header), &[]),
        ioctl("DM_LIST_DEVICES", IoErrorKind::OutOfMemory, "kernel reply exceeded 65536-byte buffer")
    );
    assert_eq!(
        list_devices_with_prefix("a", ByteOrder::Little, Err(failure(IoErrorKind::Other)), &[]),
        ioctl("DM_LIST_DEVICES", IoErrorKind::Other, "no")
    );
    assert!(list_devices_with_prefix("a", ByteOrder::Little, Ok(old_reply()), &[]).is_err());
}

#[test]
fn longer_names_do_not_belong() {
    assert!(belongs_to("vault", "vault"));
    assert!(belongs_to("vault-s12", "vault"));
    assert!(!belongs_to("vaultkeeper", "vault"));
    assert!(!belongs_to("vaul", "vault"));
    assert!(belongs_to("é-1", "é"));
}

#[test]
fn the_byte_order_is_the_machines() {
    let order = ByteOrder::of_probe(u16::from_ne_bytes([1, 0]));
    let expected = if u32::from_ne_bytes([1, 0, 0, 0]) == 1 { ByteOrder::Little } else { ByteOrder::Big };
    assert_eq!(order, expected);
    assert_eq!(ByteOrder::of_probe(256), ByteOrder::Big);
}

#[test]
fn white_space_is_that_of_unicode() {
    for n in 0..=0x10ffffu32 {
        if let Some(c) = char::from_u32(n) {
            assert_eq!(white_space(c), c.is_whitespace(), "{}", n);
        }
    }
}

#[test]
fn decimals_are_written_as_rust_writes_them() {
    for n in [0, 9, 10, 99, 100, 4096, u64::MAX] {
        assert_eq!(decimal_text(n), n.to_string());
    }
}

#[test]
fn the_name_in_a_request_reads_back() {
    for name in ["", "root", "vault-s11", "é"] {
        let header = DmHeader::new(name).unwrap();
        let end = header.inner.name.iter().position(|b| *b == 0).unwrap();
        assert_eq!(&header.inner.name[..end], name.as_bytes());
    }
}
