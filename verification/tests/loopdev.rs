use carapace::dm::{DmError, IoError, IoErrorKind};
use carapace::loopdev::{
    loop_config_raw, loop_info64_raw, AttachAction, LoopAttach, LoopConfig, LoopDevice, LOOP_BLOCK_SIZE,
};

fn failure() -> IoError {
    IoError { kind: IoErrorKind::Other, text: "no".to_string() }
}

#[test]
fn sizeof_loop_info64_raw() {
    assert_eq!(core::mem::size_of::<loop_info64_raw>(), 232);
}

#[test]
fn sizeof_loop_config_raw() {
    assert_eq!(core::mem::size_of::<loop_config_raw>(), 304);
}

#[test]
fn loopconfig_is_layout_identical_to_raw() {
    assert_eq!(core::mem::size_of::<LoopConfig>(), core::mem::size_of::<loop_config_raw>());
    assert_eq!(core::mem::align_of::<LoopConfig>(), core::mem::align_of::<loop_config_raw>());
}

#[test]
fn loopconfig_new_sets_fd_and_block_size_zeroes_rest() {
    let c = LoopConfig::new(7);
    assert_eq!(c.inner.fd, 7);
    assert_eq!(c.inner.block_size, LOOP_BLOCK_SIZE);
    assert_eq!(c.inner.info.lo_offset, 0);
    assert_eq!(c.inner.info.lo_flags, 0);
    assert_eq!(c.inner.__reserved, [0; 8]);
    assert_eq!(LOOP_BLOCK_SIZE, 4096);
}

fn opens(attach: &LoopAttach) -> Option<String> {
    match attach.next() {
        AttachAction::Open(path) => Some(path.to_string()),
        _ => None,
    }
}

#[test]
fn attach_configures_the_free_device() {
    let attach = LoopDevice::attach();
    assert!(matches!(attach.next(), AttachAction::OpenBacking));
    let attach = attach.opened(Ok(7));
    assert_eq!(opens(&attach).unwrap(), "/dev/loop-control");
    let attach = attach.opened(Ok(8));
    assert!(matches!(attach.next(), AttachAction::GetFree));
    let attach = attach.found_free(Ok(12));
    assert_eq!(opens(&attach).unwrap(), "/dev/loop12");
    let attach = attach.opened(Ok(9));
    match attach.next() {
        AttachAction::Configure(config) => {
            assert_eq!(config.inner.fd, 7);
            assert_eq!(config.inner.block_size, 4096);
        }
        _ => panic!("not to be configured"),
    }
    let attach = attach.configured(Ok(0));
    assert!(matches!(attach.next(), AttachAction::Nothing));
    let device = attach.finish().unwrap().unwrap();
    assert_eq!(device.path(), "/dev/loop12");
    assert_eq!(device.forget(), "/dev/loop12");
}

#[test]
fn attach_stops_at_the_first_failure() {
    let io = DmError::Io(failure());
    assert_eq!(LoopDevice::attach().opened(Err(failure())).finish().unwrap().unwrap_err(), io);
    let control = LoopDevice::attach().opened(Ok(1)).opened(Err(failure()));
    assert_eq!(control.finish().unwrap().unwrap_err(), io);
    let free = LoopDevice::attach().opened(Ok(1)).opened(Ok(2)).found_free(Err(failure()));
    assert_eq!(
        free.finish().unwrap().unwrap_err(),
        DmError::DmIoctl { op: "LOOP_CTL_GET_FREE", source: failure(), table_line: None }
    );
    let device = LoopDevice::attach().opened(Ok(1)).opened(Ok(2)).found_free(Ok(0)).opened(Err(failure()));
    assert_eq!(device.finish().unwrap().unwrap_err(), io);
    let ready = LoopDevice::attach().opened(Ok(1)).opened(Ok(2)).found_free(Ok(0)).opened(Ok(3));
    assert_eq!(
        ready.configured(Err(failure())).finish().unwrap().unwrap_err(),
        DmError::DmIoctl { op: "LOOP_CONFIGURE", source: failure(), table_line: None }
    );
    assert!(LoopDevice::attach().finish().is_none());
}

fn attached() -> LoopDevice {
    let attach = LoopDevice::attach().opened(Ok(1)).opened(Ok(2)).found_free(Ok(0)).opened(Ok(3));
    attach.configured(Ok(0)).finish().unwrap().unwrap()
}

#[test]
fn detach_reports_what_the_kernel_says() {
    assert_eq!(attached().detach(Ok(0)), Ok(()));
    assert_eq!(
        attached().detach(Err(failure())),
        Err(DmError::DmIoctl { op: "LOOP_CLR_FD", source: failure(), table_line: None })
    );
}
