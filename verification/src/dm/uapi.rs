//! Mirrors of the kernel's structs in `<linux/dm-ioctl.h>`, field for field, and its
//! constants.

use vstd::prelude::*;

verus! {

/// The room for a device's name in `dm_ioctl`, its NUL included.
pub const DM_NAME_LEN: usize = 128;

/// The room for a device's UUID in `dm_ioctl`.
pub const DM_UUID_LEN: usize = 129;

/// The major version of the dm-ioctl interface that is spoken here.
pub const DM_IOCTL_VERSION_MAJOR: u32 = 4;

/// The size of `struct dm_ioctl`.
pub const DM_IOCTL_SIZE: usize = 312;

/// The size of `struct dm_target_spec`.
pub const DM_TARGET_SPEC_SIZE: usize = 40;

/// The flag of a device that is read-only.
pub const DM_READONLY_FLAG: u32 = 1;

/// The flag that asks `DM_DEV_SUSPEND` to suspend rather than to resume.
pub const DM_SUSPEND_FLAG: u32 = 2;

/// The flag that the kernel sets where the buffer was too small for its whole reply.
pub const DM_BUFFER_FULL_FLAG: u32 = 256;

/// `struct dm_ioctl`.
#[allow(non_camel_case_types)]
#[derive(Clone, Copy)]
pub struct dm_ioctl_raw {
    pub version: [u32; 3],
    pub data_size: u32,
    pub data_start: u32,
    pub target_count: u32,
    pub open_count: i32,
    pub flags: u32,
    pub event_nr: u32,
    pub padding: u32,
    pub dev: u64,
    pub name: [u8; 128],
    pub uuid: [u8; 129],
    pub data: [u8; 7],
}

} // verus!
