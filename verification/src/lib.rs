//! Carapace: block devices that are assembled from a chain of verified layers.
//!
//! A carapace is a chain of scutes. Each scute is a copy-on-write store with a dm-verity
//! hash tree; attached, they make one read-only block device. This library decides what
//! is asked of the kernel, in what order, and what its replies mean. Its functions do no
//! I/O: where one is needed, they say which, and take the outcome.
//!
//! * [`dm`]: the device-mapper interface.
//! * [`assemble`]: the stack of devices over a chain, and its rollback.
//! * [`loopdev`]: loop devices over files.
//! * [`boot`]: the initramfs init.
//! * [`cli`]: the command line.
//! * [`oci`]: a carapace as an OCI image layout.
//! * [`error`], [`json`], [`text`], [`bytes`]: what these are written with.

pub mod assemble;
pub mod boot;
pub mod bytes;
pub mod cli;
pub mod dm;
pub mod error;
pub mod json;
pub mod loopdev;
pub mod oci;
pub mod text;
