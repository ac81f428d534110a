//! What to make of the system calls of the boot.

use vstd::prelude::*;
use vstd::string::*;

use crate::text::{decimal, decimal_text};

verus! {

/// `MODULE_INIT_COMPRESSED_FILE`: the kernel is to inflate the module.
pub const MODULE_INIT_COMPRESSED_FILE: i32 = 4;

/// `EEXIST`.
pub const EEXIST: i32 = 17;

/// The flags of `finit_module`.
pub fn finit_flags(compressed: bool) -> (r: i32)
    ensures
        r == (if compressed {
            MODULE_INIT_COMPRESSED_FILE
        } else {
            0
        }),
{
    if compressed {
        MODULE_INIT_COMPRESSED_FILE
    } else {
        0
    }
}

/// What `finit_module` on the module at `path` came to, given its return value, and
/// the error as a number and as text: a module that is already there is loaded.
pub fn finit_module(path: &str, rc: i64, errno: Option<i32>, text: &str) -> (r: Result<(), String>)
    ensures
        r is Ok <==> rc == 0 || errno == Some(EEXIST),
        r is Err ==> r->Err_0@ == "finit_module "@ + path@ + ": "@ + text@,
{
    if rc == 0 {
        return Ok(());
    }
    match errno {
        Some(n) => {
            if n == EEXIST {
                return Ok(());
            }
        },
        None => {},
    }
    let mut message = "finit_module ".to_string();
    message.append(path);
    message.append(": ");
    message.append(text);
    Err(message)
}

/// A clock's reading.
#[derive(Debug, Clone, Copy, PartialEq, Eq, Structural)]
pub struct Timespec {
    pub sec: u64,
    pub nsec: u64,
}

impl Timespec {
    /// The reading in whole microseconds.
    pub open spec fn us(self) -> int {
        self.sec * 1_000_000 + self.nsec / 1_000
    }
}

/// A clock's reading in whole microseconds; 0 where it could not be read.
pub fn clock_us(reading: Option<Timespec>) -> (r: u64)
    requires
        reading is Some ==> reading->0.us() <= u64::MAX,
    ensures
        r == (match reading {
            Some(t) => t.us(),
            None => 0,
        }),
{
    match reading {
        Some(t) => t.sec * 1_000_000 + t.nsec / 1_000,
        None => 0,
    }
}

/// The timing marker that is printed before the pivot.
pub fn switch_root_mark(boot_us: u64, epoch_us: u64) -> (r: String)
    ensures
        r@ == "carapace: switch_root boot_us="@ + decimal(boot_us as nat) + " epoch_us="@ + decimal(
            epoch_us as nat,
        ) + "\n"@,
{
    let mut text = "carapace: switch_root boot_us=".to_string();
    text.append(&decimal_text(boot_us));
    text.append(" epoch_us=");
    text.append(&decimal_text(epoch_us));
    text.append("\n");
    text
}

/// A reading in microseconds leaves less than a microsecond out, and a clock that could not
/// be read gives 0.
pub proof fn law_clock_is_read_to_the_microsecond(reading: Option<Timespec>, r: u64)
    requires
        call_ensures(clock_us, (reading,), r),
    ensures
        reading is None ==> r == 0,
        reading is Some ==> r * 1000 <= reading->0.sec * 1_000_000_000 + reading->0.nsec < r * 1000
            + 1000,
{
}

/// A module is loaded where the call returns 0 or the error is that it exists (17); any
/// other error is told, with the path. A compressed module is loaded with the flag 4.
pub proof fn law_loaded_modules_are_no_failure(
    path: &str,
    rc: i64,
    errno: Option<i32>,
    text: &str,
    r: Result<(), String>,
    compressed: bool,
    flags: i32,
)
    requires
        call_ensures(finit_module, (path, rc, errno, text), r),
        call_ensures(finit_flags, (compressed,), flags),
    ensures
        rc == 0 || errno == Some(17i32) ==> r is Ok,
        rc != 0 && errno != Some(17i32) ==> r is Err && r->Err_0@ == "finit_module "@ + path@ + ": "@
            + text@,
        compressed ==> flags == 4,
        !compressed ==> flags == 0,
{
}

/// The timing marker shows both readings, each under its own name.
pub proof fn law_mark_shows_both_readings(boot_us: u64, epoch_us: u64, r: String)
    requires
        call_ensures(switch_root_mark, (boot_us, epoch_us), r),
    ensures
        r@ == "carapace: switch_root boot_us="@ + decimal(boot_us as nat) + " epoch_us="@ + decimal(
            epoch_us as nat,
        ) + "\n"@,
{
}

} // verus!
