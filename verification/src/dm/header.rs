//! `DmHeader`: the fixed part of every device-mapper request and reply.

use vstd::prelude::*;
use vstd::string::*;
use vstd::utf8::encode_utf8;

use crate::bytes::until_nul;
use crate::dm::uapi::{dm_ioctl_raw, DM_IOCTL_SIZE, DM_NAME_LEN, DM_READONLY_FLAG, DM_SUSPEND_FLAG};
use crate::dm::{outcome, DmError, DmErrorModel};
use crate::text::{debug_text, quoted};

verus! {

/// A `dm_ioctl` header. Requests are made by [`DmHeader::new`] and the setters;
/// replies are read by the getters.
#[derive(Clone, Copy)]
pub struct DmHeader {
    pub inner: dm_ioctl_raw,
}

/// `bytes`, then zeroes up to `len`.
pub open spec fn zero_padded(bytes: Seq<u8>, len: nat) -> Seq<u8> {
    Seq::new(len, |i: int| if i < bytes.len() { bytes[i] } else { 0 })
}

/// What is wrong with a name that does not fit into a header, or nothing.
pub open spec fn name_fault(name: Seq<char>) -> Option<DmErrorModel> {
    if encode_utf8(name).len() >= DM_NAME_LEN {
        Some(DmErrorModel::Usage("dm device name is longer than 127 bytes: "@ + debug_text(name)))
    } else {
        None
    }
}

impl DmHeader {
    /// The header of a request about the device `name` that sets nothing else, as
    /// [`DmHeader::new`] makes it.
    pub open spec fn is_new(self, name: Seq<char>) -> bool {
        &&& self.inner.version@ == seq![4u32, 0, 0]
        &&& self.inner.data_size == DM_IOCTL_SIZE
        &&& self.inner.data_start == DM_IOCTL_SIZE
        &&& self.inner.target_count == 0
        &&& self.inner.open_count == 0
        &&& self.inner.flags == 0
        &&& self.inner.event_nr == 0
        &&& self.inner.padding == 0
        &&& self.inner.dev == 0
        &&& self.inner.name@ == zero_padded(encode_utf8(name), 128)
        &&& self.inner.uuid@ == zero_padded(Seq::empty(), 129)
        &&& self.inner.data@ == zero_padded(Seq::empty(), 7)
    }

    /// This header with other flags.
    pub open spec fn with_flags(self, flags: u32) -> DmHeader {
        DmHeader { inner: dm_ioctl_raw { flags: flags, ..self.inner } }
    }

    /// A request about the device `name`, which may be empty. A name of 128 bytes or
    /// more does not fit.
    pub fn new(name: &str) -> (r: Result<DmHeader, DmError>)
        ensures
            match name_fault(name@) {
                Some(fault) => outcome(r) == Err::<DmHeader, DmErrorModel>(fault),
                None => r is Ok && r->Ok_0.is_new(name@),
            },
    {
        let bytes = name.as_bytes();
        if bytes.len() >= DM_NAME_LEN {
            let mut text = "dm device name is longer than 127 bytes: ".to_string();
            text.append(&quoted(name));
            return Err(DmError::Usage(text));
        }
        let mut field: [u8; 128] = [0u8; 128];
        let mut i: usize = 0;
        while i < bytes.len()
            invariant
                i <= bytes.len() < 128,
                forall|j: int| 0 <= j < i ==> field[j] == bytes[j],
                forall|j: int| i <= j < 128 ==> field[j] == 0,
            decreases bytes.len() - i,
        {
            field[i] = bytes[i];
            i += 1;
        }
        assert(field@ =~= zero_padded(bytes@, 128));
        let uuid: [u8; 129] = [0u8; 129];
        let data: [u8; 7] = [0u8; 7];
        assert(uuid@ =~= zero_padded(Seq::empty(), 129));
        assert(data@ =~= zero_padded(Seq::empty(), 7));
        let version: [u32; 3] = [4u32, 0, 0];
        assert(version@ =~= seq![4u32, 0, 0]);
        Ok(
            DmHeader {
                inner: dm_ioctl_raw {
                    version,
                    data_size: 312,
                    data_start: 312,
                    target_count: 0,
                    open_count: 0,
                    flags: 0,
                    event_nr: 0,
                    padding: 0,
                    dev: 0,
                    name: field,
                    uuid,
                    data,
                },
            },
        )
    }

    /// Marks the request as one for a read-only device.
    pub fn add_readonly(&mut self)
        ensures
            *final(self) == old(self).with_flags(old(self).inner.flags | DM_READONLY_FLAG),
    {
        self.inner.flags = self.inner.flags | DM_READONLY_FLAG;
    }

    /// Asks to suspend, or to resume.
    pub fn set_suspend(&mut self, suspend: bool)
        ensures
            *final(self) == old(self).with_flags(
                if suspend {
                    old(self).inner.flags | DM_SUSPEND_FLAG
                } else {
                    old(self).inner.flags & !DM_SUSPEND_FLAG
                },
            ),
    {
        self.inner.flags = if suspend {
            self.inner.flags | DM_SUSPEND_FLAG
        } else {
            self.inner.flags & !DM_SUSPEND_FLAG
        };
    }

    /// Sets the cookie that the kernel echoes to udev; it travels in `event_nr`.
    pub fn set_udev_cookie(&mut self, cookie: u32)
        ensures
            *final(self) == (DmHeader { inner: dm_ioctl_raw { event_nr: cookie, ..old(self).inner } }),
    {
        self.inner.event_nr = cookie;
    }

    /// Says how large the buffer is that starts with this header.
    pub fn set_data_size(&mut self, size: u32)
        ensures
            *final(self) == (DmHeader { inner: dm_ioctl_raw { data_size: size, ..old(self).inner } }),
    {
        self.inner.data_size = size;
    }
}

proof fn lemma_until_nul_of_padded(bytes: Seq<u8>, len: nat)
    requires
        bytes.len() < len,
        !bytes.contains(0u8),
    ensures
        until_nul(zero_padded(bytes, len)) == bytes,
    decreases bytes.len(),
{
    let field = zero_padded(bytes, len);
    if bytes.len() == 0 {
        assert(until_nul(field) =~= bytes);
    } else {
        let rest = bytes.drop_first();
        assert forall|i: int| 0 <= i < rest.len() implies rest[i] != 0u8 by {
            assert(rest[i] == bytes[i + 1]);
        }
        lemma_until_nul_of_padded(rest, (len - 1) as nat);
        assert(field.drop_first() =~= zero_padded(rest, (len - 1) as nat));
        assert(bytes.contains(bytes[0]));
        assert(until_nul(field) =~= bytes);
    }
}

/// The kernel reads the name that a request was made with, up to its NUL, for every
/// name that is accepted and holds no NUL itself.
pub proof fn law_name_reads_back(header: DmHeader, name: Seq<char>)
    requires
        header.is_new(name),
        name_fault(name) is None,
        !encode_utf8(name).contains(0u8),
    ensures
        until_nul(header.inner.name@) == encode_utf8(name),
{
    lemma_until_nul_of_padded(encode_utf8(name), 128);
}

/// Each setter sets its own bit or field, and leaves the rest of the header as it is.
pub proof fn law_setters_set_their_own(
    a: &mut DmHeader,
    b: &mut DmHeader,
    suspend: bool,
    c: &mut DmHeader,
    cookie: u32,
    d: &mut DmHeader,
    size: u32,
)
    requires
        call_ensures(DmHeader::add_readonly, (a,), ()),
        call_ensures(DmHeader::set_suspend, (b, suspend), ()),
        call_ensures(DmHeader::set_udev_cookie, (c, cookie), ()),
        call_ensures(DmHeader::set_data_size, (d, size), ()),
    ensures
        final(a).inner == (dm_ioctl_raw { flags: old(a).inner.flags | 1, ..old(a).inner }),
        suspend ==> final(b).inner == (dm_ioctl_raw { flags: old(b).inner.flags | 2, ..old(b).inner }),
        !suspend ==> final(b).inner == (dm_ioctl_raw {
            flags: old(b).inner.flags & !2u32,
            ..old(b).inner
        }),
        final(c).inner == (dm_ioctl_raw { event_nr: cookie, ..old(c).inner }),
        final(d).inner == (dm_ioctl_raw { data_size: size, ..old(d).inner }),
{
}

} // verus!
