//! The list of all devices, and which of them belong to one stack.
//!
//! The reply to `DM_LIST_DEVICES` holds one record per device:
//!
//! ```text
//!     u64 dev          the device's dev_t
//!     u32 next         from the start of this record to the next; 0 in the last
//!     char name[]      up to a NUL
//! ```

use vstd::prelude::*;
use vstd::string::*;
use vstd::utf8::{decode_utf8, encode_utf8, valid_utf8};

use crate::bytes::{read_u32, string_end, u32_of, until_nul, ByteOrder};
use crate::dm::device::{
    check_version, ioctl_fault, is_request, law_requests_are_filled_in, version_fault, LIST_PAYLOAD_CAP,
};
use crate::dm::header::DmHeader;
use crate::dm::uapi::{DM_BUFFER_FULL_FLAG, DM_IOCTL_SIZE};
use crate::dm::{DmError, DmErrorModel, IoError, IoErrorKind, IoErrorModel};
use crate::text::{chars_of, has_prefix, same_chars, stands_at, texts, utf8};

verus! {

/// The device `name` belongs to the stack named `base`: it is `base` itself, or
/// `base-` and something more. A name that merely starts with `base` does not.
pub open spec fn belongs(name: Seq<char>, base: Seq<char>) -> bool {
    name == base || has_prefix(name, base.push('-'))
}

/// The offset from the record at `cursor` to the next one.
pub open spec fn next_offset(order: ByteOrder, reply: Seq<u8>, cursor: int) -> int {
    u32_of(order, reply.subrange(cursor + 8, cursor + 12))
}

/// The names in the records from `cursor` on. The list ends with the record whose
/// offset to the next is too small to be one, or where no record fits before `end`.
pub open spec fn records(order: ByteOrder, reply: Seq<u8>, cursor: int, end: int) -> Seq<Seq<u8>>
    decreases
            (if cursor < end {
                end - cursor
            } else {
                0
            }),
{
    if cursor + 12 > end {
        Seq::empty()
    } else {
        let name = until_nul(reply.subrange(cursor + 12, end));
        let next = next_offset(order, reply, cursor);
        if next < 12 {
            seq![name]
        } else {
            seq![name] + records(order, reply, cursor + next, end)
        }
    }
}

/// Those of `names` that are UTF-8 and belong to the stack named `base`, in order.
pub open spec fn owned(names: Seq<Seq<u8>>, base: Seq<char>) -> Seq<Seq<char>>
    decreases names.len(),
{
    if names.len() == 0 {
        Seq::empty()
    } else {
        let before = owned(names.drop_last(), base);
        if valid_utf8(names.last()) && belongs(decode_utf8(names.last()), base) {
            before.push(decode_utf8(names.last()))
        } else {
            before
        }
    }
}

/// Where the payload of a reply ends: where the kernel says, but not past the buffer.
pub open spec fn payload_end(header: DmHeader, buffer: Seq<u8>) -> int {
    if header.inner.data_size < buffer.len() {
        header.inner.data_size as int
    } else {
        buffer.len() as int
    }
}

/// What the reply to `DM_LIST_DEVICES` means. A reply that the buffer was too small
/// for is an error, not a shorter list.
pub open spec fn list_outcome(
    base: Seq<char>,
    order: ByteOrder,
    reply: Result<DmHeader, IoError>,
    buffer: Seq<u8>,
) -> Result<Seq<Seq<char>>, DmErrorModel> {
    match reply {
        Err(source) => Err(ioctl_fault("DM_LIST_DEVICES"@, source@)),
        Ok(header) => match version_fault(header, "DM_LIST_DEVICES"@) {
            Some(fault) => Err(fault),
            None => if header.inner.flags & DM_BUFFER_FULL_FLAG != 0 {
                Err(
                    ioctl_fault(
                        "DM_LIST_DEVICES"@,
                        IoErrorModel {
                            kind: IoErrorKind::OutOfMemory,
                            text: "kernel reply exceeded 65536-byte buffer"@,
                        },
                    ),
                )
            } else {
                Ok(
                    owned(
                        records(
                            order,
                            buffer,
                            header.inner.data_start as int,
                            payload_end(header, buffer),
                        ),
                        base,
                    ),
                )
            },
        },
    }
}

/// Whether the device `name` belongs to the stack named `base`.
pub fn belongs_to(name: &str, base: &str) -> (r: bool)
    ensures
        r == belongs(name@, base@),
{
    let text = chars_of(name);
    let stem = chars_of(base);
    if same_chars(&text, &stem) {
        return true;
    }
    let mut layer = chars_of(base);
    layer.push('-');
    let r = stands_at(&text, 0, &layer);
    assert(layer@ == base@.push('-'));
    assert(layer@.len() <= text@.len() ==> text@.subrange(0, layer@.len() as int) =~= text@.take(
        layer@.len() as int,
    ));
    r
}

/// The request of `DM_LIST_DEVICES`: it names no device, and says how large the
/// buffer is.
pub fn list_request() -> (r: Result<DmHeader, DmError>)
    ensures
        is_request(r, ""@, 0, DM_IOCTL_SIZE + LIST_PAYLOAD_CAP, 0),
{
    match DmHeader::new("") {
        Err(e) => Err(e),
        Ok(header) => {
            let mut header = header;
            header.set_data_size(65848);
            Ok(header)
        },
    }
}

/// The name of the record at `cursor`, if it is UTF-8.
fn record_name(buffer: &[u8], cursor: usize, end: usize) -> (r: Option<&str>)
    requires
        cursor + 12 <= end <= buffer@.len(),
    ensures
        ({
            let name = until_nul(buffer@.subrange(cursor + 12, end as int));
            &&& r is Some <==> valid_utf8(name)
            &&& r is Some ==> r->0@ == decode_utf8(name)
        }),
{
    let start: usize = cursor + 12;
    let stop = string_end(buffer, start, end);
    utf8(vstd::slice::slice_subrange(buffer, start, stop))
}

/// Collects the names that belong to `base` from the records between `start` and
/// `end`.
fn collect_owned(base: &str, order: ByteOrder, buffer: &[u8], start: usize, end: usize) -> (r: Vec<
    String,
>)
    requires
        end <= buffer@.len(),
    ensures
        texts(r@) == owned(records(order, buffer@, start as int, end as int), base@),
{
    let mut names: Vec<String> = Vec::new();
    let mut cursor: usize = start;
    let ghost all = records(order, buffer@, start as int, end as int);
    let ghost mut seen: Seq<Seq<u8>> = Seq::empty();
    assert(seen + all =~= all);
    assert(texts(names@) =~= Seq::<Seq<char>>::empty());
    while end >= 12 && cursor <= end - 12
        invariant
            end <= buffer@.len(),
            all == records(order, buffer@, start as int, end as int),
            all == seen + records(order, buffer@, cursor as int, end as int),
            texts(names@) == owned(seen, base@),
        decreases
            (if cursor < end {
                end - cursor
            } else {
                0
            }),
    {
        let ghost here = records(order, buffer@, cursor as int, end as int);
        let ghost name = until_nul(buffer@.subrange(cursor + 12, end as int));
        let found = record_name(buffer, cursor, end);
        assert(seen.push(name).drop_last() =~= seen);
        match found {
            Some(text) => {
                if belongs_to(text, base) {
                    let ghost before = names@;
                    names.push(text.to_string());
                    assert(texts(names@) =~= texts(before).push(text@));
                }
            },
            None => {},
        }
        proof {
            seen = seen.push(name);
        }
        assert(texts(names@) == owned(seen, base@));
        let next: usize = read_u32(order, buffer, cursor + 8) as usize;
        if next < 12 {
            assert(here == seq![name]);
            assert(seen =~= all);
            return names;
        }
        assert(seen + records(order, buffer@, cursor + next, end as int) =~= all);
        match cursor.checked_add(next) {
            Some(at) => {
                cursor = at;
            },
            None => {
                assert(seen =~= all);
                return names;
            },
        }
    }
    assert(seen =~= all);
    names
}

/// Takes the reply to `DM_LIST_DEVICES` and names the devices that belong to the
/// stack named `base`. `buffer` is the whole buffer that the kernel filled, the
/// header's place included.
pub fn list_devices_with_prefix(
    base: &str,
    order: ByteOrder,
    reply: Result<DmHeader, IoError>,
    buffer: &[u8],
) -> (r: Result<Vec<String>, DmError>)
    ensures
        match list_outcome(base@, order, reply, buffer@) {
            Ok(names) => r is Ok && texts(r->Ok_0@) == names,
            Err(fault) => r is Err && r->Err_0@ == fault,
        },
{
    match reply {
        Err(source) => Err(DmError::DmIoctl { op: "DM_LIST_DEVICES", source, table_line: None }),
        Ok(header) => {
            match check_version(&header, "DM_LIST_DEVICES") {
                Err(e) => {
                    return Err(e);
                },
                Ok(()) => {},
            }
            if header.inner.flags & DM_BUFFER_FULL_FLAG != 0 {
                return Err(
                    DmError::DmIoctl {
                        op: "DM_LIST_DEVICES",
                        source: IoError {
                            kind: IoErrorKind::OutOfMemory,
                            text: "kernel reply exceeded 65536-byte buffer".to_string(),
                        },
                        table_line: None,
                    },
                );
            }
            let start: usize = header.inner.data_start as usize;
            let end: usize = if (header.inner.data_size as usize) < buffer.len() {
                header.inner.data_size as usize
            } else {
                buffer.len()
            };
            Ok(collect_owned(base, order, buffer, start, end))
        },
    }
}

/// Every device that is listed for a stack belongs to it.
pub proof fn law_listed_devices_belong(names: Seq<Seq<u8>>, base: Seq<char>, i: int)
    requires
        0 <= i < owned(names, base).len(),
    ensures
        belongs(owned(names, base)[i], base),
    decreases names.len(),
{
    if names.len() > 0 {
        let before = owned(names.drop_last(), base);
        if i < before.len() {
            law_listed_devices_belong(names.drop_last(), base, i);
        }
    }
}

/// Every device that belongs to a stack is listed for it.
pub proof fn law_belonging_devices_are_listed(names: Seq<Seq<u8>>, base: Seq<char>, i: int)
    requires
        0 <= i < names.len(),
        valid_utf8(names[i]),
        belongs(decode_utf8(names[i]), base),
    ensures
        owned(names, base).contains(decode_utf8(names[i])),
    decreases names.len(),
{
    let before = owned(names.drop_last(), base);
    let name = decode_utf8(names[i]);
    if i < names.len() - 1 {
        assert(names.drop_last()[i] == names[i]);
        law_belonging_devices_are_listed(names.drop_last(), base, i);
        let k = choose|k: int| 0 <= k < before.len() && before[k] == name;
        assert(owned(names, base)[k] == name);
    } else {
        assert(owned(names, base)[before.len() as int] == name);
    }
}

/// A device whose name goes on after `base` with anything but a `-` is never taken
/// for one of the stack's.
pub proof fn law_longer_names_do_not_belong(base: Seq<char>, c: char, rest: Seq<char>)
    requires
        c != '-',
    ensures
        !belongs(base.push(c) + rest, base),
{
    let name = base.push(c) + rest;
    let layer = base.push('-');
    assert(name.len() > base.len());
    assert(name[base.len() as int] == c);
    if has_prefix(name, layer) {
        assert(name.take(layer.len() as int)[base.len() as int] == layer[base.len() as int]);
    }
}

/// The records of `reply` stand at the places `at`, and hold `names`: each leads to the
/// next, and the last to none, or to one that does not fit any more.
pub open spec fn holds_records(
    order: ByteOrder,
    reply: Seq<u8>,
    end: int,
    at: Seq<int>,
    names: Seq<Seq<u8>>,
) -> bool {
    &&& at.len() == names.len()
    &&& forall|i: int|
        0 <= i < at.len() ==> {
            &&& (#[trigger] at[i]) + 12 <= end
            &&& until_nul(reply.subrange(at[i] + 12, end)) == names[i]
            &&& i + 1 < at.len() ==> next_offset(order, reply, at[i]) == at[i + 1] - at[i] && at[i
                + 1] - at[i] >= 12
            &&& i + 1 == at.len() ==> next_offset(order, reply, at[i]) < 12 || at[i] + next_offset(
                order,
                reply,
                at[i],
            ) + 12 > end
        }
}

/// A listing is read back: the names are those of the records, all of them and in order,
/// wherever they stand.
pub proof fn law_records_read_back(
    order: ByteOrder,
    reply: Seq<u8>,
    end: int,
    at: Seq<int>,
    names: Seq<Seq<u8>>,
)
    requires
        holds_records(order, reply, end, at, names),
        at.len() > 0,
    ensures
        records(order, reply, at[0], end) == names,
    decreases at.len(),
{
    let name = until_nul(reply.subrange(at[0] + 12, end));
    if at.len() == 1 {
        let next = next_offset(order, reply, at[0]);
        if next >= 12 {
            assert(records(order, reply, at[0] + next, end) =~= Seq::<Seq<u8>>::empty());
            assert(seq![name] + Seq::<Seq<u8>>::empty() =~= names);
        } else {
            assert(seq![name] =~= names);
        }
    } else {
        let places = at.drop_first();
        let rest = names.drop_first();
        assert forall|i: int| 0 <= i < places.len() implies {
            &&& (#[trigger] places[i]) + 12 <= end
            &&& until_nul(reply.subrange(places[i] + 12, end)) == rest[i]
            &&& i + 1 < places.len() ==> next_offset(order, reply, places[i]) == places[i + 1]
                - places[i] && places[i + 1] - places[i] >= 12
            &&& i + 1 == places.len() ==> next_offset(order, reply, places[i]) < 12 || places[i]
                + next_offset(order, reply, places[i]) + 12 > end
        } by {
            assert(places[i] == at[i + 1]);
        }
        law_records_read_back(order, reply, end, places, rest);
        assert(at[0] + next_offset(order, reply, at[0]) == places[0]);
        assert(seq![name] + rest =~= names);
    }
}

/// A device belongs to the stack under whose name it is, or whose name it continues with a
/// `-`, and to no other.
pub proof fn law_stack_is_its_name_and_what_a_dash_adds(name: &str, base: &str, r: bool)
    requires
        call_ensures(belongs_to, (name, base), r),
    ensures
        r <==> name@ == base@ || exists|rest: Seq<char>| name@ == #[trigger] (base@ + seq!['-'] + rest),
{
    let layer = base@.push('-');
    assert(base@ + seq!['-'] =~= layer);
    if has_prefix(name@, layer) {
        let rest = name@.skip(layer.len() as int);
        assert(name@ =~= base@ + seq!['-'] + rest);
    }
    assert forall|rest: Seq<char>| name@ == #[trigger] (base@ + seq!['-'] + rest) implies has_prefix(
        name@,
        layer,
    ) by {
        assert(name@.take(layer.len() as int) =~= layer);
    }
}

/// A listing is gone through name by name: one that belongs to the stack is listed, and one
/// that does not, or is no text, is not; their order stays.
pub proof fn law_listing_goes_name_by_name(
    a: Seq<Seq<u8>>,
    b: Seq<Seq<u8>>,
    name: Seq<u8>,
    base: Seq<char>,
    rest: Seq<char>,
)
    ensures
        owned(a + b, base) == owned(a, base) + owned(b, base),
        valid_utf8(name) && (decode_utf8(name) == base || decode_utf8(name) == base + seq!['-']
            + rest) ==> owned(seq![name], base) == seq![decode_utf8(name)],
        !valid_utf8(name) || !belongs(decode_utf8(name), base) ==> owned(seq![name], base)
            == Seq::<Seq<char>>::empty(),
    decreases b.len(),
{
    let all = a + b;
    if b.len() == 0 {
        assert(all =~= a);
        assert(owned(a, base) + owned(b, base) =~= owned(a, base));
    } else {
        law_listing_goes_name_by_name(a, b.drop_last(), name, base, rest);
        assert(all.drop_last() =~= a + b.drop_last());
        assert(all.last() == b.last());
        assert(owned(all, base) =~= owned(a, base) + owned(b, base));
    }
    let none = Seq::<Seq<u8>>::empty();
    assert(seq![name].drop_last() =~= none);
    assert(owned(none, base) =~= Seq::<Seq<char>>::empty());
    if valid_utf8(name) && decode_utf8(name) == base + seq!['-'] + rest {
        let layer = base.push('-');
        assert(decode_utf8(name).take(layer.len() as int) =~= layer);
    }
    if valid_utf8(name) && belongs(decode_utf8(name), base) {
        assert(owned(seq![name], base) =~= seq![decode_utf8(name)]);
    } else {
        assert(owned(seq![name], base) =~= Seq::<Seq<char>>::empty());
    }
}

/// The offset to the next record is in the four bytes behind the eight of the device's
/// number.
pub proof fn law_offset_is_behind_the_number(order: ByteOrder, reply: Seq<u8>, cursor: int)
    requires
        0 <= cursor,
        cursor + 12 <= reply.len(),
    ensures
        next_offset(order, reply, cursor) == u32_of(
            order,
            seq![reply[cursor + 8], reply[cursor + 9], reply[cursor + 10], reply[cursor + 11]],
        ),
{
    let four = seq![reply[cursor + 8], reply[cursor + 9], reply[cursor + 10], reply[cursor + 11]];
    assert(reply.subrange(cursor + 8, cursor + 12) =~= four);
}

/// What the devices of a stack are read from: the records between the start and the end
/// that the kernel gives, which is never past the buffer. A reply that did not fit, that is
/// of another version, or that is a failure is an error of its own; no records make an
/// empty list.
pub proof fn law_devices_are_read_from_the_records(
    base: &str,
    order: ByteOrder,
    reply: Result<DmHeader, IoError>,
    buffer: &[u8],
    r: Result<Vec<String>, DmError>,
    end: int,
    at: Seq<int>,
    names: Seq<Seq<u8>>,
)
    requires
        call_ensures(list_devices_with_prefix, (base, order, reply, buffer), r),
        reply is Ok ==> end <= reply->Ok_0.inner.data_size && end <= buffer@.len() && (end
            == reply->Ok_0.inner.data_size || end == buffer@.len()),
    ensures
        reply is Err ==> r is Err && r->Err_0@ == (DmErrorModel::DmIoctl {
            op: "DM_LIST_DEVICES"@,
            source: reply->Err_0@,
            table_line: None,
        }),
        reply is Ok && reply->Ok_0.inner.version@[0] != 4 ==> r is Err && Some(r->Err_0@)
            == version_fault(reply->Ok_0, "DM_LIST_DEVICES"@) && r->Err_0@->source.kind
            == IoErrorKind::Unsupported,
        reply is Ok && reply->Ok_0.inner.version@[0] == 4 && reply->Ok_0.inner.flags & 256 != 0
            ==> r is Err && r->Err_0@ == (DmErrorModel::DmIoctl {
            op: "DM_LIST_DEVICES"@,
            source: IoErrorModel {
                kind: IoErrorKind::OutOfMemory,
                text: "kernel reply exceeded 65536-byte buffer"@,
            },
            table_line: None,
        }),
        reply is Ok && reply->Ok_0.inner.version@[0] == 4 && reply->Ok_0.inner.flags & 256 == 0 ==> {
            &&& r is Ok
            &&& reply->Ok_0.inner.data_start + 12 > end ==> r->Ok_0@.len() == 0
            &&& at.len() > 0 && at[0] == reply->Ok_0.inner.data_start && holds_records(
                order,
                buffer@,
                end,
                at,
                names,
            ) ==> texts(r->Ok_0@) == owned(names, base@)
        },
{
    if reply is Ok && reply->Ok_0.inner.version@[0] == 4 && reply->Ok_0.inner.flags & 256 == 0 {
        let start = reply->Ok_0.inner.data_start as int;
        assert(end == payload_end(reply->Ok_0, buffer@));
        if start + 12 > end {
            assert(records(order, buffer@, start, end) =~= Seq::<Seq<u8>>::empty());
            assert(texts(r->Ok_0@) =~= Seq::<Seq<char>>::empty());
            assert(texts(r->Ok_0@).len() == r->Ok_0@.len());
        }
        if at.len() > 0 && at[0] == start && holds_records(order, buffer@, end, at, names) {
            law_records_read_back(order, buffer@, end, at, names);
        }
    }
}

/// The request for the list names no device, and offers 64 KiB behind the header.
pub proof fn law_list_request_offers_its_buffer(r: Result<DmHeader, DmError>)
    requires
        call_ensures(list_request, (), r),
    ensures
        r is Ok,
        r->Ok_0.inner.data_size == 312 + 64 * 1024,
        r->Ok_0.inner.flags == 0,
        forall|i: int| 0 <= i < 128 ==> #[trigger] r->Ok_0.inner.name@[i] == 0,
        LIST_PAYLOAD_CAP == 64 * 1024,
{
    reveal_strlit("");
    assert(encode_utf8(""@).len() == 0);
    law_requests_are_filled_in(r, ""@, 0, 65848, 0);
}

} // verus!
