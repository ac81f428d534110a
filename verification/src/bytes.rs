//! Bytes of kernel replies: numbers in the machine's byte order, and strings that a
//! NUL ends.

use vstd::prelude::*;

verus! {

/// The order in which a machine stores the bytes of a number.
#[derive(Debug, Clone, Copy, PartialEq, Eq, Structural)]
pub enum ByteOrder {
    Little,
    Big,
}

impl ByteOrder {
    /// The machine's order, told from the number that it reads out of the bytes 1, 0
    /// (`u16::from_ne_bytes([1, 0])`): 1 where the low byte comes first.
    pub fn of_probe(probe: u16) -> (r: ByteOrder)
        ensures
            r == (if probe == 1 {
                ByteOrder::Little
            } else {
                ByteOrder::Big
            }),
    {
        if probe == 1 {
            ByteOrder::Little
        } else {
            ByteOrder::Big
        }
    }
}

/// The number that four bytes make.
pub open spec fn u32_of(order: ByteOrder, b: Seq<u8>) -> int {
    match order {
        ByteOrder::Little => b[0] + b[1] * 0x100 + b[2] * 0x1_0000 + b[3] * 0x100_0000,
        ByteOrder::Big => b[3] + b[2] * 0x100 + b[1] * 0x1_0000 + b[0] * 0x100_0000,
    }
}

/// What comes before the first NUL in `s`; all of it where there is none.
pub open spec fn until_nul(s: Seq<u8>) -> Seq<u8>
    decreases s.len(),
{
    if s.len() == 0 || s[0] == 0 {
        Seq::empty()
    } else {
        seq![s[0]] + until_nul(s.drop_first())
    }
}

/// Reads the number in the four bytes at `at`.
pub(crate) fn read_u32(order: ByteOrder, bytes: &[u8], at: usize) -> (r: u32)
    requires
        at + 4 <= bytes@.len(),
    ensures
        r == u32_of(order, bytes@.subrange(at as int, at + 4)),
{
    let a: u32 = bytes[at] as u32;
    let b: u32 = bytes[at + 1] as u32;
    let c: u32 = bytes[at + 2] as u32;
    let d: u32 = bytes[at + 3] as u32;
    match order {
        ByteOrder::Little => a + b * 0x100 + c * 0x1_0000 + d * 0x100_0000,
        ByteOrder::Big => d + c * 0x100 + b * 0x1_0000 + a * 0x100_0000,
    }
}

/// Finds where the string that starts at `start` ends: at its NUL, or at `end`.
pub(crate) fn string_end(bytes: &[u8], start: usize, end: usize) -> (r: usize)
    requires
        start <= end <= bytes@.len(),
    ensures
        start <= r <= end,
        bytes@.subrange(start as int, r as int) == until_nul(
            bytes@.subrange(start as int, end as int),
        ),
{
    let ghost whole = bytes@.subrange(start as int, end as int);
    let mut i: usize = start;
    assert(bytes@.subrange(start as int, i as int) =~= Seq::<u8>::empty());
    assert(bytes@.subrange(i as int, end as int) =~= whole);
    assert(until_nul(whole) =~= Seq::<u8>::empty() + until_nul(whole));
    while i < end && bytes[i] != 0
        invariant
            start <= i <= end <= bytes@.len(),
            until_nul(whole) == bytes@.subrange(start as int, i as int) + until_nul(
                bytes@.subrange(i as int, end as int),
            ),
        decreases end - i,
    {
        let ghost rest = bytes@.subrange(i as int, end as int);
        assert(rest.drop_first() =~= bytes@.subrange(i + 1, end as int));
        assert(bytes@.subrange(start as int, i as int) + (seq![rest[0]] + until_nul(
            rest.drop_first(),
        )) =~= bytes@.subrange(start as int, i + 1) + until_nul(rest.drop_first()));
        i += 1;
    }
    assert(until_nul(bytes@.subrange(i as int, end as int)) =~= Seq::<u8>::empty());
    assert(bytes@.subrange(start as int, i as int) + Seq::<u8>::empty() =~= bytes@.subrange(
        start as int,
        i as int,
    ));
    i
}


/// A number is read back from its bytes, the low byte first or the high one.
pub proof fn law_numbers_read_back(n: u32, b: Seq<u8>)
    requires
        b.len() == 4,
        b[0] == (n & 0xff) as u8,
        b[1] == ((n >> 8) & 0xff) as u8,
        b[2] == ((n >> 16) & 0xff) as u8,
        b[3] == ((n >> 24) & 0xff) as u8,
    ensures
        u32_of(ByteOrder::Little, b) == n,
        u32_of(ByteOrder::Big, seq![b[3], b[2], b[1], b[0]]) == n,
{
    let w = (n & 0xff) as u8;
    let x = ((n >> 8) & 0xff) as u8;
    let y = ((n >> 16) & 0xff) as u8;
    let z = ((n >> 24) & 0xff) as u8;
    assert(w + x * 0x100 + y * 0x1_0000 + z * 0x100_0000 == n) by (bit_vector)
        requires
            w == (n & 0xff) as u8,
            x == ((n >> 8) & 0xff) as u8,
            y == ((n >> 16) & 0xff) as u8,
            z == ((n >> 24) & 0xff) as u8,
    ;
}

/// A string goes up to its first NUL, or to the end where there is none.
pub proof fn law_strings_end_at_the_first_nul(text: Seq<u8>, rest: Seq<u8>)
    requires
        !text.contains(0u8),
    ensures
        until_nul(text) == text,
        until_nul(text.push(0u8) + rest) == text,
    decreases text.len(),
{
    let whole = text.push(0u8) + rest;
    if text.len() == 0 {
        assert(until_nul(whole) =~= text);
    } else {
        let tail = text.drop_first();
        assert forall|i: int| 0 <= i < tail.len() implies tail[i] != 0u8 by {
            assert(tail[i] == text[i + 1]);
        }
        law_strings_end_at_the_first_nul(tail, rest);
        assert(text.contains(text[0]));
        assert(whole.drop_first() =~= tail.push(0u8) + rest);
        assert(until_nul(text) =~= text);
        assert(until_nul(whole) =~= text);
    }
}

/// A machine that reads 1 out of the bytes 1, 0 has the low byte first, and any other has the
/// high one.
pub proof fn law_probe_tells_the_order(probe: u16, r: ByteOrder)
    requires
        call_ensures(ByteOrder::of_probe, (probe,), r),
    ensures
        r == ByteOrder::Little <==> probe == 1,
        r == ByteOrder::Big <==> probe != 1,
{
}

} // verus!
