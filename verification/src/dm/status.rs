//! How much of a snapshot's exception store is in use.
//!
//! The reply to `DM_TABLE_STATUS` holds, per target, a `dm_target_spec` and a status
//! string that a NUL ends. A snapshot's status is `<allocated>/<total> <metadata>`, in
//! sectors of 512 bytes.

use vstd::prelude::*;
use vstd::string::*;
use vstd::utf8::{decode_utf8, encode_utf8, valid_utf8};

use crate::bytes::{law_strings_end_at_the_first_nul, string_end, until_nul};
use crate::dm::device::{
    check_version, ioctl_fault, is_request, version_fault, DmDevice, STATUS_INITIAL_CAP, STATUS_MAX_CAP,
};
use crate::dm::header::DmHeader;
use crate::dm::listing::payload_end;
use crate::dm::uapi::{DM_BUFFER_FULL_FLAG, DM_IOCTL_SIZE, DM_TARGET_SPEC_SIZE};
use crate::dm::{outcome, DmError, DmErrorModel, IoError, IoErrorKind, IoErrorModel};
use crate::text::{
    chars_of, debug_text, decimal, is_digit, is_blank, is_white_space, is_word, law_decimal_reads_back, lemma_decimal,
    lemma_word_alone, lemma_words_after_blank, lemma_words_around, lemma_words_of_trimmed, parse_u64, parsed_u64, quoted, same, trim, trim_end, trim_range, trim_start,
    utf8, word_ranges, words,
};

verus! {

/// Where `c` stands in `s` first; the length of `s` where it does not.
pub open spec fn first_index(s: Seq<char>, c: char) -> int
    decreases s.len(),
{
    if s.len() == 0 || s[0] == c {
        0
    } else {
        1 + first_index(s.drop_first(), c)
    }
}

/// What a snapshot's usage token says: `<allocated>/<total>`.
pub open spec fn usage_of(token: Seq<char>) -> Result<(u64, u64), DmErrorModel> {
    let slash = first_index(token, '/');
    if slash == token.len() {
        Err(
            DmErrorModel::Usage(
                "dm-snapshot status token "@ + debug_text(token)
                    + " is not '<allocated>/<total>' (device may not be a snapshot)"@,
            ),
        )
    } else {
        let allocated = token.take(slash);
        let total = token.skip(slash + 1);
        match parsed_u64(allocated) {
            None => Err(
                DmErrorModel::Usage(
                    "dm-snapshot allocated sectors not an integer: "@ + debug_text(allocated),
                ),
            ),
            Some(a) => match parsed_u64(total) {
                None => Err(
                    DmErrorModel::Usage(
                        "dm-snapshot total sectors not an integer: "@ + debug_text(total),
                    ),
                ),
                Some(t) => Ok((a, t)),
            },
        }
    }
}

/// What a snapshot's status line says: the usage in its first word, unless the
/// snapshot is broken (`Invalid`) or its store is full (`Overflow`).
pub open spec fn line_outcome(status: Seq<char>) -> Result<(u64, u64), DmErrorModel> {
    let line = trim(status);
    if line == "Invalid"@ || line == "Overflow"@ {
        Err(
            DmErrorModel::Usage(
                "dm-snapshot status is '"@ + line + "' (snapshot is not usable)"@,
            ),
        )
    } else if words(line).len() == 0 {
        Err(DmErrorModel::Usage("dm-snapshot status line is empty: "@ + debug_text(status)))
    } else {
        usage_of(words(line)[0])
    }
}

/// What the payload of a reply to `DM_TABLE_STATUS` says: the status of the first of
/// `target_count` targets, whose record starts at `start`.
pub open spec fn status_outcome(
    buffer: Seq<u8>,
    target_count: u32,
    start: int,
    end: int,
) -> Result<(u64, u64), DmErrorModel> {
    if target_count == 0 {
        Err(
            DmErrorModel::Usage(
                "DM_TABLE_STATUS returned no targets (device has no live table)"@,
            ),
        )
    } else if start + DM_TARGET_SPEC_SIZE > end {
        Err(DmErrorModel::Usage("DM_TABLE_STATUS reply truncated before status string"@))
    } else {
        let status = until_nul(buffer.subrange(start + DM_TARGET_SPEC_SIZE, end));
        if !valid_utf8(status) {
            Err(DmErrorModel::Usage("DM_TABLE_STATUS status string is not UTF-8"@))
        } else {
            line_outcome(decode_utf8(status))
        }
    }
}

/// Parses a usage token.
fn parse_usage(token: &str) -> (r: Result<(u64, u64), DmError>)
    ensures
        outcome(r) == usage_of(token@),
{
    let text = chars_of(token);
    let mut slash: usize = 0;
    assert(text@.skip(0) =~= text@);
    while slash < text.len() && text[slash] != '/'
        invariant
            slash <= text.len(),
            first_index(text@, '/') == slash + first_index(text@.skip(slash as int), '/'),
        decreases text.len() - slash,
    {
        assert(text@.skip(slash as int).drop_first() =~= text@.skip(slash + 1));
        slash += 1;
    }
    assert(first_index(text@, '/') == slash);
    if slash == text.len() {
        let mut message = "dm-snapshot status token ".to_string();
        message.append(&quoted(token));
        message.append(" is not '<allocated>/<total>' (device may not be a snapshot)");
        return Err(DmError::Usage(message));
    }
    let ghost allocated_text = token@.take(slash as int);
    let ghost total_text = token@.skip(slash + 1);
    assert(text@.subrange(0, slash as int) =~= allocated_text);
    assert(text@.subrange(slash + 1, text@.len() as int) =~= total_text);
    let allocated: u64 = match parse_u64(&text, 0, slash) {
        Some(n) => n,
        None => {
            let mut message = "dm-snapshot allocated sectors not an integer: ".to_string();
            message.append(&quoted(token.substring_char(0, slash)));
            return Err(DmError::Usage(message));
        },
    };
    let total: u64 = match parse_u64(&text, slash + 1, text.len()) {
        Some(n) => n,
        None => {
            let mut message = "dm-snapshot total sectors not an integer: ".to_string();
            message.append(&quoted(token.substring_char(slash + 1, text.len())));
            return Err(DmError::Usage(message));
        },
    };
    Ok((allocated, total))
}

/// Parses a snapshot's status line into `(allocated_sectors, total_sectors)`.
pub fn parse_snapshot_status_line(status: &str) -> (r: Result<(u64, u64), DmError>)
    ensures
        outcome(r) == line_outcome(status@),
{
    let (from, to) = trim_range(&chars_of(status));
    let line = status.substring_char(from, to);
    if same(line, "Invalid") || same(line, "Overflow") {
        let mut message = "dm-snapshot status is '".to_string();
        message.append(line);
        message.append("' (snapshot is not usable)");
        return Err(DmError::Usage(message));
    }
    let ranges = word_ranges(&chars_of(line));
    if ranges.len() == 0 {
        let mut message = "dm-snapshot status line is empty: ".to_string();
        message.append(&quoted(status));
        return Err(DmError::Usage(message));
    }
    let (start, end) = ranges[0];
    assert(ranges@[0] == (start, end));
    parse_usage(line.substring_char(start, end))
}

/// Parses the status of the first target in a reply to `DM_TABLE_STATUS`. Its payload
/// starts at `data_start` in `bytes` and ends at `data_end`.
pub fn parse_snapshot_status(bytes: &[u8], target_count: u32, data_start: usize, data_end: usize) -> (r:
    Result<(u64, u64), DmError>)
    requires
        target_count == 0 || data_start + DM_TARGET_SPEC_SIZE > data_end || data_end <= bytes@.len(),
    ensures
        outcome(r) == status_outcome(bytes@, target_count, data_start as int, data_end as int),
{
    if target_count == 0 {
        return Err(
            DmError::Usage(
                "DM_TABLE_STATUS returned no targets (device has no live table)".to_string(),
            ),
        );
    }
    if data_end < DM_TARGET_SPEC_SIZE || data_start > data_end - DM_TARGET_SPEC_SIZE {
        return Err(
            DmError::Usage("DM_TABLE_STATUS reply truncated before status string".to_string()),
        );
    }
    let start: usize = data_start + DM_TARGET_SPEC_SIZE;
    let end = string_end(bytes, start, data_end);
    match utf8(vstd::slice::slice_subrange(bytes, start, end)) {
        None => Err(DmError::Usage("DM_TABLE_STATUS status string is not UTF-8".to_string())),
        Some(status) => parse_snapshot_status_line(status),
    }
}

/// What comes of an attempt to read the status.
#[derive(Debug, PartialEq, Eq)]
pub enum StatusStep {
    /// The buffer was too small: ask again with this much room behind the header.
    Again(usize),
    /// `(allocated_sectors, total_sectors)`.
    Usage(u64, u64),
}

/// What a reply to `DM_TABLE_STATUS` means, where the buffer had `cap` bytes behind
/// the header: a buffer that was too small is doubled, up to a limit.
pub open spec fn step_outcome(
    cap: usize,
    reply: Result<DmHeader, IoError>,
    buffer: Seq<u8>,
) -> Result<StatusStep, DmErrorModel> {
    match reply {
        Err(source) => Err(ioctl_fault("DM_TABLE_STATUS"@, source@)),
        Ok(header) => match version_fault(header, "DM_TABLE_STATUS"@) {
            Some(fault) => Err(fault),
            None => if header.inner.flags & DM_BUFFER_FULL_FLAG != 0 {
                if cap >= STATUS_MAX_CAP {
                    Err(
                        ioctl_fault(
                            "DM_TABLE_STATUS"@,
                            IoErrorModel {
                                kind: IoErrorKind::OutOfMemory,
                                text: "snapshot status exceeded 262144-byte buffer"@,
                            },
                        ),
                    )
                } else {
                    Ok(StatusStep::Again(larger_cap(cap as int) as usize))
                }
            } else {
                match status_outcome(
                    buffer,
                    header.inner.target_count,
                    header.inner.data_start as int,
                    payload_end(header, buffer),
                ) {
                    Ok((allocated, total)) => Ok(StatusStep::Usage(allocated, total)),
                    Err(fault) => Err(fault),
                }
            },
        },
    }
}

/// The room for the next attempt: twice as much, but not more than the limit.
pub open spec fn larger_cap(cap: int) -> int {
    if cap * 2 < STATUS_MAX_CAP {
        cap * 2
    } else {
        STATUS_MAX_CAP as int
    }
}

impl DmDevice {
    /// The request of `DM_TABLE_STATUS`, with `cap` bytes behind the header.
    pub fn status_request(&self, cap: usize) -> (r: Result<DmHeader, DmError>)
        requires
            cap <= STATUS_MAX_CAP,
        ensures
            is_request(r, self@.name, 0, DM_IOCTL_SIZE + cap, 0),
    {
        match DmHeader::new(self.name()) {
            Err(e) => Err(e),
            Ok(header) => {
                let mut header = header;
                header.set_data_size((DM_IOCTL_SIZE + cap) as u32);
                Ok(header)
            },
        }
    }

    /// Takes the reply to `DM_TABLE_STATUS` where the buffer had `cap` bytes behind the
    /// header. `buffer` is the whole buffer that the kernel filled.
    pub fn snapshot_allocated(&self, cap: usize, reply: Result<DmHeader, IoError>, buffer: &[u8]) -> (r:
        Result<StatusStep, DmError>)
        ensures
            outcome(r) == step_outcome(cap, reply, buffer@),
    {
        match reply {
            Err(source) => Err(DmError::DmIoctl { op: "DM_TABLE_STATUS", source, table_line: None }),
            Ok(header) => {
                match check_version(&header, "DM_TABLE_STATUS") {
                    Err(e) => {
                        return Err(e);
                    },
                    Ok(()) => {},
                }
                if header.inner.flags & DM_BUFFER_FULL_FLAG != 0 {
                    if cap >= STATUS_MAX_CAP {
                        return Err(
                            DmError::DmIoctl {
                                op: "DM_TABLE_STATUS",
                                source: IoError {
                                    kind: IoErrorKind::OutOfMemory,
                                    text: "snapshot status exceeded 262144-byte buffer".to_string(),
                                },
                                table_line: None,
                            },
                        );
                    }
                    let larger: usize = if cap * 2 < STATUS_MAX_CAP {
                        cap * 2
                    } else {
                        STATUS_MAX_CAP
                    };
                    return Ok(StatusStep::Again(larger));
                }
                let start: usize = header.inner.data_start as usize;
                let end: usize = if (header.inner.data_size as usize) < buffer.len() {
                    header.inner.data_size as usize
                } else {
                    buffer.len()
                };
                match parse_snapshot_status(buffer, header.inner.target_count, start, end) {
                    Ok((allocated, total)) => Ok(StatusStep::Usage(allocated, total)),
                    Err(e) => Err(e),
                }
            },
        }
    }
}

/// The room that attempt number `n` offers, counted from 0.
pub open spec fn attempt_cap(n: nat) -> int
    decreases n,
{
    if n == 0 {
        STATUS_INITIAL_CAP as int
    } else {
        larger_cap(attempt_cap((n - 1) as nat))
    }
}

/// A further attempt always offers more room, and after six of them there is no more
/// to offer.
pub proof fn law_status_attempts_end(n: nat)
    ensures
        0 < attempt_cap(n) <= STATUS_MAX_CAP,
        attempt_cap(n) < STATUS_MAX_CAP ==> attempt_cap(n) < attempt_cap(n + 1),
        n >= 6 ==> attempt_cap(n) == STATUS_MAX_CAP,
    decreases n,
{
    if n > 0 {
        law_status_attempts_end((n - 1) as nat);
        if n == 6 {
            reveal_with_fuel(attempt_cap, 8);
        }
    }
}

/// `c` does not stand in `s` before `i`, and does at `i`.
proof fn lemma_first_index(s: Seq<char>, c: char, i: int)
    requires
        0 <= i < s.len(),
        s[i] == c,
        forall|j: int| 0 <= j < i ==> #[trigger] s[j] != c,
    ensures
        first_index(s, c) == i,
    decreases s.len(),
{
    if i > 0 {
        let rest = s.drop_first();
        assert forall|j: int| 0 <= j < i - 1 implies #[trigger] rest[j] != c by {
            assert(rest[j] == s[j + 1]);
        }
        lemma_first_index(rest, c, i - 1);
    }
}

/// The usage of a snapshot, as its status writes it.
pub open spec fn usage_text(allocated: u64, total: u64) -> Seq<char> {
    decimal(allocated as nat).push('/') + decimal(total as nat)
}

/// The usage of a snapshot is one word, and reads back.
proof fn lemma_usage_reads_back(allocated: u64, total: u64)
    ensures
        is_word(usage_text(allocated, total)),
        is_digit(usage_text(allocated, total)[0]),
        usage_of(usage_text(allocated, total)) == Ok::<(u64, u64), DmErrorModel>((allocated, total)),
{
    let a = decimal(allocated as nat);
    let t = decimal(total as nat);
    let token = usage_text(allocated, total);
    lemma_decimal(allocated as nat);
    lemma_decimal(total as nat);
    assert forall|i: int| 0 <= i < token.len() implies !is_white_space(#[trigger] token[i]) by {
        if i < a.len() {
            assert(is_digit(a[i]));
        } else if i > a.len() {
            assert(is_digit(t[i - a.len() - 1]));
        }
    }
    assert(is_digit(a[0]));
    assert(token[0] == a[0]);
    assert forall|j: int| 0 <= j < a.len() implies #[trigger] token[j] != '/' by {
        assert(is_digit(a[j]));
    }
    lemma_first_index(token, '/', a.len() as int);
    assert(token.take(a.len() as int) =~= a);
    assert(token.skip(a.len() as int + 1) =~= t);
    law_decimal_reads_back(allocated);
    law_decimal_reads_back(total);
}

/// A status line whose first word is the usage of a snapshot says that usage, whatever
/// white space stands before and behind it and whatever metadata follow.
pub proof fn law_status_line_reads_back(
    allocated: u64,
    total: u64,
    lead: Seq<char>,
    gap: Seq<char>,
    rest: Seq<char>,
)
    requires
        is_blank(lead),
        is_blank(gap),
        gap.len() > 0 || rest.len() == 0,
    ensures
        line_outcome(lead + usage_text(allocated, total) + gap + rest) == Ok::<
            (u64, u64),
            DmErrorModel,
        >((allocated, total)),
{
    let token = usage_text(allocated, total);
    let tail = token + gap + rest;
    let status = lead + token + gap + rest;
    lemma_usage_reads_back(allocated, total);
    lemma_word_alone(token);
    if gap.len() > 0 {
        let after = gap.drop_first() + rest;
        assert(tail =~= token.push(gap[0]) + after);
        lemma_words_around(token, gap[0], after);
    } else {
        assert(tail =~= token);
    }
    assert(words(tail)[0] == token);
    lemma_words_after_blank(lead, tail);
    assert(status =~= lead + tail);
    lemma_words_of_trimmed(status);
    reveal_strlit("Invalid");
    reveal_strlit("Overflow");
    if trim(status) == "Invalid"@ {
        lemma_word_alone("Invalid"@);
    }
    if trim(status) == "Overflow"@ {
        lemma_word_alone("Overflow"@);
    }
}

/// A status line is read as its first word has it: the usage where that is
/// `<allocated>/<total>`, and an error where it is not; `Invalid` and `Overflow` alone are
/// told as what they are. White space round it makes no difference.
pub proof fn law_status_lines_are_read(
    status: &str,
    r: Result<(u64, u64), DmError>,
    lead: Seq<char>,
    gap: Seq<char>,
    rest: Seq<char>,
    word: Seq<char>,
    allocated: Seq<char>,
    total: Seq<char>,
)
    requires
        call_ensures(parse_snapshot_status_line, (status,), r),
        is_blank(lead),
        is_blank(gap),
        gap.len() > 0 || rest.len() == 0,
        is_word(word),
    ensures
        status@ == lead + "Invalid"@ + gap ==> r is Err && r->Err_0@ == DmErrorModel::Usage(
            "dm-snapshot status is '"@ + "Invalid"@ + "' (snapshot is not usable)"@,
        ),
        status@ == lead + "Overflow"@ + gap ==> r is Err && r->Err_0@ == DmErrorModel::Usage(
            "dm-snapshot status is '"@ + "Overflow"@ + "' (snapshot is not usable)"@,
        ),
        status@ == lead ==> r is Err && r->Err_0@ == DmErrorModel::Usage(
            "dm-snapshot status line is empty: "@ + debug_text(status@),
        ),
        status@ == lead + word + gap + rest && !word.contains('/') ==> r is Err && r->Err_0@ is Usage,
        status@ == lead + word + gap + rest && !word.contains('/') && word != "Invalid"@ && word
            != "Overflow"@ ==> r->Err_0@ == DmErrorModel::Usage(
            "dm-snapshot status token "@ + debug_text(word)
                + " is not '<allocated>/<total>' (device may not be a snapshot)"@,
        ),
        status@ == lead + word + gap + rest && word == allocated + seq!['/'] + total
            && !allocated.contains('/') ==> {
            &&& r is Ok <==> parsed_u64(allocated) is Some && parsed_u64(total) is Some
            &&& r is Ok ==> r->Ok_0 == (parsed_u64(allocated)->0, parsed_u64(total)->0)
            &&& parsed_u64(allocated) is None ==> r->Err_0@ == DmErrorModel::Usage(
                "dm-snapshot allocated sectors not an integer: "@ + debug_text(allocated),
            )
            &&& parsed_u64(allocated) is Some && parsed_u64(total) is None ==> r->Err_0@
                == DmErrorModel::Usage(
                "dm-snapshot total sectors not an integer: "@ + debug_text(total),
            )
        },
{
    let line = trim(status@);
    reveal_strlit("Invalid");
    reveal_strlit("Overflow");
    lemma_words_of_trimmed(status@);
    lemma_names_are_words();
    if status@ == lead + "Invalid"@ + gap {
        lemma_trimmed_word(lead, "Invalid"@, gap);
    }
    if status@ == lead + "Overflow"@ + gap {
        lemma_trimmed_word(lead, "Overflow"@, gap);
    }
    if status@ == lead {
        lemma_word_alone("Invalid"@);
        lemma_word_alone("Overflow"@);
        lemma_words_after_blank(lead, Seq::empty());
        assert(lead + Seq::<char>::empty() =~= lead);
        assert(words(Seq::<char>::empty()) =~= Seq::<Seq<char>>::empty());
    }
    if status@ == lead + word + gap + rest {
        lemma_first_word(lead, word, gap, rest);
        assert(words(line)[0] == word);
        if !word.contains('/') {
            lemma_no_index(word, '/');
            if line == "Invalid"@ {
                lemma_word_alone("Invalid"@);
            }
            if line == "Overflow"@ {
                lemma_word_alone("Overflow"@);
            }
        }
        if word == allocated + seq!['/'] + total && !allocated.contains('/') {
            assert forall|j: int| 0 <= j < allocated.len() implies #[trigger] word[j] != '/' by {
                assert(word[j] == allocated[j]);
                assert(allocated.contains(allocated[j]));
            }
            lemma_first_index(word, '/', allocated.len() as int);
            assert(word.take(allocated.len() as int) =~= allocated);
            assert(word.skip(allocated.len() as int + 1) =~= total);
            if line == "Invalid"@ {
                lemma_word_alone("Invalid"@);
                assert(word[allocated.len() as int] == '/');
            }
            if line == "Overflow"@ {
                lemma_word_alone("Overflow"@);
                assert(word[allocated.len() as int] == '/');
            }
        }
    }
}

/// `Invalid` and `Overflow` are words without a `/`.
proof fn lemma_names_are_words()
    ensures
        is_word("Invalid"@),
        is_word("Overflow"@),
        !"Invalid"@.contains('/'),
        !"Overflow"@.contains('/'),
{
    reveal_strlit("Invalid");
    reveal_strlit("Overflow");
    let a = "Invalid"@;
    let b = "Overflow"@;
    assert forall|i: int| 0 <= i < a.len() implies !is_white_space(#[trigger] a[i]) && a[i] != '/' by {
        assert(i == 0 || i == 1 || i == 2 || i == 3 || i == 4 || i == 5 || i == 6);
    }
    assert forall|i: int| 0 <= i < b.len() implies !is_white_space(#[trigger] b[i]) && b[i] != '/' by {
        assert(i == 0 || i == 1 || i == 2 || i == 3 || i == 4 || i == 5 || i == 6 || i == 7);
    }
}

proof fn lemma_no_index(s: Seq<char>, c: char)
    requires
        !s.contains(c),
    ensures
        first_index(s, c) == s.len(),
    decreases s.len(),
{
    if s.len() > 0 {
        let rest = s.drop_first();
        assert forall|i: int| 0 <= i < rest.len() implies rest[i] != c by {
            assert(rest[i] == s[i + 1]);
            assert(s.contains(s[i + 1]));
        }
        assert(s.contains(s[0]));
        lemma_no_index(rest, c);
    }
}

/// The first word of a line.
proof fn lemma_first_word(lead: Seq<char>, word: Seq<char>, gap: Seq<char>, rest: Seq<char>)
    requires
        is_blank(lead),
        is_blank(gap),
        gap.len() > 0 || rest.len() == 0,
        is_word(word),
    ensures
        words(lead + word + gap + rest).len() > 0,
        words(lead + word + gap + rest)[0] == word,
{
    let tail = word + gap + rest;
    lemma_word_alone(word);
    if gap.len() > 0 {
        let after = gap.drop_first() + rest;
        assert(tail =~= word.push(gap[0]) + after);
        lemma_words_around(word, gap[0], after);
    } else {
        assert(tail =~= word);
    }
    lemma_words_after_blank(lead, tail);
    assert(lead + word + gap + rest =~= lead + tail);
}

/// White space round a word is trimmed away.
proof fn lemma_trimmed_word(lead: Seq<char>, word: Seq<char>, gap: Seq<char>)
    requires
        is_blank(lead),
        is_blank(gap),
        is_word(word),
    ensures
        trim(lead + word + gap) == word,
    decreases lead.len(), gap.len(),
{
    let all = lead + word + gap;
    if lead.len() > 0 {
        let rest = lead.drop_first();
        assert forall|i: int| 0 <= i < rest.len() implies is_white_space(#[trigger] rest[i]) by {
            assert(rest[i] == lead[i + 1]);
        }
        lemma_trimmed_word(rest, word, gap);
        assert(all.drop_first() =~= rest + word + gap);
        assert(all[0] == lead[0]);
    } else {
        assert(all =~= word + gap);
        assert(all[0] == word[0]);
        assert(trim_start(all) == all);
        lemma_trimmed_end(word, gap);
    }
}

proof fn lemma_trimmed_end(word: Seq<char>, gap: Seq<char>)
    requires
        is_blank(gap),
        is_word(word),
    ensures
        trim_end(word + gap) == word,
    decreases gap.len(),
{
    let all = word + gap;
    if gap.len() > 0 {
        let front = gap.drop_last();
        assert forall|i: int| 0 <= i < front.len() implies is_white_space(#[trigger] front[i]) by {
            assert(front[i] == gap[i]);
        }
        lemma_trimmed_end(word, front);
        assert(all.drop_last() =~= word + front);
        assert(all.last() == gap[gap.len() - 1]);
    } else {
        assert(all =~= word);
        assert(all.last() == word[word.len() - 1]);
    }
}

/// The status of the first target is the string behind its 40 bytes, up to the NUL or the
/// end, and is read as a status line; without a target, or with no room for one, there is
/// none.
pub proof fn law_status_is_behind_the_target(
    bytes: &[u8],
    target_count: u32,
    data_start: usize,
    data_end: usize,
    r: Result<(u64, u64), DmError>,
    line: Seq<char>,
    bad: Seq<u8>,
    rest: Seq<u8>,
)
    requires
        !bad.contains(0u8),
        call_ensures(parse_snapshot_status, (bytes, target_count, data_start, data_end), r),
        data_end <= bytes@.len(),
        !encode_utf8(line).contains(0u8),
    ensures
        target_count == 0 ==> r is Err && r->Err_0@ == DmErrorModel::Usage(
            "DM_TABLE_STATUS returned no targets (device has no live table)"@,
        ),
        target_count > 0 && data_start + 40 > data_end ==> r is Err && r->Err_0@
            == DmErrorModel::Usage("DM_TABLE_STATUS reply truncated before status string"@),
        target_count > 0 && data_start + 40 <= data_end && (bytes@.subrange(
            data_start + 40,
            data_end as int,
        ) == bad || bytes@.subrange(data_start + 40, data_end as int) == bad.push(0u8) + rest)
            && !valid_utf8(bad) ==> r is Err && r->Err_0@ == DmErrorModel::Usage(
            "DM_TABLE_STATUS status string is not UTF-8"@,
        ),
        target_count > 0 && data_start + 40 <= data_end && (bytes@.subrange(
            data_start + 40,
            data_end as int,
        ) == encode_utf8(line) || bytes@.subrange(data_start + 40, data_end as int) == encode_utf8(
            line,
        ).push(0u8) + rest) ==> outcome(r) == line_outcome(line),
{
    law_strings_end_at_the_first_nul(encode_utf8(line), rest);
    law_strings_end_at_the_first_nul(bad, rest);
    vstd::utf8::encode_utf8_valid_utf8(line);
    vstd::utf8::encode_utf8_decode_utf8(line);
}

/// What an attempt to read the status comes to: where the buffer was too small, twice the
/// room is offered, up to 256 KiB, and then it is an error; else the status is read, up to
/// the end that the kernel gives or that of the buffer. The first attempt offers 4 KiB.
pub proof fn law_attempts_double_their_room(
    device: &DmDevice,
    cap: usize,
    reply: Result<DmHeader, IoError>,
    buffer: &[u8],
    r: Result<StatusStep, DmError>,
    end: usize,
    parsed: Result<(u64, u64), DmError>,
    request: Result<DmHeader, DmError>,
)
    requires
        call_ensures(DmDevice::snapshot_allocated, (device, cap, reply, buffer), r),
        call_ensures(DmDevice::status_request, (device, cap), request),
        reply is Ok ==> end <= reply->Ok_0.inner.data_size && end <= buffer@.len() && (end
            == reply->Ok_0.inner.data_size || end == buffer@.len()) && call_ensures(
            parse_snapshot_status,
            (
                buffer,
                reply->Ok_0.inner.target_count,
                reply->Ok_0.inner.data_start as usize,
                end,
            ),
            parsed,
        ),
    ensures
        STATUS_INITIAL_CAP == 4 * 1024 && STATUS_MAX_CAP == 256 * 1024,
        is_request(request, device@.name, 0, 312 + cap, 0),
        reply is Err ==> r is Err && r->Err_0@ == (DmErrorModel::DmIoctl {
            op: "DM_TABLE_STATUS"@,
            source: reply->Err_0@,
            table_line: None,
        }),
        reply is Ok && reply->Ok_0.inner.version@[0] != 4 ==> r is Err && Some(r->Err_0@)
            == version_fault(reply->Ok_0, "DM_TABLE_STATUS"@) && r->Err_0@->source.kind
            == IoErrorKind::Unsupported,
        reply is Ok && reply->Ok_0.inner.version@[0] == 4 && reply->Ok_0.inner.flags & 256 != 0 ==> {
            &&& cap * 2 <= 256 * 1024 ==> r == Ok::<StatusStep, DmError>(
                StatusStep::Again((cap * 2) as usize),
            )
            &&& cap < 256 * 1024 < cap * 2 ==> r == Ok::<StatusStep, DmError>(
                StatusStep::Again(262144),
            )
            &&& cap >= 256 * 1024 ==> r is Err && r->Err_0@ == (DmErrorModel::DmIoctl {
                op: "DM_TABLE_STATUS"@,
                source: IoErrorModel {
                    kind: IoErrorKind::OutOfMemory,
                    text: "snapshot status exceeded 262144-byte buffer"@,
                },
                table_line: None,
            })
        },
        reply is Ok && reply->Ok_0.inner.version@[0] == 4 && reply->Ok_0.inner.flags & 256 == 0 ==> {
            &&& parsed is Ok ==> r == Ok::<StatusStep, DmError>(
                StatusStep::Usage(parsed->Ok_0.0, parsed->Ok_0.1),
            )
            &&& parsed is Err ==> r is Err && r->Err_0@ == parsed->Err_0@
        },
{
    if reply is Ok {
        assert(end == payload_end(reply->Ok_0, buffer@));
    }
}

} // verus!
