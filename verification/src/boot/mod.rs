//! The initramfs init: what to read off the kernel command line, and when to wait.
//!
//! As init, carapace mounts the API filesystems, loads the modules ([`modules`]),
//! reads the command line, attaches the carapace and pivots into it ([`steps`]).

use vstd::prelude::*;
use vstd::string::*;

use crate::error::CarapaceError;
use crate::text::{
    chars_of, debug_text, has_prefix, is_white_space, is_word, lemma_word_alone, lemma_words_around, quoted, same,
    stands_at, word_ranges, words,
};

pub mod modules;
pub mod steps;
pub mod sys;

verus! {

/// How long to wait for the partitions to appear.
pub const PARTITION_WAIT_SECS: u64 = 5;

/// How long to pause between two attempts to attach.
pub const RETRY_PAUSE_MS: u64 = 5;

/// What follows the last `/` of a path; all of it where there is none.
pub open spec fn last_part(path: Seq<char>) -> Seq<char>
    decreases path.len(),
{
    if path.len() == 0 || path.last() == '/' {
        Seq::empty()
    } else {
        last_part(path.drop_last()).push(path.last())
    }
}

/// The file name in a path: its last part that is neither empty nor `.`. A path that
/// ends in `..`, or has no such part, has none.
pub open spec fn file_name(path: Seq<char>) -> Option<Seq<char>>
    decreases path.len(),
{
    let part = last_part(path);
    if path.len() == 0 {
        None
    } else if path.last() == '/' {
        file_name(path.drop_last())
    } else if part == seq!['.'] {
        file_name(path.drop_last())
    } else if part == seq!['.', '.'] {
        None
    } else {
        Some(part)
    }
}

/// Carapace was started as init: as `/init`, or under any path with that file name.
pub open spec fn is_init(arg0: Seq<char>) -> bool {
    arg0 == "/init"@ || file_name(arg0) == Some("init"@)
}

/// What a word of the command line assigns to `key`, if it is `key=` and something
/// more.
pub open spec fn assigned(word: Seq<char>, key: Seq<char>) -> Option<Seq<char>> {
    if has_prefix(word, key.push('=')) && word.len() > key.len() + 1 {
        Some(word.skip(key.len() as int + 1))
    } else {
        None
    }
}

/// What the last of `words` that assigns something to `key` assigns to it.
pub open spec fn last_assigned(words: Seq<Seq<char>>, key: Seq<char>) -> Option<Seq<char>>
    decreases words.len(),
{
    if words.len() == 0 {
        None
    } else {
        match assigned(words.last(), key) {
            Some(v) => Some(v),
            None => last_assigned(words.drop_last(), key),
        }
    }
}

/// The value of `key` on a command line.
pub open spec fn cmdline_value(cmdline: Seq<char>, key: Seq<char>) -> Option<Seq<char>> {
    last_assigned(words(cmdline), key)
}

/// A word sets the flag `key`: it is `key`, or `key=` and whatever.
pub open spec fn sets_flag(word: Seq<char>, key: Seq<char>) -> bool {
    word == key || has_prefix(word, key.push('='))
}

/// The flag `key` is set on a command line.
pub open spec fn cmdline_flag(cmdline: Seq<char>, key: Seq<char>) -> bool {
    exists|i: int| 0 <= i < words(cmdline).len() && sets_flag(#[trigger] words(cmdline)[i], key)
}

/// A digit of a hash: a hexadecimal digit in lower case.
pub open spec fn is_hash_digit(c: char) -> bool {
    '0' <= c <= '9' || 'a' <= c <= 'f'
}

/// A hash that can be a chain's root: at least 64 hexadecimal digits in lower case.
pub open spec fn is_root_hash(hash: Seq<char>) -> bool {
    hash.len() >= 64 && forall|i: int| 0 <= i < hash.len() ==> is_hash_digit(#[trigger] hash[i])
}

/// What is to be booted.
#[derive(Debug, PartialEq, Eq)]
pub struct BootPlan {
    /// The root hash of the chain.
    pub hash: String,
    /// The type of the filesystem on it.
    pub rootfstype: String,
    /// The real init.
    pub init: String,
    /// Whether the timing marker is to be printed.
    pub timing: bool,
}

/// What a [`BootPlan`] holds.
pub struct BootPlanModel {
    pub hash: Seq<char>,
    pub rootfstype: Seq<char>,
    pub init: Seq<char>,
    pub timing: bool,
}

impl View for BootPlan {
    type V = BootPlanModel;

    open spec fn view(&self) -> BootPlanModel {
        BootPlanModel {
            hash: self.hash@,
            rootfstype: self.rootfstype@,
            init: self.init@,
            timing: self.timing,
        }
    }
}

/// `value`, or `default` where there is none.
pub open spec fn or_default(value: Option<Seq<char>>, default: Seq<char>) -> Seq<char> {
    match value {
        Some(v) => v,
        None => default,
    }
}

/// The hash on a command line: `carapacehash=`, else `root.carapace=`.
pub open spec fn cmdline_hash(cmdline: Seq<char>) -> Option<Seq<char>> {
    match cmdline_value(cmdline, "carapacehash"@) {
        Some(hash) => Some(hash),
        None => cmdline_value(cmdline, "root.carapace"@),
    }
}

/// What a command line says is to be booted.
pub open spec fn plan_of(cmdline: Seq<char>) -> Result<BootPlanModel, Seq<char>> {
    match cmdline_hash(cmdline) {
        None => Err("no carapacehash= on the kernel command line"@),
        Some(hash) => if !is_root_hash(hash) {
            Err(
                "carapacehash must be lowercase hex of at least 64 chars, got "@ + debug_text(hash),
            )
        } else {
            Ok(
                BootPlanModel {
                    hash,
                    rootfstype: or_default(cmdline_value(cmdline, "rootfstype"@), "ext4"@),
                    init: or_default(cmdline_value(cmdline, "init"@), "/sbin/init"@),
                    timing: cmdline_flag(cmdline, "carapace.timing"@),
                },
            )
        },
    }
}

/// Finds the part of `path[..end]` that follows its last `/`.
fn part_start(path: &Vec<char>, end: usize) -> (r: usize)
    requires
        end <= path.len(),
    ensures
        r <= end,
        path@.subrange(r as int, end as int) == last_part(path@.take(end as int)),
{
    let mut start: usize = end;
    assert(path@.take(end as int) =~= path@.take(start as int) + path@.subrange(start as int, end as int));
    assert(last_part(path@.take(end as int)) =~= last_part(path@.take(start as int)) + path@.subrange(
        start as int,
        end as int,
    ));
    while start > 0 && path[start - 1] != '/'
        invariant
            start <= end <= path.len(),
            last_part(path@.take(end as int)) == last_part(path@.take(start as int))
                + path@.subrange(start as int, end as int),
        decreases start,
    {
        assert(path@.take(start as int).drop_last() =~= path@.take(start - 1));
        assert(path@.take(start as int).last() == path[start - 1]);
        assert(last_part(path@.take(start - 1)).push(path[start - 1]) + path@.subrange(
            start as int,
            end as int,
        ) =~= last_part(path@.take(start - 1)) + path@.subrange(start - 1, end as int));
        start -= 1;
    }
    assert(last_part(path@.take(start as int)) =~= Seq::<char>::empty());
    assert(Seq::<char>::empty() + path@.subrange(start as int, end as int) =~= path@.subrange(
        start as int,
        end as int,
    ));
    start
}

/// Whether the file name in `path` is `name`.
fn has_file_name(path: &str, name: &str) -> (r: bool)
    ensures
        r == (file_name(path@) == Some(name@)),
{
    let text = chars_of(path);
    let mut end: usize = text.len();
    assert(text@.take(end as int) =~= text@);
    while end > 0
        invariant
            end <= text.len(),
            text@ == path@,
            file_name(text@) == file_name(text@.take(end as int)),
        decreases end,
    {
        let ghost front = text@.take(end as int);
        assert(front.drop_last() =~= text@.take(end - 1));
        assert(front.last() == text[end - 1]);
        if text[end - 1] == '/' {
            end -= 1;
        } else {
            let start = part_start(&text, end);
            let ghost part = text@.subrange(start as int, end as int);
            assert(part == last_part(front));
            if end - start == 1 && text[start] == '.' {
                assert(part =~= seq!['.']);
                end -= 1;
            } else if end - start == 2 && text[start] == '.' && text[start + 1] == '.' {
                assert(part =~= seq!['.', '.']);
                return false;
            } else {
                assert(part != seq!['.']) by {
                    if part == seq!['.'] {
                        assert(part[0] == text[start as int]);
                    }
                }
                assert(part != seq!['.', '.']) by {
                    if part == seq!['.', '.'] {
                        assert(part[0] == text[start as int]);
                        assert(part[1] == text[start + 1]);
                    }
                }
                return same(path.substring_char(start, end), name);
            }
        }
    }
    false
}

/// Whether carapace was started as init, under `arg0`.
pub fn invoked_as_init(arg0: &str) -> (r: bool)
    ensures
        r == is_init(arg0@),
{
    same(arg0, "/init") || has_file_name(arg0, "init")
}

/// The value of `key` on the kernel command line: the last one that is not empty.
pub fn value<'a>(cmdline: &'a str, key: &str) -> (r: Option<&'a str>)
    ensures
        match cmdline_value(cmdline@, key@) {
            Some(v) => r is Some && r->0@ == v,
            None => r is None,
        },
{
    let text = chars_of(cmdline);
    let ranges = word_ranges(&text);
    let mut prefix = chars_of(key);
    prefix.push('=');
    let mut i: usize = ranges.len();
    assert(words(cmdline@).take(i as int) =~= words(cmdline@));
    while i > 0
        invariant
            i <= ranges.len() == words(cmdline@).len(),
            text@ == cmdline@,
            crate::text::are_words(ranges@, cmdline@),
            prefix@ == key@.push('='),
            cmdline_value(cmdline@, key@) == last_assigned(words(cmdline@).take(i as int), key@),
        decreases i,
    {
        let ghost seen = words(cmdline@).take(i as int);
        i -= 1;
        let (from, to) = ranges[i];
        let ghost word = words(cmdline@)[i as int];
        assert(ranges@[i as int] == (from, to));
        assert(seen.last() == word);
        assert(seen.drop_last() =~= words(cmdline@).take(i as int));
        assert(word == text@.subrange(from as int, to as int));
        if to - from > prefix.len() && stands_at(&text, from, &prefix) {
            assert(word.take(prefix.len() as int) =~= text@.subrange(
                from as int,
                from + prefix.len(),
            ));
            let found = cmdline.substring_char(from + prefix.len(), to);
            assert(found@ =~= word.skip(prefix.len() as int));
            return Some(found);
        }
        assert(assigned(word, key@) is None) by {
            if assigned(word, key@) is Some {
                assert(text@.subrange(from as int, from + prefix.len()) =~= word.take(
                    prefix.len() as int,
                ));
            }
        }
    }
    None
}

/// Whether the flag `key` is on the kernel command line, alone or with a value.
pub fn has_flag(cmdline: &str, key: &str) -> (r: bool)
    ensures
        r == cmdline_flag(cmdline@, key@),
{
    let text = chars_of(cmdline);
    let ranges = word_ranges(&text);
    let mut prefix = chars_of(key);
    prefix.push('=');
    let mut i: usize = 0;
    while i < ranges.len()
        invariant
            i <= ranges.len() == words(cmdline@).len(),
            text@ == cmdline@,
            crate::text::are_words(ranges@, cmdline@),
            prefix@ == key@.push('='),
            forall|j: int| 0 <= j < i ==> !sets_flag(#[trigger] words(cmdline@)[j], key@),
        decreases ranges.len() - i,
    {
        let (from, to) = ranges[i];
        let ghost word = words(cmdline@)[i as int];
        assert(ranges@[i as int] == (from, to));
        assert(word == text@.subrange(from as int, to as int));
        let bare = same(cmdline.substring_char(from, to), key);
        let valued = to - from >= prefix.len() && stands_at(&text, from, &prefix);
        assert(word.len() >= prefix.len() ==> word.take(prefix.len() as int)
            =~= text@.subrange(from as int, from + prefix.len()));
        if bare || valued {
            assert(sets_flag(words(cmdline@)[i as int], key@));
            return true;
        }
        i += 1;
    }
    false
}

/// Whether `hash` can be a chain's root.
fn root_hash(hash: &str) -> (r: bool)
    ensures
        r == is_root_hash(hash@),
{
    let text = chars_of(hash);
    if text.len() < 64 {
        return false;
    }
    let mut i: usize = 0;
    while i < text.len()
        invariant
            i <= text.len(),
            text@ == hash@,
            forall|j: int| 0 <= j < i ==> is_hash_digit(#[trigger] hash@[j]),
        decreases text.len() - i,
    {
        let c = text[i];
        if !(('0' <= c && c <= '9') || ('a' <= c && c <= 'f')) {
            assert(!is_hash_digit(hash@[i as int]));
            return false;
        }
        i += 1;
    }
    true
}

/// Reads off the kernel command line what is to be booted.
pub fn boot(cmdline: &str) -> (r: Result<BootPlan, String>)
    ensures
        match plan_of(cmdline@) {
            Ok(plan) => r is Ok && r->Ok_0@ == plan,
            Err(text) => r is Err && r->Err_0@ == text,
        },
{
    let found = match value(cmdline, "carapacehash") {
        Some(hash) => Some(hash),
        None => value(cmdline, "root.carapace"),
    };
    let hash = match found {
        Some(hash) => hash,
        None => {
            return Err("no carapacehash= on the kernel command line".to_string());
        },
    };
    if !root_hash(hash) {
        let mut text = "carapacehash must be lowercase hex of at least 64 chars, got ".to_string();
        text.append(&quoted(hash));
        return Err(text);
    }
    let rootfstype = match value(cmdline, "rootfstype") {
        Some(v) => v.to_string(),
        None => "ext4".to_string(),
    };
    let init = match value(cmdline, "init") {
        Some(v) => v.to_string(),
        None => "/sbin/init".to_string(),
    };
    let timing = has_flag(cmdline, "carapace.timing");
    Ok(BootPlan { hash: hash.to_string(), rootfstype, init, timing })
}

/// A missing partition may still be waited for, so long after the first attempt.
pub open spec fn before_deadline(elapsed_ms: u64) -> bool {
    elapsed_ms < PARTITION_WAIT_SECS * 1000
}

/// Whether a missing partition may still be waited for, so long after the first attempt:
/// for less than five seconds.
pub fn may_wait(elapsed_ms: u64) -> (r: bool)
    ensures
        r == before_deadline(elapsed_ms),
        r == (elapsed_ms < 5000),
{
    elapsed_ms < PARTITION_WAIT_SECS * 1000
}

/// What to do after an attempt to attach.
#[derive(Debug, PartialEq, Eq)]
pub enum Attempt {
    /// It is attached.
    Attached,
    /// Pause for so long, and try again.
    Wait { pause_ms: u64 },
    /// Fail with this text.
    GiveUp(String),
}

/// Whether an error says that a partition is not there.
pub fn is_partition_not_found(e: &CarapaceError) -> (r: bool)
    ensures
        r == (e is PartitionNotFound),
{
    match e {
        CarapaceError::PartitionNotFound { .. } => true,
        _ => false,
    }
}

/// Decides after an attempt to attach, whose error reads `rendered`. Only a partition
/// that is not there is waited for, and only before the deadline, `elapsed_ms` having
/// passed since the first attempt.
pub fn attach_with_retry(error: Option<&CarapaceError>, rendered: &str, elapsed_ms: u64) -> (r:
    Attempt)
    ensures
        match error {
            None => r is Attached,
            Some(e) => if e is PartitionNotFound && before_deadline(elapsed_ms) {
                r == Attempt::Wait { pause_ms: RETRY_PAUSE_MS }
            } else {
                r is GiveUp && r->GiveUp_0@ == "carapace attach: "@ + rendered@
            },
        },
{
    match error {
        None => Attempt::Attached,
        Some(e) => {
            if is_partition_not_found(e) && may_wait(elapsed_ms) {
                return Attempt::Wait { pause_ms: RETRY_PAUSE_MS };
            }
            let mut text = "carapace attach: ".to_string();
            text.append(rendered);
            Attempt::GiveUp(text)
        },
    }
}

/// There is an end to waiting: after a thousand pauses the deadline has passed.
pub proof fn law_waiting_ends(pauses: nat, elapsed_ms: u64)
    requires
        elapsed_ms >= pauses * RETRY_PAUSE_MS,
        pauses >= 1000,
    ensures
        !before_deadline(elapsed_ms),
{
    assert(pauses * RETRY_PAUSE_MS >= 5000) by (nonlinear_arith)
        requires
            pauses >= 1000,
            RETRY_PAUSE_MS == 5,
    ;
}

/// The text that is written to the console before the machine is powered off.
pub open spec fn fatal_text(error: Seq<char>) -> Seq<char> {
    "\ncarapace init: FATAL: "@ + error + "\npowering off.\n"@
}

/// What to write to the console before the machine is powered off.
pub fn fatal_message(error: &str) -> (r: String)
    ensures
        r@ == fatal_text(error@),
{
    let mut text = "\ncarapace init: FATAL: ".to_string();
    text.append(error);
    text.append("\npowering off.\n");
    text
}

/// `s` holds no white space.
pub open spec fn is_solid(s: Seq<char>) -> bool {
    forall|i: int| 0 <= i < s.len() ==> !is_white_space(#[trigger] s[i])
}

/// A word that is appended to a command line becomes its last word.
proof fn lemma_appended_word(cmdline: Seq<char>, word: Seq<char>)
    requires
        is_word(word),
    ensures
        words(cmdline.push(' ') + word) == words(cmdline).push(word),
{
    lemma_words_around(cmdline, ' ', word);
    lemma_word_alone(word);
    assert(words(cmdline) + seq![word] =~= words(cmdline).push(word));
}

proof fn lemma_assignment(key: Seq<char>, v: Seq<char>)
    requires
        is_solid(key),
        is_solid(v),
    ensures
        is_word(key.push('=') + v),
        assigned(key.push('=') + v, key) == (if v.len() > 0 {
            Some(v)
        } else {
            None
        }),
{
    let word = key.push('=') + v;
    assert forall|i: int| 0 <= i < word.len() implies !is_white_space(#[trigger] word[i]) by {
        if i < key.len() {
            assert(word[i] == key[i]);
        } else if i > key.len() {
            assert(word[i] == v[i - key.len() - 1]);
        }
    }
    assert(word.take(key.len() as int + 1) =~= key.push('='));
    assert(word.skip(key.len() as int + 1) =~= v);
}

/// The last assignment to a key wins, whatever comes before it.
pub proof fn law_last_assignment_wins(cmdline: Seq<char>, key: Seq<char>, v: Seq<char>)
    requires
        is_solid(key),
        is_word(v),
    ensures
        cmdline_value(cmdline.push(' ') + (key.push('=') + v), key) == Some(v),
{
    lemma_assignment(key, v);
    lemma_appended_word(cmdline, key.push('=') + v);
}

/// An assignment of nothing changes nothing.
pub proof fn law_empty_assignment_is_ignored(cmdline: Seq<char>, key: Seq<char>)
    requires
        is_solid(key),
    ensures
        cmdline_value(cmdline.push(' ') + key.push('='), key) == cmdline_value(cmdline, key),
{
    lemma_assignment(key, Seq::empty());
    assert(key.push('=') + Seq::empty() =~= key.push('='));
    lemma_appended_word(cmdline, key.push('='));
    assert(words(cmdline).push(key.push('=')).drop_last() =~= words(cmdline));
}

/// An assignment to one key leaves the value of every other key as it is, also where
/// the one starts with the other.
pub proof fn law_keys_are_exact(cmdline: Seq<char>, other: Seq<char>, key: Seq<char>, v: Seq<char>)
    requires
        is_solid(other),
        is_solid(v),
        other != key,
        !other.contains('='),
        !key.contains('='),
    ensures
        cmdline_value(cmdline.push(' ') + (other.push('=') + v), key) == cmdline_value(cmdline, key),
{
    let word = other.push('=') + v;
    lemma_assignment(other, v);
    lemma_appended_word(cmdline, word);
    assert(words(cmdline).push(word).drop_last() =~= words(cmdline));
    let prefix = key.push('=');
    if has_prefix(word, prefix) {
        let n = key.len() as int;
        let m = other.len() as int;
        assert forall|i: int| 0 <= i <= n implies word[i] == #[trigger] prefix[i] by {
            assert(word.take(n + 1)[i] == word[i]);
        }
        assert(prefix[n] == '=');
        assert(word[m] == '=');
        if n < m {
            assert(other[n] == '=');
        } else if m < n {
            assert(prefix[m] == key[m]);
            assert(key[m] == '=');
        } else {
            assert forall|i: int| 0 <= i < n implies other[i] == key[i] by {
                assert(prefix[i] == key[i]);
            }
            assert(other =~= key);
        }
    }
}

/// A word that goes on after `key` with anything but a `=` does not set the flag.
pub proof fn law_flags_are_exact(key: Seq<char>, c: char, rest: Seq<char>)
    requires
        c != '=',
    ensures
        !sets_flag(key.push(c) + rest, key),
{
    let word = key.push(c) + rest;
    assert(word[key.len() as int] == c);
    if has_prefix(word, key.push('=')) {
        assert(word.take(key.len() as int + 1)[key.len() as int] == '=');
    }
}

/// A flag that is appended to a command line is set, alone or with a value.
pub proof fn law_appended_flag_is_set(cmdline: Seq<char>, key: Seq<char>, v: Seq<char>)
    requires
        is_word(key),
        is_solid(v),
    ensures
        cmdline_flag(cmdline.push(' ') + key, key),
        cmdline_flag(cmdline.push(' ') + (key.push('=') + v), key),
{
    let n = words(cmdline).len() as int;
    lemma_appended_word(cmdline, key);
    assert(sets_flag(words(cmdline.push(' ') + key)[n], key));
    let word = key.push('=') + v;
    lemma_assignment(key, v);
    lemma_appended_word(cmdline, word);
    assert(word.take(key.len() as int + 1) =~= key.push('='));
    assert(sets_flag(words(cmdline.push(' ') + word)[n], key));
}

/// A word that is neither one of the assignments nor the flag that are looked for, and
/// is appended to a command line, changes nothing of what is to be booted.
pub proof fn law_other_words_are_ignored(cmdline: Seq<char>, word: Seq<char>)
    requires
        is_word(word),
        assigned(word, "carapacehash"@) is None,
        assigned(word, "root.carapace"@) is None,
        assigned(word, "rootfstype"@) is None,
        assigned(word, "init"@) is None,
        !sets_flag(word, "carapace.timing"@),
    ensures
        plan_of(cmdline.push(' ') + word) == plan_of(cmdline),
{
    let longer = cmdline.push(' ') + word;
    let n = words(cmdline).len() as int;
    lemma_appended_word(cmdline, word);
    assert(words(longer).drop_last() =~= words(cmdline));
    let key = "carapace.timing"@;
    if cmdline_flag(cmdline, key) {
        let i = choose|i: int| 0 <= i < n && sets_flag(#[trigger] words(cmdline)[i], key);
        assert(sets_flag(words(longer)[i], key));
    }
    if cmdline_flag(longer, key) {
        let i = choose|i: int| 0 <= i < n + 1 && sets_flag(#[trigger] words(longer)[i], key);
        assert(i < n);
        assert(sets_flag(words(cmdline)[i], key));
    }
}

/// What is booted always has a root hash that can be a chain's.
pub proof fn law_plan_has_a_root_hash(cmdline: Seq<char>)
    ensures
        plan_of(cmdline) is Ok ==> is_root_hash(plan_of(cmdline)->Ok_0.hash),
        plan_of(cmdline) is Ok <==> cmdline_hash(cmdline) is Some && is_root_hash(
            cmdline_hash(cmdline)->0,
        ),
{
}

/// A value is looked up under its own key alone, and the last assignment that is not empty
/// is the one that counts; a flag is set by itself, or with whatever value.
pub proof fn law_lookups_find_what_is_appended(
    line: &str,
    longer: &str,
    key: &str,
    before: Option<&str>,
    after: Option<&str>,
    was_set: bool,
    is_set: bool,
    other: Seq<char>,
    v: Seq<char>,
)
    requires
        call_ensures(value, (line, key), before),
        call_ensures(value, (longer, key), after),
        call_ensures(has_flag, (line, key), was_set),
        call_ensures(has_flag, (longer, key), is_set),
        is_word(key@),
        is_word(other),
        is_solid(v),
        other != key@,
        !other.contains('='),
        !key@.contains('='),
    ensures
        longer@ == line@.push(' ') + (key@.push('=') + v) && v.len() > 0 ==> after is Some
            && after->0@ == v && is_set,
        longer@ == line@.push(' ') + key@.push('=') ==> is_set && (after is Some <==> before is Some)
            && (after is Some ==> after->0@ == before->0@),
        longer@ == line@.push(' ') + key@ ==> is_set && (after is Some <==> before is Some) && (
        after is Some ==> after->0@ == before->0@),
        longer@ == line@.push(' ') + (other.push('=') + v) || longer@ == line@.push(' ') + other ==> (
        is_set == was_set) && (after is Some <==> before is Some) && (after is Some ==> after->0@
            == before->0@),
        line@.len() == 0 ==> before is None && !was_set,
{
    let k = key@;
    if longer@ == line@.push(' ') + (k.push('=') + v) && v.len() > 0 {
        law_last_assignment_wins(line@, k, v);
        law_appended_flag_is_set(line@, k, v);
    }
    if longer@ == line@.push(' ') + k.push('=') {
        law_empty_assignment_is_ignored(line@, k);
        law_appended_flag_is_set(line@, k, Seq::empty());
        assert(k.push('=') + Seq::<char>::empty() =~= k.push('='));
    }
    if longer@ == line@.push(' ') + k {
        law_appended_flag_is_set(line@, k, v);
        lemma_appended_word(line@, k);
        assert(words(longer@).drop_last() =~= words(line@));
        assert(assigned(k, k) is None);
    }
    if longer@ == line@.push(' ') + (other.push('=') + v) {
        law_keys_are_exact(line@, other, k, v);
        lemma_assignment(other, v);
        let word = other.push('=') + v;
        lemma_appended_word(line@, word);
        assert(word.take(other.len() as int + 1) =~= other.push('='));
        lemma_other_word_sets_nothing(word, other, k);
        lemma_flag_of_longer(line@, word, k);
    }
    if longer@ == line@.push(' ') + other {
        lemma_appended_word(line@, other);
        assert(words(longer@).drop_last() =~= words(line@));
        assert(!has_prefix(other, k.push('='))) by {
            if has_prefix(other, k.push('=')) {
                assert(other.take(k.len() as int + 1)[k.len() as int] == '=');
                assert(other[k.len() as int] == '=');
            }
        }
        lemma_flag_of_longer(line@, other, k);
    }
    if line@.len() == 0 {
        assert(words(line@) =~= Seq::<Seq<char>>::empty());
    }
}

proof fn lemma_other_word_sets_nothing(word: Seq<char>, other: Seq<char>, key: Seq<char>)
    requires
        has_prefix(word, other.push('=')),
        other != key,
        !other.contains('='),
        !key.contains('='),
    ensures
        !sets_flag(word, key),
{
    let n = key.len() as int;
    let m = other.len() as int;
    assert forall|i: int| 0 <= i <= m implies word[i] == other.push('=')[i] by {
        assert(word.take(m + 1)[i] == word[i]);
    }
    assert(word[m] == '=');
    if word == key {
        assert(key[m] == '=');
    }
    if has_prefix(word, key.push('=')) {
        assert forall|i: int| 0 <= i <= n implies word[i] == key.push('=')[i] by {
            assert(word.take(n + 1)[i] == word[i]);
        }
        assert(word[n] == '=');
        if n < m {
            assert(other[n] == '=');
        } else if m < n {
            assert(key[m] == '=');
        } else {
            assert forall|i: int| 0 <= i < n implies other[i] == key[i] by {
                assert(word[i] == other.push('=')[i]);
                assert(word[i] == key.push('=')[i]);
            }
            assert(other =~= key);
        }
    }
}

proof fn lemma_flag_of_longer(line: Seq<char>, word: Seq<char>, key: Seq<char>)
    requires
        is_word(word),
        !sets_flag(word, key),
    ensures
        cmdline_flag(line.push(' ') + word, key) == cmdline_flag(line, key),
{
    let longer = line.push(' ') + word;
    let n = words(line).len() as int;
    lemma_appended_word(line, word);
    if cmdline_flag(line, key) {
        let i = choose|i: int| 0 <= i < n && sets_flag(#[trigger] words(line)[i], key);
        assert(sets_flag(words(longer)[i], key));
    }
    if cmdline_flag(longer, key) {
        let i = choose|i: int| 0 <= i < n + 1 && sets_flag(#[trigger] words(longer)[i], key);
        assert(i < n);
        assert(sets_flag(words(line)[i], key));
    }
}

/// `hash` is a text of 64 digits or more, each `0` to `9` or `a` to `f`.
pub proof fn law_root_hash_is_lower_case_hex(hash: Seq<char>)
    ensures
        is_root_hash(hash) <==> hash.len() >= 64 && forall|i: int|
            0 <= i < hash.len() ==> ('0' <= #[trigger] hash[i] && hash[i] <= '9') || ('a' <= hash[i]
                && hash[i] <= 'f'),
{
    if is_root_hash(hash) {
        assert forall|i: int| 0 <= i < hash.len() implies ('0' <= #[trigger] hash[i] && hash[i]
            <= '9') || ('a' <= hash[i] && hash[i] <= 'f') by {
            assert(is_hash_digit(hash[i]));
        }
    }
}

/// Each part of the plan is what its own key says, or its default, and depends on no other
/// key. The hash is `carapacehash`'s, and only where that has none, `root.carapace`'s.
pub proof fn law_each_key_has_its_own_part(
    line: &str,
    r: Result<BootPlan, String>,
    hash: Option<&str>,
    second: Option<&str>,
    fstype: Option<&str>,
    init: Option<&str>,
    timing: bool,
)
    requires
        call_ensures(boot, (line,), r),
        exists|k: &str| k@ == "carapacehash"@ && #[trigger] call_ensures(value, (line, k), hash),
        exists|k: &str| k@ == "root.carapace"@ && #[trigger] call_ensures(value, (line, k), second),
        exists|k: &str| k@ == "rootfstype"@ && #[trigger] call_ensures(value, (line, k), fstype),
        exists|k: &str| k@ == "init"@ && #[trigger] call_ensures(value, (line, k), init),
        exists|k: &str|
            k@ == "carapace.timing"@ && #[trigger] call_ensures(has_flag, (line, k), timing),
    ensures
        hash is None && second is None ==> r is Err && r->Err_0@
            == "no carapacehash= on the kernel command line"@,
        hash is Some ==> (r is Ok <==> is_root_hash(hash->0@)),
        hash is None && second is Some ==> (r is Ok <==> is_root_hash(second->0@)),
        r is Err && hash is Some ==> r->Err_0@
            == "carapacehash must be lowercase hex of at least 64 chars, got "@ + debug_text(
            hash->0@,
        ),
        r is Ok && hash is Some ==> r->Ok_0.hash@ == hash->0@,
        r is Ok && hash is None ==> r->Ok_0.hash@ == second->0@,
        r is Ok && fstype is Some ==> r->Ok_0.rootfstype@ == fstype->0@,
        r is Ok && fstype is None ==> r->Ok_0.rootfstype@ == "ext4"@,
        r is Ok && init is Some ==> r->Ok_0.init@ == init->0@,
        r is Ok && init is None ==> r->Ok_0.init@ == "/sbin/init"@,
        r is Ok ==> r->Ok_0.timing == timing,
{
}

/// One key that is appended to a command line changes its own part of the plan, and no
/// other, whatever else is there.
pub proof fn law_appended_key_changes_its_own_part(
    line: &str,
    longer: &str,
    r: Result<BootPlan, String>,
    s: Result<BootPlan, String>,
    v: Seq<char>,
)
    requires
        call_ensures(boot, (line,), r),
        call_ensures(boot, (longer,), s),
        is_word(v),
        r is Ok,
    ensures
        longer@ == line@ + " rootfstype="@ + v ==> s is Ok && s->Ok_0@ == (BootPlanModel {
            rootfstype: v,
            ..r->Ok_0@
        }),
        longer@ == line@ + " init="@ + v ==> s is Ok && s->Ok_0@ == (BootPlanModel {
            init: v,
            ..r->Ok_0@
        }),
        longer@ == line@ + " carapace.timing"@ || longer@ == line@ + " carapace.timing="@ + v
            ==> s is Ok && s->Ok_0@ == (BootPlanModel { timing: true, ..r->Ok_0@ }),
        longer@ == line@ + " carapacehash="@ + v && is_root_hash(v) ==> s is Ok && s->Ok_0@ == (
        BootPlanModel { hash: v, ..r->Ok_0@ }),
        longer@ == line@ + " carapacehash="@ + v && !is_root_hash(v) ==> s is Err,
        longer@ == line@ + " root="@ + v || longer@ == line@ + " quiet"@ ==> s is Ok && s->Ok_0@
            == r->Ok_0@,
{
    lemma_keys();
    let c = line@;
    let fs = "rootfstype"@;
    let init = "init"@;
    let flag = "carapace.timing"@;
    let hash = "carapacehash"@;
    let second = "root.carapace"@;
    if longer@ == c + " rootfstype="@ + v {
        assert(longer@ =~= c.push(' ') + (fs.push('=') + v));
        lemma_appended(c, fs, v);
    }
    if longer@ == c + " init="@ + v {
        assert(longer@ =~= c.push(' ') + (init.push('=') + v));
        lemma_appended(c, init, v);
    }
    if longer@ == c + " carapacehash="@ + v {
        assert(longer@ =~= c.push(' ') + (hash.push('=') + v));
        lemma_appended(c, hash, v);
    }
    if longer@ == c + " carapace.timing="@ + v {
        assert(longer@ =~= c.push(' ') + (flag.push('=') + v));
        lemma_appended(c, flag, v);
    }
    if longer@ == c + " root="@ + v {
        assert(longer@ =~= c.push(' ') + ("root"@.push('=') + v));
        lemma_appended(c, "root"@, v);
    }
    if longer@ == c + " carapace.timing"@ {
        assert(longer@ =~= c.push(' ') + flag);
        law_appended_flag_is_set(c, flag, Seq::empty());
        lemma_appended_word(c, flag);
        assert(words(longer@).drop_last() =~= words(c));
        lemma_bare_word(flag);
    }
    if longer@ == c + " quiet"@ {
        let word = "quiet"@;
        assert(longer@ =~= c.push(' ') + word);
        lemma_bare_word(word);
        law_other_words_are_ignored(c, word);
    }
}

/// `s` is a word without a `=`.
spec fn is_key(s: Seq<char>) -> bool {
    is_word(s) && !s.contains('=')
}

/// The keys that are looked for are words without a `=`, and differ.
proof fn lemma_keys()
    ensures
        is_key("carapacehash"@),
        is_key("root.carapace"@),
        is_key("rootfstype"@),
        is_key("init"@),
        is_key("carapace.timing"@),
        is_key("root"@),
        is_key("quiet"@),
        "carapacehash"@.len() == 12,
        "root.carapace"@.len() == 13,
        "rootfstype"@.len() == 10,
        "init"@.len() == 4 && "init"@[0] == 'i',
        "carapace.timing"@.len() == 15,
        "root"@.len() == 4 && "root"@[0] == 'r',
        "quiet"@.len() == 5,
        " rootfstype="@ == seq![' '] + "rootfstype"@ + seq!['='],
        " init="@ == seq![' '] + "init"@ + seq!['='],
        " carapacehash="@ == seq![' '] + "carapacehash"@ + seq!['='],
        " carapace.timing="@ == seq![' '] + "carapace.timing"@ + seq!['='],
        " carapace.timing"@ == seq![' '] + "carapace.timing"@,
        " root="@ == seq![' '] + "root"@ + seq!['='],
        " quiet"@ == seq![' '] + "quiet"@,
{
    reveal_strlit("carapacehash");
    reveal_strlit("root.carapace");
    reveal_strlit("rootfstype");
    reveal_strlit("init");
    reveal_strlit("carapace.timing");
    reveal_strlit("root");
    reveal_strlit("quiet");
    reveal_strlit(" rootfstype=");
    reveal_strlit(" init=");
    reveal_strlit(" carapacehash=");
    reveal_strlit(" carapace.timing=");
    reveal_strlit(" carapace.timing");
    reveal_strlit(" root=");
    reveal_strlit(" quiet");
    lemma_key("carapacehash"@);
    lemma_key("root.carapace"@);
    lemma_key("rootfstype"@);
    lemma_key("init"@);
    lemma_key("carapace.timing"@);
    lemma_key("root"@);
    lemma_key("quiet"@);
    assert(" rootfstype="@ =~= seq![' '] + "rootfstype"@ + seq!['=']);
    assert(" init="@ =~= seq![' '] + "init"@ + seq!['=']);
    assert(" carapacehash="@ =~= seq![' '] + "carapacehash"@ + seq!['=']);
    assert(" carapace.timing="@ =~= seq![' '] + "carapace.timing"@ + seq!['=']);
    assert(" carapace.timing"@ =~= seq![' '] + "carapace.timing"@);
    assert(" root="@ =~= seq![' '] + "root"@ + seq!['=']);
    assert(" quiet"@ =~= seq![' '] + "quiet"@);
}

/// A short text is a word without a `=` where each of its characters says so.
proof fn lemma_key(s: Seq<char>)
    requires
        0 < s.len() <= 15,
        s.len() > 0 ==> !is_white_space(s[0]) && s[0] != '=',
        s.len() > 1 ==> !is_white_space(s[1]) && s[1] != '=',
        s.len() > 2 ==> !is_white_space(s[2]) && s[2] != '=',
        s.len() > 3 ==> !is_white_space(s[3]) && s[3] != '=',
        s.len() > 4 ==> !is_white_space(s[4]) && s[4] != '=',
        s.len() > 5 ==> !is_white_space(s[5]) && s[5] != '=',
        s.len() > 6 ==> !is_white_space(s[6]) && s[6] != '=',
        s.len() > 7 ==> !is_white_space(s[7]) && s[7] != '=',
        s.len() > 8 ==> !is_white_space(s[8]) && s[8] != '=',
        s.len() > 9 ==> !is_white_space(s[9]) && s[9] != '=',
        s.len() > 10 ==> !is_white_space(s[10]) && s[10] != '=',
        s.len() > 11 ==> !is_white_space(s[11]) && s[11] != '=',
        s.len() > 12 ==> !is_white_space(s[12]) && s[12] != '=',
        s.len() > 13 ==> !is_white_space(s[13]) && s[13] != '=',
        s.len() > 14 ==> !is_white_space(s[14]) && s[14] != '=',
    ensures
        is_key(s),
{
    assert forall|i: int| 0 <= i < s.len() implies !is_white_space(#[trigger] s[i]) && s[i] != '=' by {
        if i < 8 {
            assert(i == 0 || i == 1 || i == 2 || i == 3 || i == 4 || i == 5 || i == 6 || i == 7);
        } else {
            assert(i == 8 || i == 9 || i == 10 || i == 11 || i == 12 || i == 13 || i == 14);
        }
    }
}

/// A word without a `=` assigns nothing.
proof fn lemma_bare_word(word: Seq<char>)
    requires
        !word.contains('='),
    ensures
        forall|key: Seq<char>| #[trigger] assigned(word, key) is None,
        forall|key: Seq<char>| #[trigger] sets_flag(word, key) ==> word == key,
{
    assert forall|key: Seq<char>| !has_prefix(word, #[trigger] key.push('=')) by {
        if has_prefix(word, key.push('=')) {
            let n = key.len() as int;
            assert(word.take(n + 1)[n] == '=');
            assert(word[n] == '=');
        }
    }
    assert forall|key: Seq<char>| #[trigger] assigned(word, key) is None by {
        assert(!has_prefix(word, key.push('=')));
    }
    assert forall|key: Seq<char>| #[trigger] sets_flag(word, key) implies word == key by {
        assert(!has_prefix(word, key.push('=')));
    }
}

/// An assignment that is appended sets its own key, and leaves every other one alone.
proof fn lemma_appended(line: Seq<char>, own: Seq<char>, v: Seq<char>)
    requires
        is_word(own),
        !own.contains('='),
        is_word(v),
    ensures
        ({
            let longer = line.push(' ') + (own.push('=') + v);
            &&& cmdline_value(longer, own) == Some(v)
            &&& cmdline_flag(longer, own)
            &&& forall|key: Seq<char>|
                #![trigger cmdline_value(longer, key)]
                key != own && !key.contains('=') ==> cmdline_value(longer, key) == cmdline_value(
                    line,
                    key,
                )
            &&& forall|key: Seq<char>|
                #![trigger cmdline_flag(longer, key)]
                key != own && !key.contains('=') ==> cmdline_flag(longer, key) == cmdline_flag(
                    line,
                    key,
                )
        }),
{
    let word = own.push('=') + v;
    let longer = line.push(' ') + word;
    law_last_assignment_wins(line, own, v);
    law_appended_flag_is_set(line, own, v);
    lemma_assignment(own, v);
    assert(word.take(own.len() as int + 1) =~= own.push('='));
    assert forall|key: Seq<char>|
        #![trigger cmdline_value(longer, key)]
        key != own && !key.contains('=') implies cmdline_value(longer, key) == cmdline_value(
        line,
        key,
    ) by {
        law_keys_are_exact(line, own, key, v);
    }
    assert forall|key: Seq<char>|
        #![trigger cmdline_flag(longer, key)]
        key != own && !key.contains('=') implies cmdline_flag(longer, key) == cmdline_flag(
        line,
        key,
    ) by {
        lemma_other_word_sets_nothing(word, own, key);
        lemma_flag_of_longer(line, word, key);
    }
}

/// Carapace is init where the last part of its path is `init`, whatever directories stand
/// before it, and under no other last part.
pub proof fn law_init_is_told_by_the_last_part(arg0: &str, r: bool, dir: Seq<char>, part: Seq<char>)
    requires
        call_ensures(invoked_as_init, (arg0,), r),
        !part.contains('/'),
    ensures
        arg0@ == "init"@ ==> r,
        arg0@ == dir.push('/') + "init"@ ==> r,
        arg0@ == dir.push('/') + part && part.len() > 0 && part != "init"@ && part != seq!['.'] ==> !r,
        arg0@ == part && part != "init"@ ==> !r,
{
    reveal_strlit("init");
    reveal_strlit("/init");
    let init = "init"@;
    assert(init[0] == 'i' && init[1] == 'n');
    assert(!init.contains('/')) by {
        if init.contains('/') {
            let i = choose|i: int| 0 <= i < init.len() && init[i] == '/';
            assert(i == 0 || i == 1 || i == 2 || i == 3);
        }
    }
    lemma_last_part(dir.push('/'), init);
    lemma_last_part(Seq::empty(), init);
    lemma_last_part(dir.push('/'), part);
    lemma_last_part(Seq::empty(), part);
    assert(Seq::<char>::empty() + init =~= init);
    assert(Seq::<char>::empty() + part =~= part);
    assert(last_part(dir.push('/')) =~= Seq::<char>::empty());
    assert(last_part(Seq::<char>::empty()) =~= Seq::<char>::empty());
    let whole = dir.push('/') + part;
    if part.len() > 0 {
        assert(part.contains(part.last()));
        assert(whole.last() == part.last());
    }
    assert((dir.push('/') + init).last() == 't');
    if arg0@ == whole && part.len() > 0 && part != init && part != seq!['.'] {
        if whole == "/init"@ {
            assert(dir.push('/').len() + part.len() == 5);
            if dir.len() > 0 {
                let n = dir.len() as int;
                assert(whole[n] == '/');
                assert("/init"@[n] != '/') by {
                    assert(n == 1 || n == 2 || n == 3 || n == 4);
                }
            } else {
                assert(whole.skip(1) =~= part);
                assert("/init"@.skip(1) =~= init);
            }
        }
    }
    if arg0@ == part && part != init {
        if part == "/init"@ {
            assert("/init"@[0] == '/');
            assert(part.contains('/'));
        }
        assert(last_part(part) =~= part);
        assert(file_name(Seq::<char>::empty()) is None);
        if part == seq!['.'] {
            assert(part.drop_last() =~= Seq::<char>::empty());
        }
    }
}

proof fn lemma_last_part(head: Seq<char>, part: Seq<char>)
    requires
        !part.contains('/'),
    ensures
        last_part(head + part) == last_part(head) + part,
    decreases part.len(),
{
    let all = head + part;
    if part.len() == 0 {
        assert(all =~= head);
        assert(last_part(head) + part =~= last_part(head));
    } else {
        let front = part.drop_last();
        assert forall|i: int| 0 <= i < front.len() implies front[i] != '/' by {
            assert(front[i] == part[i]);
            assert(part.contains(part[i]));
        }
        assert(part.contains(part.last()));
        lemma_last_part(head, front);
        assert(all.drop_last() =~= head + front);
        assert(all.last() == part.last());
        assert(last_part(all) =~= last_part(head) + part);
    }
}

/// Only a missing partition is waited for, for less than five seconds, in pauses of five
/// milliseconds; every other failure is told at once.
pub proof fn law_only_missing_partitions_are_waited_for(
    error: Option<&CarapaceError>,
    rendered: &str,
    elapsed_ms: u64,
    r: Attempt,
)
    requires
        call_ensures(attach_with_retry, (error, rendered, elapsed_ms), r),
    ensures
        r is Attached <==> error is None,
        r is Wait <==> error is Some && *error->0 is PartitionNotFound && elapsed_ms < 5000,
        r is Wait ==> r->pause_ms == 5,
        r is GiveUp ==> r->GiveUp_0@ == "carapace attach: "@ + rendered@,
{
}

/// What is written to the console shows the error.
pub proof fn law_fatal_message_shows_the_error(error: &str, r: String)
    requires
        call_ensures(fatal_message, (error,), r),
    ensures
        r@ == "\ncarapace init: FATAL: "@ + error@ + "\npowering off.\n"@,
{
}

/// A `/` or a `/.` behind a path makes no difference to whether it is init's.
pub proof fn law_trailing_slashes_make_no_difference(
    path: &str,
    longer: &str,
    r: bool,
    s: bool,
)
    requires
        call_ensures(invoked_as_init, (path,), r),
        call_ensures(invoked_as_init, (longer,), s),
        longer@ == path@.push('/') || longer@ == path@.push('/').push('.'),
    ensures
        r == s,
{
    reveal_strlit("init");
    reveal_strlit("/init");
    let init = "init"@;
    let slashed = path@.push('/');
    assert(slashed.drop_last() =~= path@);
    assert(file_name(slashed) == file_name(path@));
    assert(slashed.last() == '/' && "/init"@.last() == 't');
    let dotted = slashed.push('.');
    assert(dotted.drop_last() =~= slashed);
    assert(last_part(slashed) =~= Seq::<char>::empty());
    assert(last_part(dotted) =~= seq!['.']);
    assert(file_name(dotted) == file_name(slashed));
    assert(dotted.last() == '.');
    if path@ == "/init"@ {
        assert(!init.contains('/')) by {
            if init.contains('/') {
                let i = choose|i: int| 0 <= i < init.len() && init[i] == '/';
                assert(i == 0 || i == 1 || i == 2 || i == 3);
            }
        }
        lemma_last_part(seq!['/'], init);
        assert(path@ =~= seq!['/'] + init);
        assert(last_part(seq!['/']) =~= Seq::<char>::empty());
        assert(last_part(path@) =~= init);
        assert(path@.last() == 't');
        assert(init.len() == 4);
    }
}

} // verus!
