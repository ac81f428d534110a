//! Text: words, numbers and comparisons, over the characters of a string.

use vstd::prelude::*;
use vstd::string::*;
use vstd::utf8::{decode_utf8, valid_utf8};

verus! {

/// The characters with the Unicode property White_Space.
pub open spec fn is_white_space(c: char) -> bool {
    ||| '\u{9}' <= c <= '\u{d}'
    ||| c == ' '
    ||| c == '\u{85}'
    ||| c == '\u{a0}'
    ||| c == '\u{1680}'
    ||| '\u{2000}' <= c <= '\u{200a}'
    ||| c == '\u{2028}'
    ||| c == '\u{2029}'
    ||| c == '\u{202f}'
    ||| c == '\u{205f}'
    ||| c == '\u{3000}'
}

/// The words of `s`: its longest runs of characters that are not white space, in
/// order.
pub open spec fn words(s: Seq<char>) -> Seq<Seq<char>>
    decreases s.len(),
{
    if s.len() == 0 {
        Seq::empty()
    } else {
        let before = words(s.drop_last());
        if is_white_space(s.last()) {
            before
        } else if in_word(s.drop_last()) {
            before.drop_last().push(before.last().push(s.last()))
        } else {
            before.push(seq![s.last()])
        }
    }
}

/// `s` ends inside a word.
pub open spec fn in_word(s: Seq<char>) -> bool {
    s.len() > 0 && !is_white_space(s.last())
}

/// `s` without the white space at its ends.
pub open spec fn trim(s: Seq<char>) -> Seq<char> {
    trim_end(trim_start(s))
}

/// `s` without the white space that it starts with.
pub open spec fn trim_start(s: Seq<char>) -> Seq<char>
    decreases s.len(),
{
    if s.len() > 0 && is_white_space(s[0]) {
        trim_start(s.drop_first())
    } else {
        s
    }
}

/// `s` without the white space that it ends with.
pub open spec fn trim_end(s: Seq<char>) -> Seq<char>
    decreases s.len(),
{
    if s.len() > 0 && is_white_space(s.last()) {
        trim_end(s.drop_last())
    } else {
        s
    }
}

/// `prefix` is what `s` starts with.
pub open spec fn has_prefix(s: Seq<char>, prefix: Seq<char>) -> bool {
    prefix.len() <= s.len() && s.take(prefix.len() as int) == prefix
}

/// `part` stands somewhere in `s`.
pub open spec fn has_part(s: Seq<char>, part: Seq<char>) -> bool {
    exists|i: int| 0 <= i <= s.len() - part.len() && #[trigger] s.subrange(i, i + part.len()) == part
}

/// The decimal digits of `n`, without leading zeros.
pub open spec fn decimal(n: nat) -> Seq<char>
    decreases n,
{
    if n < 10 {
        seq![('0' as u8 + n) as char]
    } else {
        decimal(n / 10).push(('0' as u8 + n % 10) as char)
    }
}

/// `c` is one of the digits `0` to `9`.
pub open spec fn is_digit(c: char) -> bool {
    '0' <= c <= '9'
}

/// The number that a sequence of digits writes.
pub open spec fn number(digits: Seq<char>) -> nat
    decreases digits.len(),
{
    if digits.len() == 0 {
        0
    } else {
        number(digits.drop_last()) * 10 + (digits.last() as nat - '0' as nat) as nat
    }
}

/// `s` without the sign `+` that it may start with.
pub open spec fn unsigned_digits(s: Seq<char>) -> Seq<char> {
    if s.len() > 0 && s[0] == '+' {
        s.drop_first()
    } else {
        s
    }
}

/// The `u64` that `s` writes: one digit or more, after an optional `+`, of a number
/// in range.
pub open spec fn parsed_u64(s: Seq<char>) -> Option<u64> {
    let digits = unsigned_digits(s);
    if digits.len() > 0 && (forall|i: int| 0 <= i < digits.len() ==> is_digit(#[trigger] digits[i]))
        && number(digits) <= u64::MAX {
        Some(number(digits) as u64)
    } else {
        None
    }
}

/// The texts of `parts`, one after the other, with `sep` between them.
pub open spec fn join(parts: Seq<Seq<char>>, sep: Seq<char>) -> Seq<char>
    decreases parts.len(),
{
    if parts.len() == 0 {
        Seq::empty()
    } else if parts.len() == 1 {
        parts[0]
    } else {
        join(parts.drop_last(), sep) + sep + parts.last()
    }
}

/// A hexadecimal digit, in lower case.
pub open spec fn hex_digit(n: int) -> char {
    if n < 10 {
        ('0' as int + n) as char
    } else {
        ('a' as int + n - 10) as char
    }
}

/// The texts of `strings`, in order.
pub open spec fn texts(strings: Seq<String>) -> Seq<Seq<char>> {
    strings.map_values(|s: String| s@)
}

/// `s` as Rust's `{:?}` writes it: in quotes, with what is not printable escaped.
pub uninterp spec fn debug_text(s: Seq<char>) -> Seq<char>;

/// `format!` with `{:?}` on a string.
#[verifier::external_body]
pub(crate) fn quoted(s: &str) -> (r: String)
    ensures
        r@ == debug_text(s@),
{
    format!("{s:?}")
}

/// `std::str::from_utf8`: the string that `bytes` encode, if they are UTF-8.
#[verifier::external_body]
pub(crate) fn utf8(bytes: &[u8]) -> (r: Option<&str>)
    ensures
        r is Some <==> valid_utf8(bytes@),
        r is Some ==> r->0@ == decode_utf8(bytes@),
{
    std::str::from_utf8(bytes).ok()
}

/// The characters of `s`.
pub(crate) fn chars_of(s: &str) -> (r: Vec<char>)
    ensures
        r@ == s@,
{
    let mut out: Vec<char> = Vec::new();
    for c in it: s.chars()
        invariant
            out@ == s@.take(it.index()),
            it.seq() == s@,
    {
        out.push(c);
    }
    out
}

/// Whether two texts are the same.
pub(crate) fn same_chars(a: &Vec<char>, b: &Vec<char>) -> (r: bool)
    ensures
        r == (a@ == b@),
{
    if a.len() != b.len() {
        return false;
    }
    let mut i: usize = 0;
    while i < a.len()
        invariant
            i <= a.len() == b.len(),
            forall|j: int| 0 <= j < i ==> a[j] == b[j],
        decreases a.len() - i,
    {
        if a[i] != b[i] {
            assert(a@ != b@);
            return false;
        }
        i += 1;
    }
    assert(a@ =~= b@);
    true
}

/// Whether two strings are the same.
pub(crate) fn same(a: &str, b: &str) -> (r: bool)
    ensures
        r == (a@ == b@),
{
    same_chars(&chars_of(a), &chars_of(b))
}

/// Whether `part` stands in `s` at `at`.
pub(crate) fn stands_at(s: &Vec<char>, at: usize, part: &Vec<char>) -> (r: bool)
    requires
        at <= s.len(),
    ensures
        r == (at + part.len() <= s.len() && s@.subrange(at as int, at + part.len()) == part@),
{
    if part.len() > s.len() - at {
        return false;
    }
    let mut i: usize = 0;
    while i < part.len()
        invariant
            i <= part.len(),
            at + part.len() <= s.len(),
            forall|j: int| 0 <= j < i ==> s[at + j] == part[j],
        decreases part.len() - i,
    {
        if s[at + i] != part[i] {
            assert(s@.subrange(at as int, at + part.len())[i as int] != part@[i as int]);
            return false;
        }
        i += 1;
    }
    assert(s@.subrange(at as int, at + part.len()) =~= part@);
    true
}

/// Whether `part` stands somewhere in `s`.
pub(crate) fn contains(s: &str, part: &str) -> (r: bool)
    ensures
        r == has_part(s@, part@),
{
    let text = chars_of(s);
    let wanted = chars_of(part);
    if wanted.len() > text.len() {
        return false;
    }
    let last: usize = text.len() - wanted.len();
    let mut i: usize = 0;
    while i <= last
        invariant
            text@ == s@,
            wanted@ == part@,
            wanted.len() <= text.len(),
            last == text.len() - wanted.len(),
            i <= last + 1,
            forall|j: int| 0 <= j < i ==> #[trigger] s@.subrange(j, j + part@.len()) != part@,
        decreases last + 1 - i,
    {
        if stands_at(&text, i, &wanted) {
            assert(s@.subrange(i as int, i + part@.len()) == part@);
            return true;
        }
        if i == last {
            return false;
        }
        i += 1;
    }
    false
}

/// Whether `c` is white space.
pub fn white_space(c: char) -> (r: bool)
    ensures
        r == is_white_space(c),
{
    ('\u{9}' <= c && c <= '\u{d}') || c == ' ' || c == '\u{85}' || c == '\u{a0}' || c == '\u{1680}'
        || ('\u{2000}' <= c && c <= '\u{200a}') || c == '\u{2028}' || c == '\u{2029}' || c
        == '\u{202f}' || c == '\u{205f}' || c == '\u{3000}'
}

/// Where the words of a text stand in it: each range holds one word.
pub open spec fn are_words(ranges: Seq<(usize, usize)>, s: Seq<char>) -> bool {
    &&& ranges.len() == words(s).len()
    &&& forall|i: int|
        #![trigger ranges[i]]
        0 <= i < ranges.len() ==> {
            &&& ranges[i].0 <= ranges[i].1 <= s.len()
            &&& s.subrange(ranges[i].0 as int, ranges[i].1 as int) == words(s)[i]
        }
}

/// Finds the words of `s`.
pub(crate) fn word_ranges(s: &Vec<char>) -> (r: Vec<(usize, usize)>)
    ensures
        are_words(r@, s@),
{
    let mut out: Vec<(usize, usize)> = Vec::new();
    let mut start: usize = 0;
    let mut open: bool = false;
    let mut i: usize = 0;
    while i < s.len()
        invariant
            i <= s.len(),
            start <= i,
            open == in_word(s@.take(i as int)),
            words(s@.take(i as int)).len() == out.len() + (if open { 1int } else { 0int }),
            open ==> words(s@.take(i as int)).last() == s@.subrange(start as int, i as int),
            forall|j: int|
                #![trigger out[j]]
                0 <= j < out.len() ==> {
                    &&& out[j].0 <= out[j].1 <= s.len()
                    &&& s@.subrange(out[j].0 as int, out[j].1 as int) == words(s@.take(i as int))[j]
                },
        decreases s.len() - i,
    {
        let ghost now = s@.take(i as int);
        let ghost next = s@.take(i + 1);
        assert(next.drop_last() =~= now);
        assert(next.last() == s[i as int]);
        if white_space(s[i]) {
            if open {
                out.push((start, i));
                open = false;
            }
        } else if !open {
            start = i;
            open = true;
            assert(s@.subrange(start as int, i + 1) =~= seq![s[i as int]]);
        } else {
            assert(s@.subrange(start as int, i as int).push(s[i as int]) =~= s@.subrange(
                start as int,
                i + 1,
            ));
        }
        i += 1;
    }
    assert(s@.take(i as int) =~= s@);
    if open {
        out.push((start, i));
    }
    out
}

/// Finds what is left of `s` without the white space at its ends.
pub(crate) fn trim_range(s: &Vec<char>) -> (r: (usize, usize))
    ensures
        r.0 <= r.1 <= s.len(),
        s@.subrange(r.0 as int, r.1 as int) == trim(s@),
{
    let mut start: usize = 0;
    assert(s@.skip(0) =~= s@);
    while start < s.len() && white_space(s[start])
        invariant
            start <= s.len(),
            trim_start(s@.skip(start as int)) == trim_start(s@),
        decreases s.len() - start,
    {
        assert(s@.skip(start as int).drop_first() =~= s@.skip(start + 1));
        start += 1;
    }
    assert(trim_start(s@) == s@.skip(start as int));
    let mut end: usize = s.len();
    assert(s@.subrange(start as int, end as int) =~= s@.skip(start as int));
    while end > start && white_space(s[end - 1])
        invariant
            start <= end <= s.len(),
            trim_end(s@.subrange(start as int, end as int)) == trim(s@),
        decreases end,
    {
        assert(s@.subrange(start as int, end as int).drop_last() =~= s@.subrange(
            start as int,
            end - 1,
        ));
        end -= 1;
    }
    (start, end)
}

/// A digit below ten, as text.
fn digit_text(d: u64) -> (r: &'static str)
    requires
        d < 10,
    ensures
        r@ == decimal(d as nat),
{
    proof {
        reveal_strlit("0");
        reveal_strlit("1");
        reveal_strlit("2");
        reveal_strlit("3");
        reveal_strlit("4");
        reveal_strlit("5");
        reveal_strlit("6");
        reveal_strlit("7");
        reveal_strlit("8");
        reveal_strlit("9");
    }
    let r: &'static str = match d {
        0 => "0",
        1 => "1",
        2 => "2",
        3 => "3",
        4 => "4",
        5 => "5",
        6 => "6",
        7 => "7",
        8 => "8",
        _ => "9",
    };
    assert(r@ =~= decimal(d as nat));
    r
}

/// Writes `n` in decimal.
pub fn decimal_text(n: u64) -> (r: String)
    ensures
        r@ == decimal(n as nat),
    decreases n,
{
    if n < 10 {
        digit_text(n).to_string()
    } else {
        let mut out = decimal_text(n / 10);
        out.append(digit_text(n % 10));
        assert(out@ =~= decimal(n as nat));
        out
    }
}

/// More digits never make a smaller number.
proof fn lemma_number_grows(digits: Seq<char>, i: int)
    requires
        0 <= i <= digits.len(),
        forall|j: int| 0 <= j < digits.len() ==> is_digit(#[trigger] digits[j]),
    ensures
        number(digits.take(i)) <= number(digits),
    decreases digits.len() - i,
{
    if i == digits.len() {
        assert(digits.take(i) =~= digits);
    } else {
        lemma_number_grows(digits, i + 1);
        assert(digits.take(i + 1).drop_last() =~= digits.take(i));
        assert(is_digit(digits[i]));
    }
}

/// Reads a `u64` from the characters of `s` between `from` and `to`.
pub(crate) fn parse_u64(s: &Vec<char>, from: usize, to: usize) -> (r: Option<u64>)
    requires
        from <= to <= s.len(),
    ensures
        r == parsed_u64(s@.subrange(from as int, to as int)),
{
    let ghost text = s@.subrange(from as int, to as int);
    let start: usize = if from < to && s[from] == '+' {
        from + 1
    } else {
        from
    };
    let ghost digits = unsigned_digits(text);
    assert(digits =~= s@.subrange(start as int, to as int));
    if start == to {
        return None;
    }
    let mut value: u64 = 0;
    let mut i: usize = start;
    while i < to
        invariant
            from <= start <= i <= to <= s.len(),
            start < to,
            text == s@.subrange(from as int, to as int),
            digits == unsigned_digits(text),
            digits == s@.subrange(start as int, to as int),
            value == number(digits.take(i - start)),
            forall|j: int| 0 <= j < i - start ==> is_digit(#[trigger] digits[j]),
        decreases to - i,
    {
        let c = s[i];
        let ghost k = i - start;
        assert(digits[k] == c);
        if c < '0' || '9' < c {
            assert(!is_digit(digits[k]));
            return None;
        }
        let d: u64 = (c as u32 - '0' as u32) as u64;
        assert(digits.take(k + 1).drop_last() =~= digits.take(k));
        assert(number(digits.take(k + 1)) == value * 10 + d);
        if value > u64::MAX / 10 || value * 10 > u64::MAX - d {
            proof {
                if forall|j: int| 0 <= j < digits.len() ==> is_digit(#[trigger] digits[j]) {
                    lemma_number_grows(digits, k + 1);
                }
            }
            return None;
        }
        value = value * 10 + d;
        i += 1;
    }
    assert(digits.take(i - start) =~= digits);
    Some(value)
}

/// `s` is one word: it holds a character, and no white space.
pub open spec fn is_word(s: Seq<char>) -> bool {
    s.len() > 0 && forall|i: int| 0 <= i < s.len() ==> !is_white_space(#[trigger] s[i])
}

/// A text that is one word has itself for its words.
pub proof fn lemma_word_alone(s: Seq<char>)
    requires
        is_word(s),
    ensures
        words(s) == seq![s],
    decreases s.len(),
{
    let front = s.drop_last();
    assert(front.push(s.last()) =~= s);
    if s.len() > 1 {
        assert forall|i: int| 0 <= i < front.len() implies !is_white_space(#[trigger] front[i]) by {
            assert(front[i] == s[i]);
        }
        lemma_word_alone(front);
        assert(front.last() == s[s.len() - 2]);
        assert(in_word(front));
        assert(words(s) =~= seq![s]);
    } else {
        assert(front =~= Seq::empty());
        assert(words(front) =~= Seq::<Seq<char>>::empty());
        assert(!in_word(front));
        assert(seq![s.last()] =~= s);
        assert(words(s) =~= seq![s]);
    }
}

/// White space separates words: the words around it are those before it, then those
/// after it.
pub proof fn lemma_words_around(before: Seq<char>, c: char, after: Seq<char>)
    requires
        is_white_space(c),
    ensures
        words(before.push(c) + after) == words(before) + words(after),
    decreases after.len(),
{
    let whole = before.push(c) + after;
    if after.len() == 0 {
        assert(whole =~= before.push(c));
        assert(whole.drop_last() =~= before);
        assert(words(after) =~= Seq::<Seq<char>>::empty());
        assert(words(whole) =~= words(before) + words(after));
    } else {
        let front = after.drop_last();
        lemma_words_around(before, c, front);
        assert(whole.drop_last() =~= before.push(c) + front);
        assert(whole.last() == after.last());
        if is_white_space(after.last()) {
        } else if in_word(front) {
            assert((before.push(c) + front).last() == front.last());
            assert(in_word(whole.drop_last()));
            lemma_in_word(front);
            assert(words(whole) =~= words(before) + words(after));
        } else {
            if front.len() == 0 {
                assert((before.push(c) + front).last() == c);
            } else {
                assert((before.push(c) + front).last() == front.last());
            }
            assert(!in_word(whole.drop_last()));
            assert(words(whole) =~= words(before) + words(after));
        }
    }
}

/// `s` holds white space, and nothing else.
pub open spec fn is_blank(s: Seq<char>) -> bool {
    forall|i: int| 0 <= i < s.len() ==> is_white_space(#[trigger] s[i])
}

/// White space before a text adds no words to it.
pub proof fn lemma_words_after_blank(blank: Seq<char>, s: Seq<char>)
    requires
        is_blank(blank),
    ensures
        words(blank + s) == words(s),
    decreases blank.len(),
{
    if blank.len() == 0 {
        assert(blank + s =~= s);
    } else {
        let rest = blank.drop_first();
        assert forall|i: int| 0 <= i < rest.len() implies is_white_space(#[trigger] rest[i]) by {
            assert(rest[i] == blank[i + 1]);
        }
        lemma_words_after_blank(rest, s);
        lemma_words_around(Seq::empty(), blank[0], rest + s);
        assert(Seq::empty().push(blank[0]) + (rest + s) =~= blank + s);
        assert(words(Seq::empty()) + words(rest + s) =~= words(rest + s));
    }
}

/// A text that ends inside a word has a word.
proof fn lemma_in_word(s: Seq<char>)
    requires
        in_word(s),
    ensures
        words(s).len() > 0,
{
}

/// The white space at the ends of a text is no part of its words.
pub proof fn lemma_words_of_trimmed(s: Seq<char>)
    ensures
        words(trim(s)) == words(s),
{
    lemma_words_of_trimmed_start(s);
    lemma_words_of_trimmed_end(trim_start(s));
}

proof fn lemma_words_of_trimmed_start(s: Seq<char>)
    ensures
        words(trim_start(s)) == words(s),
    decreases s.len(),
{
    if s.len() > 0 && is_white_space(s[0]) {
        lemma_words_of_trimmed_start(s.drop_first());
        lemma_words_around(Seq::empty(), s[0], s.drop_first());
        assert(Seq::empty().push(s[0]) + s.drop_first() =~= s);
        assert(words(Seq::empty()) + words(s.drop_first()) =~= words(s.drop_first()));
    }
}

proof fn lemma_words_of_trimmed_end(s: Seq<char>)
    ensures
        words(trim_end(s)) == words(s),
    decreases s.len(),
{
    if s.len() > 0 && is_white_space(s.last()) {
        lemma_words_of_trimmed_end(s.drop_last());
    }
}

/// A number's digits are digits, and write that number.
pub proof fn lemma_decimal(n: nat)
    ensures
        decimal(n).len() > 0,
        forall|i: int| 0 <= i < decimal(n).len() ==> is_digit(#[trigger] decimal(n)[i]),
        number(decimal(n)) == n,
    decreases n,
{
    let d = decimal(n);
    if n < 10 {
        assert(d.drop_last() =~= Seq::empty());
        assert(number(d.drop_last()) == 0);
        assert(d.last() as nat == 48 + n);
    } else {
        lemma_decimal(n / 10);
        assert(d.drop_last() =~= decimal(n / 10));
        assert(d.last() as nat == 48 + n % 10);
    }
}

/// Reading a `u64` back from its digits gives the number.
pub proof fn law_decimal_reads_back(n: u64)
    ensures
        parsed_u64(decimal(n as nat)) == Some(n),
{
    lemma_decimal(n as nat);
    assert(is_digit(decimal(n as nat)[0]));
}

/// A text stands in another where that is made of it, something before it and something
/// behind it.
pub proof fn law_part_has_something_around_it(s: Seq<char>, part: Seq<char>)
    ensures
        has_part(s, part) <==> exists|a: Seq<char>, b: Seq<char>| s == #[trigger] (a + part + b),
        forall|a: Seq<char>, b: Seq<char>| has_part(#[trigger] (a + part + b), part),
{
    assert forall|a: Seq<char>, b: Seq<char>| has_part(#[trigger] (a + part + b), part) by {
        let i = a.len() as int;
        assert((a + part + b).subrange(i, i + part.len()) =~= part);
    }
    if has_part(s, part) {
        let i = choose|i: int|
            0 <= i <= s.len() - part.len() && #[trigger] s.subrange(i, i + part.len()) == part;
        let a = s.take(i);
        let b = s.skip(i + part.len());
        assert(s =~= a + s.subrange(i, i + part.len()) + b);
        assert(s == a + part + b);
    }
}

/// A number is read whether or not zeroes or a `+` stand before its digits, and only where
/// it fits; what holds anything but digits is none.
pub proof fn law_numbers_are_read(zeroes: Seq<char>, n: nat, s: Seq<char>, i: int)
    requires
        forall|j: int| 0 <= j < zeroes.len() ==> #[trigger] zeroes[j] == '0',
    ensures
        n <= u64::MAX ==> parsed_u64(zeroes + decimal(n)) == Some(n as u64) && parsed_u64(
            seq!['+'] + (zeroes + decimal(n)),
        ) == Some(n as u64),
        n > u64::MAX ==> parsed_u64(zeroes + decimal(n)) is None && parsed_u64(
            seq!['+'] + (zeroes + decimal(n)),
        ) is None,
        s.len() == 0 ==> parsed_u64(s) is None,
        s == seq!['+'] ==> parsed_u64(s) is None,
        0 < i < s.len() && !('0' <= s[i] <= '9') ==> parsed_u64(s) is None,
        s.len() > 0 && !('0' <= s[0] <= '9') && s[0] != '+' ==> parsed_u64(s) is None,
{
    lemma_decimal(n);
    let digits = zeroes + decimal(n);
    assert forall|j: int| 0 <= j < digits.len() implies is_digit(#[trigger] digits[j]) by {
        if j < zeroes.len() {
            assert(zeroes[j] == '0');
        } else {
            assert(is_digit(decimal(n)[j - zeroes.len()]));
        }
    }
    lemma_leading_zeroes(zeroes, decimal(n));
    assert(is_digit(digits[0]));
    assert(unsigned_digits(digits) == digits);
    let signed = seq!['+'] + digits;
    assert(signed[0] == '+');
    assert(signed.drop_first() =~= digits);
    if s == seq!['+'] {
        assert(s.drop_first().len() == 0);
    }
    if 0 < i < s.len() && !('0' <= s[i] <= '9') {
        if s[0] == '+' {
            assert(!is_digit(s.drop_first()[i - 1]));
        } else {
            assert(!is_digit(s[i]));
        }
    }
    if s.len() > 0 && !('0' <= s[0] <= '9') && s[0] != '+' {
        assert(!is_digit(s[0]));
    }
}

proof fn lemma_leading_zeroes(zeroes: Seq<char>, digits: Seq<char>)
    requires
        forall|j: int| 0 <= j < zeroes.len() ==> #[trigger] zeroes[j] == '0',
    ensures
        number(zeroes + digits) == number(digits),
    decreases digits.len(), zeroes.len(),
{
    let all = zeroes + digits;
    if digits.len() > 0 {
        lemma_leading_zeroes(zeroes, digits.drop_last());
        assert(all.drop_last() =~= zeroes + digits.drop_last());
        assert(all.last() == digits.last());
    } else if zeroes.len() > 0 {
        let front = zeroes.drop_last();
        assert forall|j: int| 0 <= j < front.len() implies #[trigger] front[j] == '0' by {
            assert(front[j] == zeroes[j]);
        }
        lemma_leading_zeroes(front, digits);
        assert(all.drop_last() =~= front + digits);
        assert(all.last() == zeroes[zeroes.len() - 1]);
    }
}

/// A number is written with the digits that it is read from.
pub proof fn law_numbers_are_written(n: u64, r: String, c: char, white: bool)
    requires
        call_ensures(decimal_text, (n,), r),
        call_ensures(white_space, (c,), white),
    ensures
        r@ == decimal(n as nat),
        parsed_u64(r@) == Some(n),
        n < 10 ==> r@.len() == 1,
        n >= 10 ==> r@[0] != '0',
        white == is_white_space(c),
{
    law_decimal_reads_back(n);
    lemma_no_leading_zero(n as nat);
}

proof fn lemma_no_leading_zero(n: nat)
    ensures
        n > 0 ==> decimal(n)[0] != '0',
        decimal(n).len() > 0,
    decreases n,
{
    if n >= 10 {
        lemma_no_leading_zero(n / 10);
    } else {
        assert(decimal(n)[0] as nat == 48 + n);
    }
}

} // verus!
