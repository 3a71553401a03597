//! Strings as sequences of characters: the searches, comparisons and number
//! forms that the rest of the library is stated in.

use vstd::prelude::*;
use vstd::string::*;

verus! {

/// Whether `needle` occurs somewhere in `text`.
pub open spec fn occurs_in(needle: Seq<char>, text: Seq<char>) -> bool {
    exists|i: int|
        0 <= i <= text.len() - needle.len() && #[trigger] text.subrange(i, i + needle.len())
            == needle
}

/// The code of a character with ASCII capitals mapped to small letters.
pub open spec fn folded(c: char) -> u32 {
    if 65 <= c as u32 <= 90 {
        (c as u32 + 32) as u32
    } else {
        c as u32
    }
}

/// Equality up to the case of ASCII letters.
pub open spec fn same_ignoring_case(a: Seq<char>, b: Seq<char>) -> bool {
    a.len() == b.len() && forall|i: int|
        0 <= i < a.len() ==> folded(#[trigger] a[i]) == folded(b[i])
}

/// The parts of `text` between the occurrences of `separator`, in order. There
/// is one part more than there are separators.
pub open spec fn split_at_each(text: Seq<char>, separator: char) -> Seq<Seq<char>>
    decreases text.len(),
{
    if text.len() == 0 {
        seq![Seq::<char>::empty()]
    } else {
        let before = split_at_each(text.drop_last(), separator);
        if text.last() == separator {
            before.push(Seq::<char>::empty())
        } else {
            before.drop_last().push(before.last().push(text.last()))
        }
    }
}

/// The parts put one after the other with `separator` between neighbours.
pub open spec fn joined(parts: Seq<Seq<char>>, separator: Seq<char>) -> Seq<char>
    decreases parts.len(),
{
    if parts.len() == 0 {
        Seq::<char>::empty()
    } else if parts.len() == 1 {
        parts[0]
    } else {
        joined(parts.drop_last(), separator) + separator + parts.last()
    }
}

/// The character of a decimal digit.
pub open spec fn digit(d: nat) -> char {
    (48 + d) as char
}

/// A number in decimal, without leading zeros.
pub open spec fn decimal(n: nat) -> Seq<char>
    decreases n,
{
    if n < 10 {
        seq![digit(n)]
    } else {
        decimal(n / 10).push(digit(n % 10))
    }
}

/// The character of a hexadecimal digit.
pub open spec fn hex_digit(d: nat) -> char {
    if d < 10 {
        digit(d)
    } else {
        (87 + d) as char
    }
}

/// A number in hexadecimal with small letters, without leading zeros.
pub open spec fn hexadecimal(n: nat) -> Seq<char>
    decreases n,
{
    if n < 16 {
        seq![hex_digit(n)]
    } else {
        hexadecimal(n / 16).push(hex_digit(n % 16))
    }
}

/// Whether every character is a decimal digit.
pub open spec fn all_digits(text: Seq<char>) -> bool {
    forall|i: int| 0 <= i < text.len() ==> 48 <= #[trigger] text[i] as u32 <= 57
}

/// The number that a sequence of decimal digits stands for.
pub open spec fn digits_value(text: Seq<char>) -> nat
    decreases text.len(),
{
    if text.len() == 0 {
        0
    } else {
        digits_value(text.drop_last()) * 10 + (text.last() as u32 - 48) as nat
    }
}

/// The digits of a number: what follows an optional plus sign.
pub open spec fn unsigned_part(text: Seq<char>) -> Seq<char> {
    if text.len() > 0 && text[0] == '+' {
        text.skip(1)
    } else {
        text
    }
}

/// The port number that a text stands for: digits, after an optional plus
/// sign, whose value fits in sixteen bits.
pub open spec fn port_number(text: Seq<char>) -> Option<u16> {
    let digits = unsigned_part(text);
    if digits.len() > 0 && all_digits(digits) && digits_value(digits) <= u16::MAX {
        Some(digits_value(digits) as u16)
    } else {
        None
    }
}

/// The characters of a string, one by one.
pub fn chars_of(s: &str) -> (chars: Vec<char>)
    ensures
        chars@ == s@,
{
    let mut out: Vec<char> = Vec::new();
    for c in it: s.chars()
        invariant
            it.seq() == s@,
            out@ == s@.take(it.index() as int),
    {
        out.push(c);
        assert(out@ =~= s@.take(it.index() as int + 1));
    }
    assert(s@.take(s@.len() as int) =~= s@);
    out
}

/// Equality of two strings.
pub fn same_text(a: &str, b: &str) -> (same: bool)
    ensures
        same == (a@ == b@),
{
    let left: Vec<char> = chars_of(a);
    let right: Vec<char> = chars_of(b);
    if left.len() != right.len() {
        return false;
    }
    let mut i: usize = 0;
    while i < left.len()
        invariant
            i <= left.len(),
            left.len() == right.len(),
            left@ == a@,
            right@ == b@,
            forall|k: int| 0 <= k < i ==> left@[k] == right@[k],
        decreases left.len() - i,
    {
        if left[i] != right[i] {
            return false;
        }
        i += 1;
    }
    assert(a@ =~= b@);
    true
}

/// Whether `text` begins with `prefix`.
pub fn starts_with(text: &str, prefix: &str) -> (found: bool)
    ensures
        found == prefix@.is_prefix_of(text@),
{
    let chars: Vec<char> = chars_of(text);
    let wanted: Vec<char> = chars_of(prefix);
    matches_at(&chars, 0, &wanted)
}

/// Whether `text` ends with `suffix`.
pub fn ends_with(text: &str, suffix: &str) -> (found: bool)
    ensures
        found == suffix@.is_suffix_of(text@),
{
    let chars: Vec<char> = chars_of(text);
    let wanted: Vec<char> = chars_of(suffix);
    if wanted.len() > chars.len() {
        return false;
    }
    let start: usize = chars.len() - wanted.len();
    matches_at(&chars, start, &wanted)
}

/// Whether the characters of `wanted` stand in `chars` from `start` on.
fn matches_at(chars: &Vec<char>, start: usize, wanted: &Vec<char>) -> (found: bool)
    requires
        start <= chars.len(),
    ensures
        found == (start + wanted.len() <= chars.len() && chars@.subrange(
            start as int,
            start + wanted.len(),
        ) == wanted@),
{
    if wanted.len() > chars.len() - start {
        return false;
    }
    let mut i: usize = 0;
    while i < wanted.len()
        invariant
            i <= wanted.len(),
            start + wanted.len() <= chars.len(),
            forall|k: int| 0 <= k < i ==> chars@[start + k] == wanted@[k],
        decreases wanted.len() - i,
    {
        if chars[start + i] != wanted[i] {
            assert(chars@.subrange(start as int, start + wanted.len())[i as int] != wanted@[i as int]);
            return false;
        }
        i += 1;
    }
    assert(chars@.subrange(start as int, start + wanted.len()) =~= wanted@);
    true
}

/// Whether `needle` occurs somewhere in `text`.
pub fn contains(text: &str, needle: &str) -> (found: bool)
    ensures
        found == occurs_in(needle@, text@),
{
    let chars: Vec<char> = chars_of(text);
    let wanted: Vec<char> = chars_of(needle);
    if wanted.len() > chars.len() {
        return false;
    }
    let last: usize = chars.len() - wanted.len();
    let mut i: usize = 0;
    loop
        invariant
            chars@ == text@,
            wanted@ == needle@,
            i <= last,
            last == chars.len() - wanted.len(),
            forall|k: int|
                0 <= k < i ==> #[trigger] text@.subrange(k, k + needle@.len()) != needle@,
        decreases last - i,
    {
        if matches_at(&chars, i, &wanted) {
            assert(text@.subrange(i as int, i + needle@.len()) == needle@);
            return true;
        }
        if i == last {
            return false;
        }
        i += 1;
    }
}

/// Whether the character `c` occurs in `text`.
pub fn contains_char(text: &str, c: char) -> (found: bool)
    ensures
        found == text@.contains(c),
{
    let chars: Vec<char> = chars_of(text);
    let mut i: usize = 0;
    while i < chars.len()
        invariant
            i <= chars.len(),
            chars@ == text@,
            forall|k: int| 0 <= k < i ==> text@[k] != c,
        decreases chars.len() - i,
    {
        if chars[i] == c {
            assert(text@[i as int] == c);
            return true;
        }
        i += 1;
    }
    false
}

/// The code of a character with ASCII capitals mapped to small letters.
fn fold(c: char) -> (code: u32)
    ensures
        code == folded(c),
{
    let code: u32 = c as u32;
    if 65 <= code && code <= 90 {
        code + 32
    } else {
        code
    }
}

/// Equality of two strings up to the case of ASCII letters.
pub fn same_text_ignoring_case(a: &str, b: &str) -> (same: bool)
    ensures
        same == same_ignoring_case(a@, b@),
{
    let left: Vec<char> = chars_of(a);
    let right: Vec<char> = chars_of(b);
    if left.len() != right.len() {
        return false;
    }
    let mut i: usize = 0;
    while i < left.len()
        invariant
            i <= left.len(),
            left.len() == right.len(),
            left@ == a@,
            right@ == b@,
            forall|k: int| 0 <= k < i ==> folded(#[trigger] a@[k]) == folded(b@[k]),
        decreases left.len() - i,
    {
        if fold(left[i]) != fold(right[i]) {
            assert(folded(a@[i as int]) != folded(b@[i as int]));
            return false;
        }
        i += 1;
    }
    true
}

/// The parts of `text` between the occurrences of `separator`.
pub fn split(text: &str, separator: char) -> (parts: Vec<String>)
    ensures
        parts.deep_view() == split_at_each(text@, separator),
{
    let chars: Vec<char> = chars_of(text);
    let mut parts: Vec<String> = Vec::new();
    let mut start: usize = 0;
    let mut i: usize = 0;
    assert(text@.take(0) =~= Seq::<char>::empty());
    assert(text@.subrange(0, 0) =~= Seq::<char>::empty());
    assert(parts.deep_view().push(text@.subrange(0, 0)) =~= split_at_each(text@.take(0), separator));
    while i < chars.len()
        invariant
            start <= i <= chars.len(),
            chars@ == text@,
            split_at_each(text@.take(i as int), separator) == parts.deep_view().push(
                text@.subrange(start as int, i as int),
            ),
        decreases chars.len() - i,
    {
        let ghost before = split_at_each(text@.take(i as int), separator);
        let ghost done = parts.deep_view();
        proof {
            assert(text@.take(i as int + 1).drop_last() =~= text@.take(i as int));
            assert(before.drop_last() =~= done);
        }
        if chars[i] == separator {
            parts.push(text.substring_char(start, i).to_owned());
            start = i + 1;
            proof {
                assert(parts.deep_view() =~= before);
                assert(text@.subrange(start as int, i as int + 1) =~= Seq::<char>::empty());
            }
        } else {
            assert(text@.subrange(start as int, i as int).push(text@[i as int]) =~= text@.subrange(
                start as int,
                i as int + 1,
            ));
        }
        i += 1;
    }
    proof {
        assert(text@.take(i as int) =~= text@);
    }
    let ghost done = parts.deep_view();
    parts.push(text.substring_char(start, i).to_owned());
    assert(parts.deep_view() =~= done.push(text@.subrange(start as int, i as int)));
    parts
}

/// The parts put one after the other with `separator` between neighbours.
pub fn join(parts: &Vec<String>, separator: &str) -> (text: String)
    ensures
        text@ == joined(parts.deep_view(), separator@),
{
    let mut out: String = String::new();
    let mut i: usize = 0;
    assert(parts.deep_view().take(0) =~= Seq::<Seq<char>>::empty());
    while i < parts.len()
        invariant
            i <= parts.len(),
            out@ == joined(parts.deep_view().take(i as int), separator@),
        decreases parts.len() - i,
    {
        let ghost next = parts.deep_view().take(i as int + 1);
        assert(next.drop_last() =~= parts.deep_view().take(i as int));
        if i > 0 {
            out.append(separator);
        }
        out.append(parts[i].as_str());
        assert(out@ =~= joined(next, separator@));
        i += 1;
    }
    assert(parts.deep_view().take(i as int) =~= parts.deep_view());
    out
}

/// The text of a decimal digit.
fn digit_text(d: u32) -> (text: &'static str)
    requires
        d < 10,
    ensures
        text@ == seq![digit(d as nat)],
{
    proof {
        reveal_strlit("0");
        reveal_strlit("1");
        reveal_strlit("2");
        reveal_strlit("3");
        reveal_strlit("4");
        reveal_strlit("5");
        reveal_strlit("6");
        reveal_strlit("7");
        reveal_strlit("8");
        reveal_strlit("9");
    }
    let text = match d {
        0 => "0",
        1 => "1",
        2 => "2",
        3 => "3",
        4 => "4",
        5 => "5",
        6 => "6",
        7 => "7",
        8 => "8",
        _ => "9",
    };
    assert(text@ =~= seq![digit(d as nat)]);
    text
}

/// A number in decimal.
pub fn decimal_text(n: u32) -> (text: String)
    ensures
        text@ == decimal(n as nat),
    decreases n,
{
    if n < 10 {
        digit_text(n).to_owned()
    } else {
        let mut text = decimal_text(n / 10);
        text.append(digit_text(n % 10));
        assert(text@ =~= decimal(n as nat));
        text
    }
}

/// The text of a hexadecimal digit.
fn hex_digit_text(d: u32) -> (text: &'static str)
    requires
        d < 16,
    ensures
        text@ == seq![hex_digit(d as nat)],
{
    if d < 10 {
        return digit_text(d);
    }
    proof {
        reveal_strlit("a");
        reveal_strlit("b");
        reveal_strlit("c");
        reveal_strlit("d");
        reveal_strlit("e");
        reveal_strlit("f");
    }
    let text = match d {
        10 => "a",
        11 => "b",
        12 => "c",
        13 => "d",
        14 => "e",
        _ => "f",
    };
    assert(text@ =~= seq![hex_digit(d as nat)]);
    text
}

/// A number in hexadecimal.
pub fn hexadecimal_text(n: u32) -> (text: String)
    ensures
        text@ == hexadecimal(n as nat),
    decreases n,
{
    if n < 16 {
        hex_digit_text(n).to_owned()
    } else {
        let mut text = hexadecimal_text(n / 16);
        text.append(hex_digit_text(n % 16));
        assert(text@ =~= hexadecimal(n as nat));
        text
    }
}

/// More digits stand for a number at least as large.
proof fn lemma_digits_value_grows(text: Seq<char>, n: int)
    requires
        all_digits(text),
        0 <= n <= text.len(),
    ensures
        digits_value(text.take(n)) <= digits_value(text),
    decreases text.len() - n,
{
    if n < text.len() {
        lemma_digits_value_grows(text, n + 1);
        assert(text.take(n + 1).drop_last() =~= text.take(n));
    } else {
        assert(text.take(n) =~= text);
    }
}

/// Reads a port number.
pub fn parse_port(text: &str) -> (port: Option<u16>)
    ensures
        port == port_number(text@),
{
    let chars: Vec<char> = chars_of(text);
    let start: usize = if chars.len() > 0 && chars[0] == '+' {
        1
    } else {
        0
    };
    let ghost digits = unsigned_part(text@);
    assert(digits =~= text@.skip(start as int));
    if start == chars.len() {
        return None;
    }
    let mut value: u32 = 0;
    let mut i: usize = start;
    assert(digits.take(0) =~= Seq::<char>::empty());
    while i < chars.len()
        invariant
            start <= i <= chars.len(),
            chars@ == text@,
            digits == text@.skip(start as int),
            all_digits(digits.take(i - start)),
            value == digits_value(digits.take(i - start)),
            value <= u16::MAX,
            digits == unsigned_part(text@),
        decreases chars.len() - i,
    {
        let code: u32 = chars[i] as u32;
        let ghost k: int = i - start;
        assert(digits[k] == chars@[i as int]);
        if code < 48 || code > 57 {
            return None;
        }
        assert(digits.take(k + 1).drop_last() =~= digits.take(k));
        assert(all_digits(digits.take(k + 1))) by {
            assert forall|j: int| 0 <= j < k + 1 implies 48 <= #[trigger] digits.take(k + 1)[j] as u32
                <= 57 by {
                if j < k {
                    assert(digits.take(k)[j] == digits.take(k + 1)[j]);
                }
            }
        }
        value = value * 10 + (code - 48);
        if value > 65535 {
            proof {
                if all_digits(digits) {
                    lemma_digits_value_grows(digits, k + 1);
                }
            }
            return None;
        }
        i += 1;
    }
    assert(digits.take(i - start) =~= digits);
    Some(value as u16)
}

} // verus!
