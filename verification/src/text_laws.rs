//! What holds of the text operations and of the order of names.

use crate::names::{ascending, in_order, is_ascending, precedes};
use crate::text::{
    all_digits, decimal, digits_value, hexadecimal, joined, occurs_in, port_number,
    same_ignoring_case, split_at_each,
};
use vstd::prelude::*;

verus! {

/// Whether two characters are the same, or are one letter of the alphabet, once
/// as a capital and once as a small letter.
pub open spec fn same_letter(a: char, b: char) -> bool {
    ||| a == b
    ||| 'A' <= a <= 'Z' && b as int == a as int + 32
    ||| 'A' <= b <= 'Z' && a as int == b as int + 32
}

/// Texts are the same up to case exactly where they are as long and each
/// character of one is that of the other or the same letter in the other case.
pub proof fn law_case_of_letters_is_ignored(a: Seq<char>, b: Seq<char>)
    ensures
        same_ignoring_case(a, b) <==> a.len() == b.len() && forall|i: int|
            0 <= i < a.len() ==> same_letter(#[trigger] a[i], b[i]),
{
    if same_ignoring_case(a, b) {
        assert forall|i: int| 0 <= i < a.len() implies same_letter(#[trigger] a[i], b[i]) by {
            assert(crate::text::folded(a[i]) == crate::text::folded(b[i]));
            lemma_char_of_code(a[i], b[i]);
        }
    }
    if a.len() == b.len() && forall|i: int|
        0 <= i < a.len() ==> same_letter(#[trigger] a[i], b[i]) {
        assert forall|i: int| 0 <= i < a.len() implies crate::text::folded(#[trigger] a[i])
            == crate::text::folded(b[i]) by {
            assert(same_letter(a[i], b[i]));
        }
    }
}

/// The code of a character fits in 32 bits.
proof fn lemma_char_of_code(a: char, b: char)
    ensures
        a as u32 == a as int,
        b as u32 == b as int,
{
}

/// A text occurs in another exactly where the other is made of something, the
/// text, and something.
pub proof fn law_occurrence_means_surroundings(needle: Seq<char>, text: Seq<char>)
    ensures
        occurs_in(needle, text) <==> exists|before: Seq<char>, after: Seq<char>|
            text == #[trigger] (before + needle + after),
{
    if occurs_in(needle, text) {
        let i = choose|i: int|
            0 <= i <= text.len() - needle.len() && #[trigger] text.subrange(i, i + needle.len())
                == needle;
        let before = text.take(i);
        let after = text.skip(i + needle.len());
        assert(text =~= before + text.subrange(i, i + needle.len()) + after);
        assert(text == (before + needle + after));
    }
    if exists|before: Seq<char>, after: Seq<char>| text == #[trigger] (before + needle + after) {
        let (before, after) = choose|before: Seq<char>, after: Seq<char>|
            text == #[trigger] (before + needle + after);
        let i = before.len() as int;
        assert(text.subrange(i, i + needle.len()) =~= needle);
    }
}

/// The parts of a divided text have no separator, and put together with
/// separators between them they are the text.
pub proof fn law_parts_make_up_the_text(text: Seq<char>, separator: char)
    ensures
        split_at_each(text, separator).len() > 0,
        forall|i: int|
            0 <= i < split_at_each(text, separator).len() ==> !(#[trigger] split_at_each(
                text,
                separator,
            )[i]).contains(separator),
        joined(split_at_each(text, separator), seq![separator]) == text,
    decreases text.len(),
{
    let parts = split_at_each(text, separator);
    if text.len() == 0 {
        assert(parts =~= seq![Seq::<char>::empty()]);
        assert(text =~= parts[0]);
    } else {
        let shorter = text.drop_last();
        let before = split_at_each(shorter, separator);
        law_parts_make_up_the_text(shorter, separator);
        if text.last() == separator {
            assert(parts.drop_last() =~= before);
            assert(joined(parts, seq![separator]) == joined(before, seq![separator]) + seq![
                separator,
            ] + parts.last());
            assert(joined(parts, seq![separator]) =~= text);
            assert forall|i: int| 0 <= i < parts.len() implies !(#[trigger] parts[i]).contains(
                separator,
            ) by {
                if i < before.len() {
                    assert(parts[i] == before[i]);
                }
            }
        } else {
            let n = before.len() - 1;
            assert(parts.drop_last() =~= before.drop_last());
            assert(parts.last() == before.last().push(text.last()));
            if parts.len() == 1 {
                assert(joined(before, seq![separator]) == before[0]);
                assert(parts[0] =~= text);
            } else {
                assert(joined(before, seq![separator]) == joined(
                    before.drop_last(),
                    seq![separator],
                ) + seq![separator] + before.last());
                assert(joined(parts, seq![separator]) =~= joined(before, seq![separator]).push(
                    text.last(),
                ));
            }
            assert(joined(parts, seq![separator]) =~= text);
            assert forall|i: int| 0 <= i < parts.len() implies !(#[trigger] parts[i]).contains(
                separator,
            ) by {
                assert(!before[i].contains(separator));
                if i < n {
                    assert(parts[i] == before[i]);
                } else {
                    let part = before[n].push(text.last());
                    assert(parts[i] == part);
                    assert forall|k: int| 0 <= k < part.len() implies part[k] != separator by {
                        if k < before[n].len() {
                            assert(before[n][k] == part[k]);
                        }
                    }
                }
            }
        }
    }
}

/// A text without the separator is its only part. Two texts with a separator
/// between them have the parts of the one and then those of the other.
pub proof fn law_separator_divides(a: Seq<char>, b: Seq<char>, separator: char)
    ensures
        !a.contains(separator) ==> split_at_each(a, separator) == seq![a],
        split_at_each(a + seq![separator] + b, separator) == split_at_each(a, separator)
            + split_at_each(b, separator),
    decreases a.len() + b.len(),
{
    if !a.contains(separator) {
        if a.len() > 0 {
            let shorter = a.drop_last();
            assert forall|i: int| 0 <= i < shorter.len() implies shorter[i] != separator by {
                assert(a[i] == shorter[i]);
            }
            assert(!shorter.contains(separator));
            law_separator_divides(shorter, Seq::empty(), separator);
            assert(a.last() == a[a.len() - 1]);
            assert(split_at_each(a, separator) =~= seq![shorter.push(a.last())]);
            assert(shorter.push(a.last()) =~= a);
        } else {
            assert(a =~= Seq::<char>::empty());
        }
    }
    let whole = a + seq![separator] + b;
    let front = split_at_each(a, separator);
    law_parts_make_up_the_text(a, separator);
    if b.len() == 0 {
        assert(whole.drop_last() =~= a);
        assert(whole.last() == separator);
        assert(split_at_each(whole, separator) =~= front + seq![Seq::<char>::empty()]);
    } else {
        let fewer = b.drop_last();
        law_separator_divides(a, fewer, separator);
        law_parts_make_up_the_text(fewer, separator);
        let back = split_at_each(fewer, separator);
        assert(whole.drop_last() =~= a + seq![separator] + fewer);
        assert(whole.last() == b.last());
        if b.last() == separator {
            assert(split_at_each(whole, separator) =~= front + back.push(Seq::<char>::empty()));
        } else {
            assert((front + back).last() == back.last());
            assert((front + back).drop_last() =~= front + back.drop_last());
            assert(split_at_each(whole, separator) =~= front + back.drop_last().push(
                back.last().push(b.last()),
            ));
        }
    }
}

/// Joining nothing gives nothing, joining one part gives it, and two lists of
/// parts are joined by a separator between them.
pub proof fn law_joining_puts_separators_between(
    a: Seq<Seq<char>>,
    b: Seq<Seq<char>>,
    part: Seq<char>,
    separator: Seq<char>,
)
    ensures
        joined(Seq::<Seq<char>>::empty(), separator).len() == 0,
        joined(seq![part], separator) == part,
        a.len() > 0 && b.len() > 0 ==> joined(a + b, separator) == joined(a, separator) + separator
            + joined(b, separator),
    decreases b.len(),
{
    if a.len() > 0 && b.len() > 0 {
        let fewer = b.drop_last();
        assert((a + b).drop_last() =~= a + fewer);
        assert((a + b).last() == b.last());
        if b.len() == 1 {
            assert(a + fewer =~= a);
            assert(joined(a + b, separator) =~= joined(a, separator) + separator + joined(
                b,
                separator,
            ));
        } else {
            law_joining_puts_separators_between(a, fewer, part, separator);
            assert(joined(a + b, separator) =~= joined(a, separator) + separator + joined(
                b,
                separator,
            ));
        }
    }
}

/// A number in decimal has digits alone, no zero in front unless it is zero, and
/// stands for the number. Each digit counts for ten times the one after it.
pub proof fn law_decimal_stands_for_number(n: nat, digits: Seq<char>, last: char)
    ensures
        decimal(n).len() > 0,
        all_digits(decimal(n)),
        digits_value(decimal(n)) == n,
        n > 0 ==> decimal(n)[0] != '0',
        n == 0 ==> decimal(n) == seq!['0'],
        digits_value(Seq::<char>::empty()) == 0,
        '0' <= last <= '9' ==> digits_value(digits.push(last)) == digits_value(digits) * 10 + (
        last as int - 48),
        all_digits(digits) <==> forall|i: int|
            0 <= i < digits.len() ==> '0' <= #[trigger] digits[i] <= '9',
    decreases n,
{
    assert(digits.push(last).drop_last() =~= digits);
    if all_digits(digits) {
        assert forall|i: int| 0 <= i < digits.len() implies '0' <= #[trigger] digits[i] <= '9' by {
            lemma_char_of_code(digits[i], digits[i]);
        }
    }
    if n >= 10 {
        law_decimal_stands_for_number(n / 10, digits, last);
        assert(decimal(n).drop_last() =~= decimal(n / 10));
        assert(decimal(n)[0] == decimal(n / 10)[0]);
    } else {
        assert(decimal(n).drop_last() =~= Seq::<char>::empty());
        assert(digits_value(Seq::<char>::empty()) == 0);
    }
}

/// The number that hexadecimal digits stand for.
pub open spec fn hex_value(digits: Seq<char>) -> int
    decreases digits.len(),
{
    if digits.len() == 0 {
        0
    } else {
        hex_value(digits.drop_last()) * 16 + (if '0' <= digits.last() <= '9' {
            digits.last() as int - 48
        } else {
            digits.last() as int - 87
        })
    }
}

/// A number in hexadecimal has digits and the letters from a to f alone, no zero
/// in front unless it is zero, and stands for the number.
pub proof fn law_hexadecimal_stands_for_number(n: nat)
    ensures
        hexadecimal(n).len() > 0,
        forall|i: int|
            0 <= i < hexadecimal(n).len() ==> {
                let c = #[trigger] hexadecimal(n)[i];
                '0' <= c <= '9' || 'a' <= c <= 'f'
            },
        hex_value(hexadecimal(n)) == n,
        n > 0 ==> hexadecimal(n)[0] != '0',
        n == 0 ==> hexadecimal(n) == seq!['0'],
    decreases n,
{
    if n >= 16 {
        law_hexadecimal_stands_for_number(n / 16);
        let text = hexadecimal(n);
        let front = hexadecimal(n / 16);
        assert(text.drop_last() =~= front);
        assert(text[0] == front[0]);
        assert forall|i: int| 0 <= i < text.len() implies {
            let c = #[trigger] text[i];
            '0' <= c <= '9' || 'a' <= c <= 'f'
        } by {
            if i < front.len() {
                assert(text[i] == front[i]);
            }
        }
    } else {
        assert(hexadecimal(n).drop_last() =~= Seq::<char>::empty());
        assert(hex_value(Seq::<char>::empty()) == 0);
    }
}

/// A text is a port number exactly where it is made of digits, with or without a
/// plus sign in front, that stand for a number below 65536.
pub proof fn law_port_is_a_short_number(text: Seq<char>, port: u16)
    ensures
        port_number(text) == Some(port) <==> exists|digits: Seq<char>|
            digits.len() > 0 && (text == digits || text == seq!['+'] + digits) && (forall|i: int|
                0 <= i < digits.len() ==> '0' <= #[trigger] digits[i] <= '9')
                && #[trigger] digits_value(digits) == port,
        port_number(decimal(port as nat)) == Some(port),
{
    law_decimal_stands_for_number(port as nat, text, '0');
    assert(decimal(port as nat)[0] != '+') by {
        assert(all_digits(decimal(port as nat)));
        assert(48 <= decimal(port as nat)[0] as u32 <= 57);
    }
    if port_number(text) == Some(port) {
        let digits = crate::text::unsigned_part(text);
        if text.len() > 0 && text[0] == '+' {
            assert(text =~= seq!['+'] + digits);
        }
        law_decimal_stands_for_number(0, digits, '0');
        assert(digits_value(digits) == port);
    }
    if exists|digits: Seq<char>|
        digits.len() > 0 && (text == digits || text == seq!['+'] + digits) && (forall|i: int|
            0 <= i < digits.len() ==> '0' <= #[trigger] digits[i] <= '9') && #[trigger] digits_value(
            digits,
        ) == port {
        let digits = choose|digits: Seq<char>|
            digits.len() > 0 && (text == digits || text == seq!['+'] + digits) && (forall|i: int|
                0 <= i < digits.len() ==> '0' <= #[trigger] digits[i] <= '9')
                && #[trigger] digits_value(digits) == port;
        law_decimal_stands_for_number(0, digits, '0');
        if text == digits {
            assert('0' <= digits[0] <= '9');
            assert(text[0] != '+');
        } else {
            assert(text[0] == '+');
            assert(text.skip(1) =~= digits);
        }
    }
}

/// One name stands before another exactly where it is the beginning of the
/// other, or where it has the smaller character at the first place at which they
/// differ.
pub proof fn law_names_stand_in_dictionary_order(a: Seq<char>, b: Seq<char>)
    ensures
        precedes(a, b) <==> ((a.len() < b.len() && b.take(a.len() as int) == a) || exists|i: int|
            0 <= i < a.len() && i < b.len() && a.take(i) == b.take(i) && (
            #[trigger] a[i] as int) < (b[i] as int)),
    decreases a.len(),
{
    if b.len() == 0 || a.len() == 0 {
        if a.len() == 0 && b.len() > 0 {
            assert(b.take(0) =~= a);
        }
    } else if a[0] != b[0] {
        if precedes(a, b) {
            assert(a.take(0) =~= b.take(0));
            assert((a[0] as int) < (b[0] as int));
        }
        if a.len() < b.len() && b.take(a.len() as int) == a {
            assert(b.take(a.len() as int)[0] == b[0]);
        }
        if exists|i: int|
            0 <= i < a.len() && i < b.len() && a.take(i) == b.take(i) && (#[trigger] a[i] as int)
                < (b[i] as int) {
            let i = choose|i: int|
                0 <= i < a.len() && i < b.len() && a.take(i) == b.take(i) && (
                #[trigger] a[i] as int) < (b[i] as int);
            if i > 0 {
                assert(a.take(i)[0] == a[0]);
                assert(b.take(i)[0] == b[0]);
            }
        }
    } else {
        let x = a.skip(1);
        let y = b.skip(1);
        law_names_stand_in_dictionary_order(x, y);
        if x.len() < y.len() && y.take(x.len() as int) == x {
            assert(b.take(a.len() as int) =~= a) by {
                assert forall|k: int| 0 <= k < a.len() implies b[k] == a[k] by {
                    if k > 0 {
                        assert(y.take(x.len() as int)[k - 1] == x[k - 1]);
                    }
                }
            }
        }
        if exists|i: int|
            0 <= i < x.len() && i < y.len() && x.take(i) == y.take(i) && (#[trigger] x[i] as int)
                < (y[i] as int) {
            let i = choose|i: int|
                0 <= i < x.len() && i < y.len() && x.take(i) == y.take(i) && (
                #[trigger] x[i] as int) < (y[i] as int);
            assert(a.take(i + 1) =~= b.take(i + 1)) by {
                assert forall|k: int| 0 <= k < i + 1 implies a[k] == b[k] by {
                    if k > 0 {
                        assert(x.take(i)[k - 1] == y.take(i)[k - 1]);
                    }
                }
            }
            assert((a[i + 1] as int) < (b[i + 1] as int));
        }
        if a.len() < b.len() && b.take(a.len() as int) == a {
            assert(y.take(x.len() as int) =~= x) by {
                assert forall|k: int| 0 <= k < x.len() implies y[k] == x[k] by {
                    assert(b.take(a.len() as int)[k + 1] == a[k + 1]);
                }
            }
        }
        if exists|i: int|
            0 <= i < a.len() && i < b.len() && a.take(i) == b.take(i) && (#[trigger] a[i] as int)
                < (b[i] as int) {
            let i = choose|i: int|
                0 <= i < a.len() && i < b.len() && a.take(i) == b.take(i) && (
                #[trigger] a[i] as int) < (b[i] as int);
            assert(i > 0);
            assert(x.take(i - 1) =~= y.take(i - 1)) by {
                assert forall|k: int| 0 <= k < i - 1 implies x[k] == y[k] by {
                    assert(a.take(i)[k + 1] == b.take(i)[k + 1]);
                }
            }
            assert((x[i - 1] as int) < (y[i - 1] as int));
        }
    }
}

/// A list that is ascending has each name before all later ones.
pub proof fn law_ascending_means_each_before_later(names: Seq<Seq<char>>)
    ensures
        is_ascending(names) <==> forall|i: int, j: int|
            0 <= i < j < names.len() ==> precedes(#[trigger] names[i], #[trigger] names[j]),
{
}

/// The values of a map are walked in the order of their names: as many as there
/// are names, each the value of its name.
pub proof fn law_walk_follows_names<V>(map: Map<Seq<char>, V>, i: int)
    requires
        0 <= i < ascending(map.dom()).len(),
    ensures
        in_order(map).len() == ascending(map.dom()).len(),
        in_order(map)[i] == map[ascending(map.dom())[i]],
{
}

} // verus!
