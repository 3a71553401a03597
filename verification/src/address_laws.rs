//! What holds of addresses that are written as text.

use crate::address::{
    dotted, grouped, ipv6_form, is_zero_run, law_longest_zeros_come_first, lemma_longest_zeros,
    longest_zeros, maps_ipv4, IpAddrView, Run, SocketAddrView,
};
use crate::text::{decimal, hexadecimal, joined, split_at_each};
use crate::text_laws::law_separator_divides;
use vstd::prelude::*;

verus! {

/// The digits of a number hold no dot.
proof fn lemma_no_dot(n: nat)
    ensures
        !decimal(n).contains('.'),
{
    crate::text_laws::law_decimal_stands_for_number(n, decimal(n), '0');
    if decimal(n).contains('.') {
        let i = choose|i: int| 0 <= i < decimal(n).len() && decimal(n)[i] == '.';
        assert('0' <= decimal(n)[i] <= '9');
    }
}

/// An IPv4 address that is divided at its dots gives its four numbers again, in
/// decimal.
pub proof fn law_ipv4_text_has_four_numbers(a: u8, b: u8, c: u8, d: u8)
    ensures
        split_at_each(dotted(a, b, c, d), '.') == seq![
            decimal(a as nat),
            decimal(b as nat),
            decimal(c as nat),
            decimal(d as nat),
        ],
{
    let (w, x, y, z) = (decimal(a as nat), decimal(b as nat), decimal(c as nat), decimal(d as nat));
    lemma_no_dot(a as nat);
    lemma_no_dot(b as nat);
    lemma_no_dot(c as nat);
    lemma_no_dot(d as nat);
    assert("."@ =~= seq!['.']) by {
        reveal_strlit(".");
    }
    law_separator_divides(y, z, '.');
    law_separator_divides(x, y + seq!['.'] + z, '.');
    law_separator_divides(w, x + seq!['.'] + (y + seq!['.'] + z), '.');
    law_separator_divides(z, z, '.');
    assert(dotted(a, b, c, d) =~= w + seq!['.'] + (x + seq!['.'] + (y + seq!['.'] + z)));
    assert(seq![w] + (seq![x] + (seq![y] + seq![z])) =~= seq![w, x, y, z]);
}

/// The segments of a part of an IPv6 address are written in hexadecimal with
/// colons between them.
pub open spec fn in_groups(segments: Seq<u16>) -> Seq<char> {
    joined(Seq::new(segments.len(), |i: int| hexadecimal(segments[i] as nat)), seq![':'])
}

proof fn lemma_in_groups(segments: Seq<u16>)
    ensures
        grouped(segments) == in_groups(segments),
{
    assert(":"@ =~= seq![':']) by {
        reveal_strlit(":");
    }
    assert(segments.map_values(|segment: u16| hexadecimal(segment as nat)) =~= Seq::new(
        segments.len(),
        |i: int| hexadecimal(segments[i] as nat),
    ));
}

/// Whether an IPv6 address is one that stands for an IPv4 address: five zero
/// segments and one of ones.
pub open spec fn is_mapped(segments: Seq<u16>) -> bool {
    segments[0] == 0 && segments[1] == 0 && segments[2] == 0 && segments[3] == 0 && segments[4] == 0
        && segments[5] == 0xffff
}

/// An IPv6 address that stands for an IPv4 address ends as that is written.
pub proof fn law_mapped_address_ends_as_ipv4(segments: Seq<u16>, a: u8, b: u8, c: u8, d: u8)
    requires
        segments.len() == 8,
        is_mapped(segments),
        segments[6] == a * 256 + b,
        segments[7] == c * 256 + d,
    ensures
        ipv6_form(segments) == "::ffff:"@ + dotted(a, b, c, d),
{
    assert(segments[6] / 256 == a);
    assert(segments[6] % 256 == b);
    assert(segments[7] / 256 == c);
    assert(segments[7] % 256 == d);
}

/// An IPv6 address without two zero segments in a row is written with all its
/// segments.
pub proof fn law_address_without_zeros_is_written_in_full(segments: Seq<u16>)
    requires
        segments.len() == 8,
        !is_mapped(segments),
        forall|i: int| 0 <= i < 7 ==> !(#[trigger] segments[i] == 0 && segments[i + 1] == 0),
    ensures
        ipv6_form(segments) == in_groups(segments),
{
    lemma_longest_zeros(segments, 8);
    let longest = longest_zeros(segments, 8);
    if longest.len > 1 {
        assert(segments[longest.start] == 0);
        assert(segments[longest.start + 1] == 0);
    }
    assert(!maps_ipv4(segments));
    lemma_in_groups(segments);
}

/// In another IPv6 address two colons stand for the longest run of zero
/// segments, and of several as long for the first.
pub proof fn law_longest_zeros_are_left_out(segments: Seq<u16>, run: Run)
    requires
        segments.len() == 8,
        !is_mapped(segments),
        0 <= run.start,
        2 <= run.len,
        run.start + run.len <= 8,
        is_zero_run(segments, run),
        forall|other: Run|
            0 <= other.start && 0 < other.len && other.start + other.len <= 8
                && #[trigger] is_zero_run(segments, other) ==> other.len < run.len || (other.len
                == run.len && run.start <= other.start),
    ensures
        ipv6_form(segments) == in_groups(segments.take(run.start)) + seq![':', ':'] + in_groups(
            segments.skip(run.start + run.len),
        ),
{
    lemma_longest_zeros(segments, 8);
    law_longest_zeros_come_first(segments, 8, run);
    let longest = longest_zeros(segments, 8);
    assert(is_zero_run(segments, longest));
    assert(longest.len == run.len && longest.start == run.start);
    assert(!maps_ipv4(segments)) by {
        if maps_ipv4(segments) {
            assert(segments[0] == 0 && segments[1] == 0 && segments[2] == 0 && segments[3] == 0
                && segments[4] == 0);
        }
    }
    assert("::"@ =~= seq![':', ':']) by {
        reveal_strlit("::");
    }
    lemma_in_groups(segments.take(run.start));
    lemma_in_groups(segments.skip(run.start + run.len));
}

/// A run of zeros has a zero at each of its places.
pub proof fn law_zero_run_is_zero_throughout(segments: Seq<u16>, run: Run)
    ensures
        is_zero_run(segments, run) <==> forall|i: int|
            run.start <= i < run.start + run.len ==> #[trigger] segments[i] == 0,
{
}

/// A socket address is written as its address, a colon and its port. An IPv6
/// address stands in brackets, with a percent sign and its scope where that is
/// not zero.
pub proof fn law_socket_text_is_address_and_port(address: SocketAddrView)
    ensures
        address.ip matches IpAddrView::V4(a, b, c, d) ==> address.text() == dotted(a, b, c, d)
            + seq![':'] + decimal(address.port as nat),
        address.ip matches IpAddrView::V6 { segments, flowinfo, scope_id } ==> address.text()
            == seq!['['] + ipv6_form(segments) + (if scope_id == 0 {
            seq![]
        } else {
            seq!['%'] + decimal(scope_id as nat)
        }) + seq![']', ':'] + decimal(address.port as nat),
{
    reveal_strlit(":");
    reveal_strlit("[");
    reveal_strlit("%");
    reveal_strlit("]:");
    assert(":"@ =~= seq![':']);
    assert("["@ =~= seq!['[']);
    assert("%"@ =~= seq!['%']);
    assert("]:"@ =~= seq![']', ':']);
}

} // verus!
