//! Socket addresses and their text form.

use crate::same::Same;
use crate::text::{decimal, decimal_text, hexadecimal, hexadecimal_text, join, joined};
use vstd::prelude::*;
use vstd::string::*;

verus! {

/// An internet address without a port. An IPv6 address is held by its eight
/// segments, with the flow information and the scope of its socket address.
#[derive(Debug, PartialEq, Eq)]
pub enum IpAddr {
    V4(u8, u8, u8, u8),
    V6 { segments: [u16; 8], flowinfo: u32, scope_id: u32 },
}

/// What an address stands for.
#[verifier::ext_equal]
pub enum IpAddrView {
    V4(u8, u8, u8, u8),
    V6 { segments: Seq<u16>, flowinfo: u32, scope_id: u32 },
}

impl DeepView for IpAddr {
    type V = IpAddrView;

    open spec fn deep_view(&self) -> IpAddrView {
        match self {
            IpAddr::V4(a, b, c, d) => IpAddrView::V4(*a, *b, *c, *d),
            IpAddr::V6 { segments, flowinfo, scope_id } => IpAddrView::V6 {
                segments: segments@,
                flowinfo: *flowinfo,
                scope_id: *scope_id,
            },
        }
    }
}

impl Clone for IpAddr {
    fn clone(&self) -> (copy: Self)
        ensures
            copy.deep_view() == self.deep_view(),
    {
        match self {
            IpAddr::V4(a, b, c, d) => IpAddr::V4(*a, *b, *c, *d),
            IpAddr::V6 { segments, flowinfo, scope_id } => IpAddr::V6 {
                segments: *segments,
                flowinfo: *flowinfo,
                scope_id: *scope_id,
            },
        }
    }
}

/// Whether two IPv6 addresses have the same segments.
fn same_segments(a: &[u16; 8], b: &[u16; 8]) -> (same: bool)
    ensures
        same == (a@ == b@),
{
    let mut i: usize = 0;
    while i < 8
        invariant
            i <= 8,
            forall|k: int| 0 <= k < i ==> #[trigger] a@[k] == b@[k],
        decreases 8 - i,
    {
        if a[i] != b[i] {
            assert(a@[i as int] != b@[i as int]);
            return false;
        }
        i += 1;
    }
    assert(a@ =~= b@);
    true
}

impl Same for IpAddr {
    fn same_as(&self, other: &Self) -> (same: bool) {
        match (self, other) {
            (IpAddr::V4(a, b, c, d), IpAddr::V4(e, f, g, h)) => *a == *e && *b == *f && *c == *g
                && *d == *h,
            (
                IpAddr::V6 { segments: s1, flowinfo: f1, scope_id: i1 },
                IpAddr::V6 { segments: s2, flowinfo: f2, scope_id: i2 },
            ) => same_segments(s1, s2) && *f1 == *f2 && *i1 == *i2,
            _ => false,
        }
    }
}

/// An address and a port to listen on.
#[derive(Debug, PartialEq, Eq)]
pub struct SocketAddr {
    pub ip: IpAddr,
    pub port: u16,
}

/// What a socket address stands for.
#[verifier::ext_equal]
pub struct SocketAddrView {
    pub ip: IpAddrView,
    pub port: u16,
}

impl DeepView for SocketAddr {
    type V = SocketAddrView;

    open spec fn deep_view(&self) -> SocketAddrView {
        SocketAddrView { ip: self.ip.deep_view(), port: self.port }
    }
}

impl Clone for SocketAddr {
    fn clone(&self) -> (copy: Self)
        ensures
            copy.deep_view() == self.deep_view(),
    {
        SocketAddr { ip: self.ip.clone(), port: self.port }
    }
}

impl Same for SocketAddr {
    fn same_as(&self, other: &Self) -> (same: bool) {
        self.ip.same_as(&other.ip) && self.port == other.port
    }
}

/// The four numbers of an IPv4 address with dots between them.
pub open spec fn dotted(a: u8, b: u8, c: u8, d: u8) -> Seq<char> {
    decimal(a as nat) + "."@ + decimal(b as nat) + "."@ + decimal(c as nat) + "."@ + decimal(
        d as nat,
    )
}

/// The four numbers of an IPv4 address with dots between them.
fn dotted_text(a: u8, b: u8, c: u8, d: u8) -> (text: String)
    ensures
        text@ == dotted(a, b, c, d),
{
    decimal_text(a as u32).concat(".").concat(decimal_text(b as u32).as_str()).concat(".").concat(
        decimal_text(c as u32).as_str(),
    ).concat(".").concat(decimal_text(d as u32).as_str())
}

/// Segments in hexadecimal with colons between them.
pub open spec fn grouped(segments: Seq<u16>) -> Seq<char> {
    joined(segments.map_values(|segment: u16| hexadecimal(segment as nat)), ":"@)
}

/// The segments from one place up to another in hexadecimal, with colons
/// between them.
fn grouped_text(segments: &[u16; 8], from: usize, to: usize) -> (text: String)
    requires
        from <= to <= 8,
    ensures
        text@ == grouped(segments@.subrange(from as int, to as int)),
{
    let ghost wanted = segments@.subrange(from as int, to as int).map_values(
        |segment: u16| hexadecimal(segment as nat),
    );
    let mut parts: Vec<String> = Vec::new();
    let mut i: usize = from;
    while i < to
        invariant
            from <= i <= to <= 8,
            wanted == segments@.subrange(from as int, to as int).map_values(
                |segment: u16| hexadecimal(segment as nat),
            ),
            parts.deep_view() == wanted.take(i - from),
        decreases to - i,
    {
        let ghost before = parts.deep_view();
        parts.push(hexadecimal_text(segments[i] as u32));
        proof {
            assert(wanted[i - from] == hexadecimal(segments@[i as int] as nat));
            assert(parts.deep_view() =~= before.push(wanted[i - from]));
            assert(parts.deep_view() =~= wanted.take(i + 1 - from));
        }
        i += 1;
    }
    assert(wanted.take(i - from) =~= wanted);
    join(&parts, ":")
}

/// Successive segments.
pub struct Run {
    pub start: int,
    pub len: int,
}

/// How many zero segments stand right before a place.
pub open spec fn zeros_before(segments: Seq<u16>, n: int) -> int
    decreases n,
{
    if n <= 0 || segments[n - 1] != 0 {
        0
    } else {
        zeros_before(segments, n - 1) + 1
    }
}

/// The longest run of zeros among the first `n` segments, and of several the
/// first.
pub open spec fn longest_zeros(segments: Seq<u16>, n: int) -> Run
    decreases n,
{
    if n <= 0 {
        Run { start: 0, len: 0 }
    } else {
        let earlier = longest_zeros(segments, n - 1);
        let here = zeros_before(segments, n);
        if here > earlier.len {
            Run { start: n - here, len: here }
        } else {
            earlier
        }
    }
}

/// Whether all segments of a run are zero.
pub open spec fn is_zero_run(segments: Seq<u16>, run: Run) -> bool {
    forall|i: int| run.start <= i < run.start + run.len ==> #[trigger] segments[i] == 0
}

proof fn lemma_zeros_before(segments: Seq<u16>, n: int, run: Run)
    requires
        0 <= n <= segments.len(),
    ensures
        0 <= zeros_before(segments, n) <= n,
        is_zero_run(
            segments,
            (Run { start: n - zeros_before(segments, n), len: zeros_before(segments, n) }),
        ),
        is_zero_run(segments, run) && 0 <= run.start && 0 <= run.len && run.start + run.len == n
            ==> run.len <= zeros_before(segments, n),
    decreases n,
{
    if n > 0 && segments[n - 1] == 0 {
        lemma_zeros_before(segments, n - 1, Run { start: run.start, len: run.len - 1 });
    } else if n > 0 && run.start + run.len == n && run.len > 0 {
        assert(is_zero_run(segments, run) ==> segments[n - 1] == 0);
    }
}

/// The run of zeros that is left out of an IPv6 address is one of zeros, no run
/// of zeros is longer, and none as long comes before it.
pub proof fn law_longest_zeros_come_first(segments: Seq<u16>, n: int, run: Run)
    requires
        0 <= n <= segments.len(),
        0 <= run.start,
        0 < run.len,
        run.start + run.len <= n,
        is_zero_run(segments, run),
    ensures
        ({
            let longest = longest_zeros(segments, n);
            &&& 0 <= longest.start
            &&& longest.start + longest.len <= n
            &&& is_zero_run(segments, longest)
            &&& run.len <= longest.len
            &&& run.len == longest.len ==> longest.start <= run.start
        }),
    decreases n,
{
    lemma_longest_zeros(segments, n);
    lemma_zeros_before(segments, n, run);
    if run.start + run.len < n {
        law_longest_zeros_come_first(segments, n - 1, run);
    } else {
        lemma_longest_zeros(segments, n - 1);
        let earlier = longest_zeros(segments, n - 1);
        if run.len == longest_zeros(segments, n).len && zeros_before(segments, n) <= earlier.len {
            assert(earlier.start + earlier.len <= n - 1);
        }
    }
}

pub proof fn lemma_longest_zeros(segments: Seq<u16>, n: int)
    requires
        n <= segments.len(),
    ensures
        0 <= longest_zeros(segments, n).start,
        0 <= longest_zeros(segments, n).len,
        n >= 0 ==> longest_zeros(segments, n).start + longest_zeros(segments, n).len <= n,
        is_zero_run(segments, longest_zeros(segments, n)),
    decreases n,
{
    if n > 0 {
        lemma_longest_zeros(segments, n - 1);
        lemma_zeros_before(segments, n, Run { start: 0, len: 0 });
    }
}

/// Whether an IPv6 address stands for an IPv4 one.
pub open spec fn maps_ipv4(segments: Seq<u16>) -> bool {
    (forall|i: int| 0 <= i < 5 ==> #[trigger] segments[i] == 0) && segments[5] == 0xffff
}

/// The text form of an IPv6 address: the segments in hexadecimal, with the
/// longest run of two or more zeros left out. An address that stands for an
/// IPv4 one ends as that is written.
pub open spec fn ipv6_form(segments: Seq<u16>) -> Seq<char> {
    if maps_ipv4(segments) {
        "::ffff:"@ + dotted(
            (segments[6] / 256) as u8,
            (segments[6] % 256) as u8,
            (segments[7] / 256) as u8,
            (segments[7] % 256) as u8,
        )
    } else {
        let zeros = longest_zeros(segments, 8);
        if zeros.len > 1 {
            grouped(segments.take(zeros.start)) + "::"@ + grouped(
                segments.skip(zeros.start + zeros.len),
            )
        } else {
            grouped(segments)
        }
    }
}

/// The text form of an IPv6 address.
pub fn ipv6_text(segments: &[u16; 8]) -> (text: String)
    ensures
        text@ == ipv6_form(segments@),
{
    let ghost all = segments@;
    if segments[0] == 0 && segments[1] == 0 && segments[2] == 0 && segments[3] == 0 && segments[4]
        == 0 && segments[5] == 0xffff {
        assert(maps_ipv4(all));
        let text: String = "::ffff:".to_owned().concat(
            dotted_text(
                (segments[6] / 256) as u8,
                (segments[6] % 256) as u8,
                (segments[7] / 256) as u8,
                (segments[7] % 256) as u8,
            ).as_str(),
        );
        return text;
    }
    proof {
        if maps_ipv4(all) {
            assert(all[0] == 0 && all[1] == 0 && all[2] == 0 && all[3] == 0 && all[4] == 0);
        }
    }
    let mut start: usize = 0;
    let mut len: usize = 0;
    let mut here: usize = 0;
    let mut i: usize = 0;
    while i < 8
        invariant
            i <= 8,
            all == segments@,
            all.len() == 8,
            here <= i,
            here == zeros_before(all, i as int),
            start == longest_zeros(all, i as int).start,
            len == longest_zeros(all, i as int).len,
            start + len <= i,
        decreases 8 - i,
    {
        if segments[i] == 0 {
            here = here + 1;
        } else {
            here = 0;
        }
        i += 1;
        if here > len {
            start = i - here;
            len = here;
        }
    }
    if len > 1 {
        let text: String = grouped_text(segments, 0, start).concat("::").concat(
            grouped_text(segments, start + len, 8).as_str(),
        );
        assert(all.subrange(0, start as int) =~= all.take(start as int));
        assert(all.subrange(start + len, 8) =~= all.skip(start + len));
        text
    } else {
        assert(all.subrange(0, 8) =~= all);
        grouped_text(segments, 0, 8)
    }
}

impl SocketAddrView {
    /// The usual text form. An IPv6 address stands in brackets, with its scope
    /// where it has one.
    pub open spec fn text(self) -> Seq<char> {
        match self.ip {
            IpAddrView::V4(a, b, c, d) => dotted(a, b, c, d) + ":"@ + decimal(self.port as nat),
            IpAddrView::V6 { segments, flowinfo, scope_id } => "["@ + ipv6_form(segments) + (
            if scope_id == 0 {
                Seq::<char>::empty()
            } else {
                "%"@ + decimal(scope_id as nat)
            }) + "]:"@ + decimal(self.port as nat),
        }
    }
}

impl SocketAddr {
    /// The usual text form.
    pub fn text(&self) -> (text: String)
        ensures
            text@ == self.deep_view().text(),
    {
        let port: String = decimal_text(self.port as u32);
        match &self.ip {
            IpAddr::V4(a, b, c, d) => dotted_text(*a, *b, *c, *d).concat(":").concat(
                port.as_str(),
            ),
            IpAddr::V6 { segments, flowinfo: _, scope_id } => {
                let scope: String = if *scope_id == 0 {
                    String::new()
                } else {
                    "%".to_owned().concat(decimal_text(*scope_id).as_str())
                };
                let text: String = "[".to_owned().concat(ipv6_text(segments).as_str()).concat(
                    scope.as_str(),
                ).concat("]:").concat(port.as_str());
                assert(text@ =~= self.deep_view().text());
                text
            },
        }
    }
}

} // verus!
