//! What routing reads of the headers of a request.

use crate::text::{split, split_at_each};
use http::{HeaderMap, HeaderValue};
use vstd::prelude::*;
use vstd::string::*;

verus! {

/// The headers of a request, as the `http` crate holds them.
#[verifier::external_type_specification]
#[verifier::external_body]
#[verifier::reject_recursive_types(T)]
pub struct ExHeaderMap<T>(http::HeaderMap<T>);

/// The value of a header, as the `http` crate holds it.
#[verifier::external_type_specification]
#[verifier::external_body]
pub struct ExHeaderValue(http::HeaderValue);

/// The headers that a map holds, name and value, in the order in which it is
/// walked.
pub uninterp spec fn header_entries(headers: HeaderMap<HeaderValue>) -> Seq<(Seq<char>, Seq<u8>)>;

/// The bytes of a header value.
pub uninterp spec fn header_bytes(value: HeaderValue) -> Seq<u8>;

/// The first header of a name.
pub open spec fn first_named(entries: Seq<(Seq<char>, Seq<u8>)>, name: Seq<char>) -> Option<
    Seq<u8>,
>
    decreases entries.len(),
{
    if entries.len() == 0 {
        None
    } else if entries[0].0 == name {
        Some(entries[0].1)
    } else {
        first_named(entries.skip(1), name)
    }
}

/// Whether a byte is a visible ASCII character, a blank or a tab.
pub open spec fn is_visible(byte: u8) -> bool {
    32 <= byte < 127 || byte == 9
}

/// The text of a header value that has only visible characters.
pub open spec fn visible_text(bytes: Seq<u8>) -> Option<Seq<char>> {
    if forall|i: int| 0 <= i < bytes.len() ==> is_visible(#[trigger] bytes[i]) {
        Some(bytes.map_values(|byte: u8| byte as char))
    } else {
        None
    }
}

/// The value of the host header, by `http::HeaderMap::get`. Names are held in
/// lower case, and of several values of one name the first is given, which is
/// also the first that the walk comes to.
#[verifier::external_body]
fn host_value(headers: &HeaderMap<HeaderValue>) -> (value: Option<HeaderValue>)
    ensures
        match value {
            Some(value) => first_named(header_entries(*headers), "host"@) == Some(
                header_bytes(value),
            ),
            None => first_named(header_entries(*headers), "host"@) is None,
        },
{
    headers.get(http::header::HOST).cloned()
}

/// All headers in the order in which `http::HeaderMap::iter` walks them, one
/// entry for each value of a name.
#[verifier::external_body]
fn header_items(headers: &HeaderMap<HeaderValue>) -> (items: Vec<(String, HeaderValue)>)
    ensures
        items@.map_values(|item: (String, HeaderValue)| (item.0@, header_bytes(item.1)))
            == header_entries(*headers),
{
    headers.iter().map(|(name, value)| (name.as_str().to_owned(), value.clone())).collect()
}

/// The text of a header value, by `http::HeaderValue::to_str`, which fails
/// where a byte is neither a visible ASCII character nor a blank or tab.
#[verifier::external_body]
fn header_text(value: &HeaderValue) -> (text: Option<String>)
    ensures
        text.deep_view() == visible_text(header_bytes(*value)),
{
    value.to_str().ok().map(|text| text.to_owned())
}

/// The host that a request is for: its host header without the port.
pub open spec fn host_of(entries: Seq<(Seq<char>, Seq<u8>)>) -> Option<Seq<char>> {
    match first_named(entries, "host"@) {
        Some(bytes) => match visible_text(bytes) {
            Some(text) => Some(split_at_each(text, ':')[0]),
            None => None,
        },
        None => None,
    }
}

/// A header whose value is text.
pub open spec fn text_header() -> spec_fn((Seq<char>, Seq<u8>)) -> Option<(Seq<char>, Seq<char>)> {
    |entry: (Seq<char>, Seq<u8>)|
        match visible_text(entry.1) {
            Some(text) => Some((entry.0, text)),
            None => None,
        }
}

/// A text has at least one part.
proof fn lemma_split_some(text: Seq<char>, separator: char)
    ensures
        split_at_each(text, separator).len() > 0,
    decreases text.len(),
{
    if text.len() > 0 {
        lemma_split_some(text.drop_last(), separator);
    }
}

/// A text that a separator divides begins with what stands before it.
proof fn lemma_split_first(first: Seq<char>, rest: Seq<char>, separator: char)
    requires
        !first.contains(separator),
    ensures
        split_at_each(first, separator) == seq![first],
        split_at_each(first + seq![separator] + rest, separator)[0] == first,
        split_at_each(first + seq![separator] + rest, separator).len() > 1,
    decreases first.len() + rest.len(),
{
    if rest.len() > 0 {
        let whole = first + seq![separator] + rest;
        lemma_split_first(first, rest.drop_last(), separator);
        assert(whole.drop_last() =~= first + seq![separator] + rest.drop_last());
        assert(whole.last() == rest.last());
    } else {
        let whole = first + seq![separator] + rest;
        assert(whole.drop_last() =~= first);
        if first.len() > 0 {
            let shorter = first.drop_last();
            assert forall|i: int| 0 <= i < shorter.len() implies shorter[i] != separator by {
                assert(first[i] == shorter[i]);
            }
            lemma_split_first(shorter, rest, separator);
            assert(first.last() == first[first.len() - 1]);
            assert(split_at_each(first, separator) =~= seq![shorter.push(first.last())]);
            assert(shorter.push(first.last()) =~= first);
        } else {
            assert(first =~= Seq::<char>::empty());
        }
    }
}

/// The port in a host header does not matter: a request for a host name with a
/// port is for the same host as one without.
pub proof fn law_port_is_ignored(name: Seq<char>, port: Seq<char>)
    requires
        !name.contains(':'),
    ensures
        split_at_each(name, ':')[0] == name,
        split_at_each(name + seq![':'] + port, ':')[0] == name,
{
    lemma_split_first(name, port, ':');
}

/// What stands before the first colon of a host header.
pub fn without_port(host: &str) -> (name: String)
    ensures
        name@ == split_at_each(host@, ':')[0],
{
    let parts: Vec<String> = split(host, ':');
    proof {
        lemma_split_some(host@, ':');
        assert(parts.deep_view()[0] == parts@[0]@);
    }
    parts[0].clone()
}

/// The host that a request is for: its host header without the port.
pub fn host_header(headers: &HeaderMap<HeaderValue>) -> (host: Option<String>)
    ensures
        host.deep_view() == host_of(header_entries(*headers)),
{
    match host_value(headers) {
        Some(value) => match header_text(&value) {
            Some(text) => Some(without_port(text.as_str())),
            None => None,
        },
        None => None,
    }
}

/// The headers whose values are text.
pub fn header_pairs(headers: &HeaderMap<HeaderValue>) -> (pairs: Vec<(String, String)>)
    ensures
        pairs.deep_view() == header_entries(*headers).filter_map(text_header()),
{
    let items: Vec<(String, HeaderValue)> = header_items(headers);
    let ghost all = header_entries(*headers);
    let mut pairs: Vec<(String, String)> = Vec::new();
    let mut i: usize = 0;
    proof {
        assert(all.len() == items@.len());
        assert(all.take(0) =~= Seq::<(Seq<char>, Seq<u8>)>::empty());
        assert(pairs.deep_view() =~= all.take(0).filter_map(text_header()));
    }
    while i < items.len()
        invariant
            i <= items.len(),
            all == items@.map_values(
                |item: (String, HeaderValue)| (item.0@, header_bytes(item.1)),
            ),
            pairs.deep_view() == all.take(i as int).filter_map(text_header()),
        decreases items.len() - i,
    {
        let ghost before = pairs.deep_view();
        proof {
            assert(all[i as int] == (items@[i as int].0@, header_bytes(items@[i as int].1)));
            all.lemma_filter_map_take_succ(text_header(), i as int);
            assert(before + Seq::<(Seq<char>, Seq<char>)>::empty() =~= before);
        }
        if let Some(text) = header_text(&items[i].1) {
            let ghost pair = (items@[i as int].0@, text@);
            pairs.push((items[i].0.clone(), text));
            assert(pairs.deep_view() =~= before + seq![pair]);
        }
        i += 1;
    }
    assert(all.take(i as int) =~= all);
    pairs
}

} // verus!
