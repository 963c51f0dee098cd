//! Reading request headers out of `hyper`'s header map.
use vstd::prelude::*;
use hyper::header::{
    HeaderMap, HeaderName, HeaderValue, InvalidHeaderValue, MaxSizeReached, ToStrError,
};
use vstd::string::StringSliceAdditionalSpecFns;
use crate::routing::opt_str_view;

verus! {

/// `http::HeaderMap`, declared so that it can stand in signatures; opaque.
#[verifier::external_type_specification]
#[verifier::external_body]
#[verifier::reject_recursive_types(T)]
pub struct ExHeaderMap<T>(HeaderMap<T>);

/// `http::HeaderValue`, declared so that it can stand in signatures; opaque.
#[verifier::external_type_specification]
#[verifier::external_body]
pub struct ExHeaderValue(HeaderValue);

/// `http::header::ToStrError`, the error of `HeaderValue::to_str`; opaque.
#[verifier::external_type_specification]
#[verifier::external_body]
pub struct ExToStrError(ToStrError);

/// `http::HeaderName`, declared so that it can stand in signatures; opaque.
#[verifier::external_type_specification]
#[verifier::external_body]
pub struct ExHeaderName(HeaderName);

/// `http::header::InvalidHeaderValue`, the error of `HeaderValue::from_str`;
/// opaque.
#[verifier::external_type_specification]
#[verifier::external_body]
pub struct ExInvalidHeaderValue(InvalidHeaderValue);

/// `http::header::MaxSizeReached`, the error of `HeaderMap::try_insert`;
/// opaque.
#[verifier::external_type_specification]
#[verifier::external_body]
pub struct ExMaxSizeReached(MaxSizeReached);

/// The (lower-case) text of a header name, as `HeaderName::as_str` gives it.
pub uninterp spec fn header_name_text(name: HeaderName) -> Seq<char>;

/// What a header map holds: for each (lower-case) header name, the bytes of
/// its values in the order they were added.
pub uninterp spec fn header_map_entries(headers: HeaderMap) -> Map<Seq<char>, Seq<Seq<u8>>>;

/// The bytes that a header value holds.
pub uninterp spec fn header_value_bytes(value: HeaderValue) -> Seq<u8>;

/// A header name of 1 to 64 lower-case ASCII letters, digits and `-`: one that
/// `HeaderMap::get` looks up as it is written.
pub open spec fn is_plain_header_name(name: Seq<char>) -> bool {
    &&& 1 <= name.len() <= 64
    &&& forall|i: int|
        0 <= i < name.len() ==> ('a' <= #[trigger] name[i] <= 'z' || '0' <= name[i] <= '9'
            || name[i] == '-')
}

/// A byte that `HeaderValue::to_str` accepts: visible ASCII or a tab.
pub open spec fn is_visible_ascii(b: u8) -> bool {
    (32 <= b < 127) || b == 9
}

/// Bytes read one for one as ASCII characters.
pub open spec fn ascii_chars(bytes: Seq<u8>) -> Seq<char> {
    Seq::new(bytes.len(), |i: int| bytes[i] as char)
}

/// The first value of header `name`, as text, when it is there and is
/// visible ASCII throughout.
pub open spec fn spec_header_str(headers: HeaderMap, name: Seq<char>) -> Option<Seq<char>> {
    let entries = header_map_entries(headers);
    if entries.contains_key(name) && entries[name].len() > 0 && forall|i: int|
        0 <= i < entries[name][0].len() ==> is_visible_ascii(#[trigger] entries[name][0][i]) {
        Some(ascii_chars(entries[name][0]))
    } else {
        None
    }
}

/// `HeaderMap::get`: the first value stored under `name`, or `None` when the
/// map holds no value under that name.
#[verifier::external_body]
fn header_get<'a>(headers: &'a HeaderMap, name: &str) -> (r: Option<&'a HeaderValue>)
    requires
        is_plain_header_name(name@),
    ensures
        r is Some <==> (header_map_entries(*headers).contains_key(name@) && header_map_entries(
            *headers,
        )[name@].len() > 0),
        r matches Some(v) ==> header_value_bytes(*v) == header_map_entries(*headers)[name@][0],
{
    headers.get(name)
}

/// `HeaderValue::to_str`: succeeds exactly when every byte is visible ASCII
/// or a tab, and then yields those bytes as characters.
#[verifier::external_body]
fn header_value_to_str(value: &HeaderValue) -> (r: Result<&str, ToStrError>)
    ensures
        r is Ok <==> forall|i: int|
            0 <= i < header_value_bytes(*value).len() ==> is_visible_ascii(
                #[trigger] header_value_bytes(*value)[i],
            ),
        r matches Ok(s) ==> s@ == ascii_chars(header_value_bytes(*value)),
{
    value.to_str()
}

/// The first value of header `name` as text, if it is present and readable.
pub fn header_str<'a>(headers: &'a HeaderMap, name: &str) -> (r: Option<&'a str>)
    requires
        is_plain_header_name(name@),
    ensures
        opt_str_view(r) == spec_header_str(*headers, name@),
{
    match header_get(headers, name) {
        Some(value) => match header_value_to_str(value) {
            Ok(text) => Some(text),
            Err(_) => None,
        },
        None => None,
    }
}

/// The values of header `name` in a map's entries; none when it is absent.
pub open spec fn entry_values(entries: Map<Seq<char>, Seq<Seq<u8>>>, name: Seq<char>) -> Seq<
    Seq<u8>,
> {
    if entries.contains_key(name) {
        entries[name]
    } else {
        Seq::empty()
    }
}

/// The values paired with `name` in a sequence of (name, value) pairs, in
/// order.
pub open spec fn values_named(pairs: Seq<(Seq<char>, Seq<u8>)>, name: Seq<char>) -> Seq<Seq<u8>>
    decreases pairs.len(),
{
    if pairs.len() == 0 {
        Seq::empty()
    } else {
        values_named(pairs.drop_last(), name) + if pairs.last().0 == name {
            seq![pairs.last().1]
        } else {
            Seq::empty()
        }
    }
}

/// A name has values in a sequence of pairs exactly when it occurs there.
pub proof fn lemma_values_named_nonempty(pairs: Seq<(Seq<char>, Seq<u8>)>, name: Seq<char>)
    ensures
        values_named(pairs, name).len() > 0 <==> exists|j: int|
            0 <= j < pairs.len() && (#[trigger] pairs[j]).0 == name,
    decreases pairs.len(),
{
    if pairs.len() > 0 {
        let prev = pairs.drop_last();
        lemma_values_named_nonempty(prev, name);
        if exists|j: int| 0 <= j < pairs.len() && (#[trigger] pairs[j]).0 == name {
            let j = choose|j: int| 0 <= j < pairs.len() && (#[trigger] pairs[j]).0 == name;
            if j < pairs.len() - 1 {
                assert(prev[j] == pairs[j]);
            }
        }
        if exists|j: int| 0 <= j < prev.len() && (#[trigger] prev[j]).0 == name {
            let j = choose|j: int| 0 <= j < prev.len() && (#[trigger] prev[j]).0 == name;
            assert(pairs[j] == prev[j]);
        }
    }
}

/// A sequence of header (name, value) references as plain values.
pub open spec fn pair_views(pairs: Seq<(&HeaderName, &HeaderValue)>) -> Seq<(Seq<char>, Seq<u8>)> {
    pairs.map_values(|p: (&HeaderName, &HeaderValue)| (header_name_text(*p.0), header_value_bytes(*p.1)))
}

/// A byte that `HeaderValue::from_str` accepts: not a control character
/// other than a tab.
pub open spec fn is_header_value_byte(b: u8) -> bool {
    (b >= 32 && b != 127) || b == 9
}

/// `HeaderName::as_str`: the name's text.
#[verifier::external_body]
pub(crate) fn header_name_str(name: &HeaderName) -> (r: &str)
    ensures
        r@ == header_name_text(*name),
{
    name.as_str()
}

/// `HeaderMap::iter`: every (name, value) pair, a name once per value; for
/// each name its values come in the order the map holds them.
#[verifier::external_body]
pub(crate) fn header_pairs<'a>(headers: &'a HeaderMap) -> (r: Vec<(&'a HeaderName, &'a HeaderValue)>)
    ensures
        forall|n: Seq<char>|
            #[trigger] values_named(pair_views(r@), n) == entry_values(
                header_map_entries(*headers),
                n,
            ),
{
    headers.iter().collect()
}

/// A set of fewer than 3000 header names.
pub open spec fn below_header_limit(names: Set<Seq<char>>) -> bool {
    names.finite() && names.len() < 3000
}

/// `HeaderMap::try_insert` of a copy of `name` and `value`: when it succeeds,
/// `name` holds just `value` and every other name keeps its values. It fails
/// only when the map would need more than 32768 slots or hold 32768 names,
/// which takes over 6500 names; below 3000 names it succeeds. Nothing is
/// stated of the map when it fails.
#[verifier::external_body]
pub(crate) fn header_try_insert(
    headers: &mut HeaderMap,
    name: &HeaderName,
    value: &HeaderValue,
) -> (r: Result<(), MaxSizeReached>)
    ensures
        below_header_limit(header_map_entries(*old(headers)).dom()) ==> r is Ok,
        r is Ok ==> header_map_entries(*final(headers)) == header_map_entries(*old(headers)).insert(
            header_name_text(*name),
            seq![header_value_bytes(*value)],
        ),
{
    headers.try_insert(name.clone(), value.clone()).map(|_| ())
}

/// `HeaderValue::from_str`: succeeds exactly when every byte of `text` is
/// accepted, and then holds those bytes.
#[verifier::external_body]
pub(crate) fn header_value_from_str(text: &str) -> (r: Result<HeaderValue, InvalidHeaderValue>)
    ensures
        r is Ok <==> forall|i: int|
            0 <= i < text.spec_bytes().len() ==> is_header_value_byte(#[trigger] text.spec_bytes()[i]),
        r matches Ok(v) ==> header_value_bytes(v) == text.spec_bytes(),
{
    HeaderValue::from_str(text)
}

/// `http::header::HOST`, the `host` header name.
#[verifier::external_body]
pub(crate) fn host_header_name() -> (r: HeaderName)
    ensures
        header_name_text(r) == "host"@,
{
    hyper::header::HOST
}

} // verus!
