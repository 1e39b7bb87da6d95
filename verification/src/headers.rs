//! Header maps.
//!
//! The proxy keeps headers in `hyper`'s `HeaderMap`, under its `HeaderName`
//! and `HeaderValue`. Verus does not look inside any of the three, so what
//! each holds has a name here ([`header_values`], [`name_text_of`],
//! [`value_bytes_of`]), and each operation that the proxy uses is a small
//! function around one call, whose contract says over those names what the
//! call does. Those contracts are taken on trust; everything built on them
//! is proved.

use hyper::header::HeaderName;
use hyper::header::HeaderValue;
use hyper::HeaderMap;
use vstd::prelude::*;

verus! {

#[verifier::external_type_specification]
#[verifier::external_body]
pub struct ExHeaderName(hyper::header::HeaderName);

#[verifier::external_type_specification]
#[verifier::external_body]
pub struct ExHeaderValue(hyper::header::HeaderValue);

#[verifier::external_type_specification]
#[verifier::external_body]
#[verifier::reject_recursive_types(T)]
pub struct ExHeaderMap<T>(hyper::HeaderMap<T>);

/// What a header map holds: for each name in it, by the name's text, the
/// bytes of the values under that name, oldest first.
pub uninterp spec fn header_values(map: HeaderMap<HeaderValue>) -> Map<Seq<char>, Seq<Seq<u8>>>;

/// The text that a header name holds.
pub uninterp spec fn name_text_of(name: HeaderName) -> Seq<char>;

/// The bytes that a header value holds.
pub uninterp spec fn value_bytes_of(value: HeaderValue) -> Seq<u8>;

/// The number of names that one map can hold.
pub const MAX_NAMES: usize = 32768;

/// The length that a name stays under.
pub const MAX_NAME_LEN: usize = 65536;

/// Whether a character can stand in a name that the crate keeps as it is
/// written: a token character or `"`, and no capital.
pub open spec fn is_name_char(c: char) -> bool {
    let n = c as u32;
    ||| 33 <= n <= 39
    ||| n == 42
    ||| n == 43
    ||| n == 45
    ||| n == 46
    ||| 48 <= n <= 57
    ||| 94 <= n <= 122
    ||| n == 124
    ||| n == 126
}

/// Whether a text is a header name in lower case: not empty, shorter than
/// 64 KiB and made of the characters of a name.
pub open spec fn is_header_name(name: Seq<char>) -> bool {
    &&& 0 < name.len() < MAX_NAME_LEN
    &&& forall|i: int| 0 <= i < name.len() ==> is_name_char(#[trigger] name[i])
}

/// Whether a byte can stand in a value: a tab, or anything from the space on
/// but DEL.
pub open spec fn is_value_byte(b: u8) -> bool {
    (b >= 32 && b != 127) || b == 9
}

/// Whether bytes are a header value.
pub open spec fn is_header_value(value: Seq<u8>) -> bool {
    forall|i: int| 0 <= i < value.len() ==> is_value_byte(#[trigger] value[i])
}

/// Whether a byte is visible ASCII or a tab.
pub open spec fn is_text_byte(b: u8) -> bool {
    (32 <= b < 127) || b == 9
}

/// Whether a header value reads as text: every byte visible ASCII or a tab.
pub open spec fn is_header_text(value: Seq<u8>) -> bool {
    forall|i: int| 0 <= i < value.len() ==> is_text_byte(#[trigger] value[i])
}

/// The values that a map holds under a name; none where it lacks the name.
pub open spec fn values_of(held: Map<Seq<char>, Seq<Seq<u8>>>, name: Seq<char>) -> Seq<Seq<u8>> {
    if held.dom().contains(name) {
        held[name]
    } else {
        Seq::empty()
    }
}

/// Name and value pairs, each as the name's text and the value's bytes.
pub open spec fn pair_views(pairs: Seq<(&HeaderName, &HeaderValue)>) -> Seq<(Seq<char>, Seq<u8>)> {
    Seq::new(pairs.len(), |i: int| (name_text_of(*pairs[i].0), value_bytes_of(*pairs[i].1)))
}

/// The values that stand beside a name in a run of pairs, in their order.
pub open spec fn values_named(pairs: Seq<(Seq<char>, Seq<u8>)>, name: Seq<char>) -> Seq<Seq<u8>>
    decreases pairs.len(),
{
    if pairs.len() == 0 {
        Seq::empty()
    } else if pairs.last().0 == name {
        values_named(pairs.drop_last(), name).push(pairs.last().1)
    } else {
        values_named(pairs.drop_last(), name)
    }
}

/// The names that occur in a run of pairs.
pub open spec fn names_of(pairs: Seq<(Seq<char>, Seq<u8>)>) -> Set<Seq<char>> {
    Set::new(|name: Seq<char>| exists|i: int| 0 <= i < pairs.len() && (#[trigger] pairs[i]).0 == name)
}

/// A name has values in a run of pairs exactly where it occurs in the run.
pub proof fn lemma_values_named_occurs(pairs: Seq<(Seq<char>, Seq<u8>)>, name: Seq<char>)
    ensures
        values_named(pairs, name).len() > 0 <==> names_of(pairs).contains(name),
    decreases pairs.len(),
{
    if pairs.len() > 0 {
        let front = pairs.drop_last();
        lemma_values_named_occurs(front, name);
        if names_of(front).contains(name) {
            let i = choose|i: int| 0 <= i < front.len() && (#[trigger] front[i]).0 == name;
            assert(pairs[i].0 == name);
        }
        if names_of(pairs).contains(name) && pairs.last().0 != name {
            let i = choose|i: int| 0 <= i < pairs.len() && (#[trigger] pairs[i]).0 == name;
            assert(front[i].0 == name);
        }
        if pairs.last().0 == name {
            assert(pairs[pairs.len() - 1].0 == name);
        }
    }
}

/// What an empty map holds.
pub open spec fn no_headers() -> Map<Seq<char>, Seq<Seq<u8>>> {
    Map::empty()
}

/// A map that holds nothing.
///
/// Calls `HeaderMap::new`, which the crate documents as an empty map.
#[verifier::external_body]
pub(crate) fn empty_headers() -> (map: HeaderMap<HeaderValue>)
    ensures
        header_values(map) == no_headers(),
{
    HeaderMap::new()
}

/// A header name of the given text.
///
/// Calls `HeaderName::from_bytes`, which reads a text that
/// [`is_header_name`] admits and keeps it as it is. The crate panics on a
/// text of 64 KiB or more and refuses other texts: `requires` leaves both
/// out.
#[verifier::external_body]
pub(crate) fn header_name(text: &str) -> (name: HeaderName)
    requires
        is_header_name(text@),
    ensures
        name_text_of(name) == text@,
{
    HeaderName::from_bytes(text.as_bytes()).unwrap()
}

/// A header value of the given bytes.
///
/// Calls `HeaderValue::from_bytes`, which takes the bytes that
/// [`is_header_value`] admits as they are and refuses others: `requires`
/// leaves those out.
#[verifier::external_body]
pub(crate) fn header_value(bytes: &[u8]) -> (value: HeaderValue)
    requires
        is_header_value(bytes@),
    ensures
        value_bytes_of(value) == bytes@,
{
    HeaderValue::from_bytes(bytes).unwrap()
}

/// The text of a header name.
///
/// Calls `HeaderName::as_str`.
#[verifier::external_body]
pub(crate) fn name_text(name: &HeaderName) -> (text: &str)
    ensures
        text@ == name_text_of(*name),
{
    name.as_str()
}

/// The bytes of a header value.
///
/// Calls `HeaderValue::as_bytes`.
#[verifier::external_body]
pub(crate) fn value_bytes(value: &HeaderValue) -> (bytes: &[u8])
    ensures
        bytes@ == value_bytes_of(*value),
{
    value.as_bytes()
}

/// Everything that a map holds, as pairs of name and value.
///
/// Collects `HeaderMap::iter`. The crate yields each name once for each of
/// its values, the values of one name in the order in which they came, and
/// leaves the order among names open; so the contract says, name by name,
/// that the values beside it are those that the map holds under it. It also
/// says that a map has at most 32768 names.
#[verifier::external_body]
pub(crate) fn header_pairs<'a>(map: &'a HeaderMap<HeaderValue>) -> (pairs: Vec<
    (&'a HeaderName, &'a HeaderValue),
>)
    ensures
        forall|name: Seq<char>|
            #[trigger] values_named(pair_views(pairs@), name) == values_of(
                header_values(*map),
                name,
            ),
        header_values(*map).dom() == names_of(pair_views(pairs@)),
        names_of(pair_views(pairs@)).finite() && names_of(pair_views(pairs@)).len() <= MAX_NAMES,
{
    map.iter().collect()
}

/// Adds a copy of a value under a name, after the values that the name has
/// already; says whether the map had the name.
///
/// Calls `HeaderMap::append`. The crate panics on a new name in a map that
/// is full: `requires` leaves that out.
#[verifier::external_body]
pub(crate) fn append_pair(map: &mut HeaderMap<HeaderValue>, name: &HeaderName, value: &HeaderValue) -> (had:
    bool)
    requires
        header_values(*old(map)).dom().contains(name_text_of(*name)) || header_values(
            *old(map),
        ).dom().len() < MAX_NAMES,
    ensures
        had == header_values(*old(map)).dom().contains(name_text_of(*name)),
        header_values(*final(map)) == header_values(*old(map)).insert(
            name_text_of(*name),
            values_of(header_values(*old(map)), name_text_of(*name)).push(value_bytes_of(*value)),
        ),
{
    map.append(name.clone(), value.clone())
}

/// Puts a copy of one value under a name in place of all that the name had.
///
/// Calls `HeaderMap::insert`, under the same condition as [`append_pair`].
#[verifier::external_body]
pub(crate) fn insert_pair(map: &mut HeaderMap<HeaderValue>, name: &HeaderName, value: &HeaderValue)
    requires
        header_values(*old(map)).dom().contains(name_text_of(*name)) || header_values(
            *old(map),
        ).dom().len() < MAX_NAMES,
    ensures
        header_values(*final(map)) == header_values(*old(map)).insert(
            name_text_of(*name),
            seq![value_bytes_of(*value)],
        ),
{
    map.insert(name.clone(), value.clone());
}

/// The first value under a name, if the map has the name.
///
/// Calls `HeaderMap::get`, which gives the first of a name's values.
#[verifier::external_body]
pub(crate) fn first_header<'a>(map: &'a HeaderMap<HeaderValue>, name: &HeaderName) -> (first: Option<
    &'a HeaderValue,
>)
    ensures
        match first {
            Some(value) => header_values(*map).dom().contains(name_text_of(*name))
                && header_values(*map)[name_text_of(*name)].len() > 0 && value_bytes_of(*value)
                == header_values(*map)[name_text_of(*name)][0],
            None => !header_values(*map).dom().contains(name_text_of(*name)),
        },
{
    map.get(name)
}

/// How many names a map holds.
///
/// Calls `HeaderMap::keys_len`, the number of distinct names in the map.
#[verifier::external_body]
pub(crate) fn header_name_count(map: &HeaderMap<HeaderValue>) -> (count: usize)
    ensures
        count == header_values(*map).dom().len(),
{
    map.keys_len()
}

/// Tells whether bytes can be a header value.
pub fn can_be_header_value(value: &[u8]) -> (ok: bool)
    ensures
        ok == is_header_value(value@),
{
    let mut i: usize = 0;
    while i < value.len()
        invariant
            i <= value.len(),
            forall|j: int| 0 <= j < i ==> is_value_byte(#[trigger] value@[j]),
        decreases value.len() - i,
    {
        let b = value[i];
        if !((b >= 32 && b != 127) || b == 9) {
            return false;
        }
        i += 1;
    }
    true
}

/// Tells whether a header value reads as text.
pub fn reads_as_text(value: &[u8]) -> (ok: bool)
    ensures
        ok == is_header_text(value@),
{
    let mut i: usize = 0;
    while i < value.len()
        invariant
            i <= value.len(),
            forall|j: int| 0 <= j < i ==> is_text_byte(#[trigger] value@[j]),
        decreases value.len() - i,
    {
        let b = value[i];
        if !((32 <= b && b < 127) || b == 9) {
            return false;
        }
        i += 1;
    }
    true
}

} // verus!
