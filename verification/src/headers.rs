//! HTTP header fields: which of them concern one connection only, and which of
//! them pass through the proxy.

use http::header::HeaderName;
use http::header::HeaderValue;
use http::header::InvalidHeaderValue;
use http::header::MaxSizeReached;
use http::header::ToStrError;
use http::HeaderMap;
use vstd::hash_set::StringHashSet;
use vstd::prelude::*;
use crate::text;

verus! {

broadcast use vstd::string::group_string_axioms;

// ---------------------------------------------------------------------------
// The header types of the `http` crate
// ---------------------------------------------------------------------------

/// The multimap `http::HeaderMap`.
#[verifier::external_type_specification]
#[verifier::external_body]
#[verifier::reject_recursive_types(T)]
pub struct ExHeaderMap<T>(http::HeaderMap<T>);

/// The field name `http::header::HeaderName`.
#[verifier::external_type_specification]
#[verifier::external_body]
pub struct ExHeaderName(http::header::HeaderName);

/// The field value `http::header::HeaderValue`.
#[verifier::external_type_specification]
#[verifier::external_body]
pub struct ExHeaderValue(http::header::HeaderValue);

/// The error of a value that is not visible ASCII.
#[verifier::external_type_specification]
#[verifier::external_body]
pub struct ExToStrError(http::header::ToStrError);

/// The error of a text that is no field value.
#[verifier::external_type_specification]
#[verifier::external_body]
pub struct ExInvalidHeaderValue(http::header::InvalidHeaderValue);

/// The error of a map that cannot grow.
#[verifier::external_type_specification]
#[verifier::external_body]
pub struct ExMaxSizeReached(http::header::MaxSizeReached);

/// What a `HeaderMap` holds: under each field name, in lower case, the values
/// in the order in which they came.
pub uninterp spec fn header_fields(headers: HeaderMap) -> Map<Seq<char>, Seq<Seq<u8>>>;

/// The characters that a `HeaderName` holds, as `HeaderName::as_str` gives them.
pub uninterp spec fn name_text(name: HeaderName) -> Seq<char>;

/// The bytes that a `HeaderValue` holds, as `HeaderValue::as_bytes` gives them.
pub uninterp spec fn value_bytes(value: HeaderValue) -> Seq<u8>;

/// A byte that a field value shows as a character: printable ASCII or a tab.
pub open spec fn is_visible(b: u8) -> bool {
    32 <= b < 127 || b == 9
}

/// All bytes of the value are visible.
pub open spec fn all_visible(value: Seq<u8>) -> bool {
    forall|i: int| 0 <= i < value.len() ==> is_visible(#[trigger] value[i])
}

/// The bytes of an ASCII value as characters.
pub open spec fn ascii_text(value: Seq<u8>) -> Seq<char> {
    Seq::new(value.len(), |i: int| value[i] as char)
}

/// The bytes that a field value can hold: no control character but the tab.
pub open spec fn is_value(value: Seq<u8>) -> bool {
    forall|i: int|
        0 <= i < value.len() ==> (32 <= #[trigger] value[i] && value[i] != 127) || value[i] == 9
}

/// No header fields.
pub open spec fn no_fields() -> Map<Seq<char>, Seq<Seq<u8>>> {
    Map::empty()
}

/// The values under `name`; none where the map does not have it.
pub open spec fn values_under(fields: Map<Seq<char>, Seq<Seq<u8>>>, name: Seq<char>) -> Seq<Seq<u8>> {
    if fields.contains_key(name) {
        fields[name]
    } else {
        Seq::empty()
    }
}

/// The values of the pairs called `name`, in order.
pub open spec fn values_named(pairs: Seq<(HeaderName, HeaderValue)>, name: Seq<char>) -> Seq<
    Seq<u8>,
>
    decreases pairs.len(),
{
    if pairs.len() == 0 {
        Seq::empty()
    } else {
        let rest = values_named(pairs.drop_last(), name);
        if name_text(pairs.last().0) == name {
            rest.push(value_bytes(pairs.last().1))
        } else {
            rest
        }
    }
}

/// With no more field names than this, a `HeaderMap` takes one more field
/// whatever the names hash to.
pub const ROOMY_NAMES: usize = 6553;

/// `HeaderName::as_str`: the characters of the name.
pub assume_specification[ HeaderName::as_str ](name: &HeaderName) -> (shown: &str)
    ensures
        shown@ == name_text(*name),
;

/// `HeaderName::from_static`: the name with these characters. It panics on a
/// text that is no name in lower case, so the text is held to letters and hyphens.
pub assume_specification[ HeaderName::from_static ](src: &'static str) -> (name: HeaderName)
    requires
        0 < src@.len() <= 64,
        forall|i: int| 0 <= i < src@.len() ==> ('a' <= #[trigger] src@[i] <= 'z') || src@[i] == '-',
    ensures
        name_text(name) == src@,
;

/// `HeaderValue::to_str`: the value as text where all of it is visible ASCII.
pub assume_specification[ HeaderValue::to_str ](value: &HeaderValue) -> (shown: Result<
    &str,
    ToStrError,
>)
    ensures
        match shown {
            Ok(t) => all_visible(value_bytes(*value)) && t@ == ascii_text(value_bytes(*value)),
            Err(_) => !all_visible(value_bytes(*value)),
        },
;

/// `HeaderValue::from_str`: the UTF-8 bytes of the text, where they make a value.
pub assume_specification[ HeaderValue::from_str ](src: &str) -> (value: Result<
    HeaderValue,
    InvalidHeaderValue,
>)
    ensures
        match value {
            Ok(v) => is_value(vstd::utf8::encode_utf8(src@)) && value_bytes(v) == vstd::utf8::encode_utf8(src@),
            Err(_) => !is_value(vstd::utf8::encode_utf8(src@)),
        },
;

/// `HeaderValue::from_static`: the bytes of the text. It panics on a text that
/// is not visible ASCII.
pub assume_specification[ HeaderValue::from_static ](src: &'static str) -> (value: HeaderValue)
    requires
        all_visible(vstd::utf8::encode_utf8(src@)),
    ensures
        value_bytes(value) == vstd::utf8::encode_utf8(src@),
;

/// `<HeaderValue as Clone>::clone`: the same bytes.
pub assume_specification[ <HeaderValue as Clone>::clone ](value: &HeaderValue) -> (copy:
    HeaderValue)
    ensures
        value_bytes(copy) == value_bytes(*value),
;

/// `<HeaderName as Clone>::clone`: the same characters.
pub assume_specification[ <HeaderName as Clone>::clone ](name: &HeaderName) -> (copy: HeaderName)
    ensures
        name_text(copy) == name_text(*name),
;

/// `HeaderMap::new`: a map without fields.
pub assume_specification[ HeaderMap::<HeaderValue>::new ]() -> (map: HeaderMap<HeaderValue>)
    ensures
        header_fields(map) == no_fields(),
;

/// `HeaderMap::get`: the first value under the name. A text that is no name in lower
/// case is looked up in other ways, so the name is held to letters and hyphens.
#[verifier::external_body]
fn first_value<'a>(headers: &'a HeaderMap, name: &str) -> (value: Option<&'a HeaderValue>)
    requires
        0 < name@.len() <= 64,
        forall|i: int| 0 <= i < name@.len() ==> ('a' <= #[trigger] name@[i] <= 'z') || name@[i] == '-',
    ensures
        match value {
            Some(v) => header_fields(*headers).contains_key(name@) && header_fields(
                *headers,
            )[name@].len() > 0 && value_bytes(*v) == header_fields(*headers)[name@][0],
            None => !header_fields(*headers).contains_key(name@),
        },
{
    headers.get(name)
}

/// `HeaderMap::get_all`: the values under the name, in the order in which they came. A
/// text that is no name in lower case is looked up in other ways, so the name is held to
/// letters and hyphens.
#[verifier::external_body]
fn all_values<'a>(headers: &'a HeaderMap, name: &str) -> (values: Vec<&'a HeaderValue>)
    requires
        0 < name@.len() <= 64,
        forall|i: int| 0 <= i < name@.len() ==> ('a' <= #[trigger] name@[i] <= 'z') || name@[i] == '-',
    ensures
        values.len() == values_under(header_fields(*headers), name@).len(),
        forall|i: int|
            0 <= i < values.len() ==> value_bytes(*#[trigger] values@[i]) == values_under(
                header_fields(*headers),
                name@,
            )[i],
{
    headers.get_all(name).iter().collect()
}

/// `HeaderMap::iter`: every field once, in an order of which is claimed only
/// that the values of one name keep theirs.
#[verifier::external_body]
fn all_pairs(headers: &HeaderMap) -> (pairs: Vec<(HeaderName, HeaderValue)>)
    ensures
        forall|name: Seq<char>| #[trigger]
            values_named(pairs@, name) == values_under(header_fields(*headers), name),
        forall|name: Seq<char>| #[trigger]
            header_fields(*headers).contains_key(name) <==> values_named(pairs@, name).len() > 0,
{
    headers.iter().map(|(name, value)| (name.clone(), value.clone())).collect()
}

/// `HeaderMap::try_insert`: the value becomes the only one under the name. It
/// fails, and changes nothing, only where the map holds many names.
#[verifier::external_body]
fn put(headers: &mut HeaderMap, name: HeaderName, value: HeaderValue) -> (r: Result<
    (),
    MaxSizeReached,
>)
    ensures
        match r {
            Ok(()) => header_fields(*final(headers)) == header_fields(*old(headers)).insert(
                name_text(name),
                seq![value_bytes(value)],
            ),
            Err(_) => header_fields(*final(headers)) == header_fields(*old(headers)),
        },
        header_fields(*old(headers)).dom().finite() && header_fields(*old(headers)).dom().len()
            <= ROOMY_NAMES ==> r is Ok,
{
    headers.try_insert(name, value).map(|_| ())
}

/// `HeaderMap::try_append`: the value joins those under the name, as the last.
/// It fails, and changes nothing, only where the map holds many names.
#[verifier::external_body]
fn append(headers: &mut HeaderMap, name: HeaderName, value: HeaderValue) -> (r: Result<
    (),
    MaxSizeReached,
>)
    ensures
        match r {
            Ok(()) => header_fields(*final(headers)) == header_fields(*old(headers)).insert(
                name_text(name),
                values_under(header_fields(*old(headers)), name_text(name)).push(
                    value_bytes(value),
                ),
            ),
            Err(_) => header_fields(*final(headers)) == header_fields(*old(headers)),
        },
        header_fields(*old(headers)).dom().finite() && header_fields(*old(headers)).dom().len()
            <= ROOMY_NAMES ==> r is Ok,
{
    headers.try_append(name, value).map(|_| ())
}

// ---------------------------------------------------------------------------
// Fields of one connection
// ---------------------------------------------------------------------------

/// The field concerns one connection only, whatever the message says.
pub open spec fn hop_by_hop(name: Seq<char>) -> bool {
    let n = text::lower(name);
    ||| n == "connection"@
    ||| n == "keep-alive"@
    ||| n == "proxy-authenticate"@
    ||| n == "proxy-authorization"@
    ||| n == "proxy-connection"@
    ||| n == "te"@
    ||| n == "trailer"@
    ||| n == "transfer-encoding"@
    ||| n == "upgrade"@
}

/// The names that one `Connection` value lists; none where it is not text.
pub open spec fn listed_names(value: Seq<u8>) -> Set<Seq<char>> {
    let pieces = text::split(ascii_text(value), text::only(','));
    Set::new(
        |t: Seq<char>|
            all_visible(value) && t.len() > 0 && exists|j: int|
                0 <= j < pieces.len() && t == text::lower(text::trimmed(#[trigger] pieces[j])),
    )
}

/// The names that any of the `Connection` values lists.
pub open spec fn connection_names(values: Seq<Seq<u8>>) -> Set<Seq<char>> {
    Set::new(
        |t: Seq<char>|
            exists|i: int| 0 <= i < values.len() && listed_names(#[trigger] values[i]).contains(t),
    )
}

/// The names that the header fields bind to this connection.
pub open spec fn connection_fields(fields: Map<Seq<char>, Seq<Seq<u8>>>) -> Set<Seq<char>> {
    connection_names(values_under(fields, "connection"@))
}

/// The field does not pass the proxy: it concerns one connection only, by
/// itself or because the message lists it.
pub open spec fn stripped(name: Seq<char>, connection: Set<Seq<char>>) -> bool {
    hop_by_hop(name) || connection.contains(name)
}

pub fn is_hop_by_hop(name: &str) -> (r: bool)
    ensures
        r == hop_by_hop(name@),
{
    let name = text::to_lower(name);
    let n = name.as_str();
    text::same_text(n, "connection") || text::same_text(n, "keep-alive") || text::same_text(
        n,
        "proxy-authenticate",
    ) || text::same_text(n, "proxy-authorization") || text::same_text(n, "proxy-connection")
        || text::same_text(n, "te") || text::same_text(n, "trailer") || text::same_text(
        n,
        "transfer-encoding",
    ) || text::same_text(n, "upgrade")
}

/// Adds the names that one `Connection` value lists.
fn add_listed(tokens: &mut StringHashSet, value: &HeaderValue)
    ensures
        final(tokens)@ == old(tokens)@.union(listed_names(value_bytes(*value))),
{
    let ghost before = tokens@;
    let ghost bytes = value_bytes(*value);
    match value.to_str() {
        Ok(list) => {
            let pieces = text::split_on(list, ',');
            let ghost model = text::split(ascii_text(bytes), text::only(','));
            let mut j: usize = 0;
            while j < pieces.len()
                invariant
                    j <= pieces.len(),
                    all_visible(bytes),
                    model == text::split(ascii_text(bytes), text::only(',')),
                    text::texts(pieces@) == model,
                    forall|t: Seq<char>| #[trigger]
                        tokens@.contains(t) <==> before.contains(t) || (t.len() > 0 && exists|k: int|
                            0 <= k < j && t == text::lower(text::trimmed(#[trigger] model[k]))),
                decreases pieces.len() - j,
            {
                let ghost so_far = tokens@;
                assert(model[j as int] == pieces@[j as int]@);
                let trimmed = text::trim(pieces[j].as_str());
                let name = text::to_lower(trimmed.as_str());
                let ghost n = name@;
                if !name.as_str().is_empty() {
                    tokens.insert(name);
                }
                assert forall|t: Seq<char>| #[trigger]
                    tokens@.contains(t) <==> before.contains(t) || (t.len() > 0 && exists|k: int|
                        0 <= k < j + 1 && t == text::lower(text::trimmed(#[trigger] model[k]))) by {
                    assert(so_far.contains(t) <==> before.contains(t) || (t.len() > 0
                        && exists|k: int|
                        0 <= k < j && t == text::lower(text::trimmed(#[trigger] model[k]))));
                    if t == n && t.len() > 0 {
                        assert(t == text::lower(text::trimmed(model[j as int])));
                    }
                }
                j += 1;
            }
            assert(tokens@ =~= before.union(listed_names(bytes)));
        },
        Err(_) => {
            assert(tokens@ =~= before.union(listed_names(bytes)));
        },
    }
}

pub fn connection_tokens(headers: &HeaderMap) -> (r: StringHashSet)
    ensures
        r@ == connection_fields(header_fields(*headers)),
{
    proof {
        reveal_strlit("connection");
    }
    let values = all_values(headers, "connection");
    let ghost model = values_under(header_fields(*headers), "connection"@);
    let mut tokens = StringHashSet::new();
    let mut i: usize = 0;
    assert(tokens@ =~= connection_names(model.take(0)));
    while i < values.len()
        invariant
            i <= values.len(),
            values.len() == model.len(),
            forall|k: int| 0 <= k < values.len() ==> value_bytes(*#[trigger] values@[k]) == model[k],
            tokens@ == connection_names(model.take(i as int)),
        decreases values.len() - i,
    {
        let ghost before = tokens@;
        add_listed(&mut tokens, values[i]);
        proof {
            let names = connection_names(model.take(i + 1));
            assert forall|t: Seq<char>| #[trigger] tokens@.contains(t) <==> names.contains(t) by {
                if before.contains(t) {
                    let k = choose|k: int|
                        0 <= k < i && listed_names(#[trigger] model.take(i as int)[k]).contains(t);
                    assert(model.take(i + 1)[k] == model.take(i as int)[k]);
                }
                if listed_names(model[i as int]).contains(t) {
                    assert(model.take(i + 1)[i as int] == model[i as int]);
                }
                if names.contains(t) {
                    let k = choose|k: int|
                        0 <= k < i + 1 && listed_names(#[trigger] model.take(i + 1)[k]).contains(t);
                    if k < i {
                        assert(model.take(i as int)[k] == model.take(i + 1)[k]);
                    }
                }
            }
            assert(tokens@ =~= names);
        }
        i += 1;
    }
    assert(model.take(model.len() as int) =~= model);
    tokens
}

pub fn should_strip_header(name: &HeaderName, connection: &StringHashSet) -> (r: bool)
    ensures
        r == stripped(name_text(*name), connection@),
{
    is_hop_by_hop(name.as_str()) || connection.contains(name.as_str())
}

// ---------------------------------------------------------------------------
// Fields that pass
// ---------------------------------------------------------------------------

/// A message with more field names than a `HeaderMap` can take in.
#[derive(Clone, Copy, Debug, PartialEq, Eq, Structural)]
pub struct TooManyHeaders;

/// The method sends no body, and is safe to repeat.
pub open spec fn is_repeatable(method: Seq<char>) -> bool {
    method == "GET"@ || method == "HEAD"@
}

pub fn repeatable(method: &str) -> (r: bool)
    ensures
        r == is_repeatable(method@),
{
    text::same_text(method, "GET") || text::same_text(method, "HEAD")
}

/// The request field goes on to the upstream.
pub open spec fn forwardable(
    name: Seq<char>,
    method: Seq<char>,
    connection: Set<Seq<char>>,
) -> bool {
    &&& !stripped(name, connection)
    &&& name != "host"@
    &&& !(is_repeatable(method) && (name == "content-length"@ || name == "transfer-encoding"@))
}

/// The value that carries the client address; empty where the address is no
/// field value.
pub open spec fn address_value(client_ip: Seq<char>) -> Seq<u8> {
    let bytes = vstd::utf8::encode_utf8(client_ip);
    if is_value(bytes) {
        bytes
    } else {
        Seq::empty()
    }
}

/// The fields of the upstream request: the forwardable ones of the client's,
/// each with its last value, and the client address.
pub open spec fn forwarded(
    fields: Map<Seq<char>, Seq<Seq<u8>>>,
    method: Seq<char>,
    client_ip: Seq<char>,
) -> Map<Seq<char>, Seq<Seq<u8>>> {
    Map::new(
        |name: Seq<char>|
            fields.contains_key(name) && forwardable(name, method, connection_fields(fields)),
        |name: Seq<char>| seq![fields[name].last()],
    ).insert("x-forwarded-for"@, seq![address_value(client_ip)]).insert(
        "x-real-ip"@,
        seq![address_value(client_ip)],
    )
}

/// The fields of the reply: those of the upstream's that are not stripped.
pub open spec fn returned(fields: Map<Seq<char>, Seq<Seq<u8>>>) -> Map<Seq<char>, Seq<Seq<u8>>> {
    Map::new(
        |name: Seq<char>| fields.contains_key(name) && !stripped(name, connection_fields(fields)),
        |name: Seq<char>| fields[name],
    )
}

/// The message has no more than `n` field names.
pub open spec fn names_within(fields: Map<Seq<char>, Seq<Seq<u8>>>, n: int) -> bool {
    fields.dom().finite() && fields.dom().len() <= n
}

fn request_field_passes(
    name: &HeaderName,
    method: &str,
    connection: &StringHashSet,
) -> (r: bool)
    ensures
        r == forwardable(name_text(*name), method@, connection@),
{
    let n = name.as_str();
    if should_strip_header(name, connection) || text::same_text(n, "host") {
        return false;
    }
    !(repeatable(method) && (text::same_text(n, "content-length") || text::same_text(n, "transfer-encoding")))
}

/// A map whose names are among those of another holds no more of them.
proof fn lemma_fewer_names(
    some: Map<Seq<char>, Seq<Seq<u8>>>,
    all: Map<Seq<char>, Seq<Seq<u8>>>,
    n: int,
)
    requires
        names_within(all, n),
        forall|name: Seq<char>| #[trigger] some.contains_key(name) ==> all.contains_key(name),
    ensures
        names_within(some, n),
{
    assert(some.dom().subset_of(all.dom())) by {
        assert forall|name: Seq<char>| some.dom().contains(name) implies all.dom().contains(name) by {
            assert(some.contains_key(name));
            assert(all.contains_key(name));
        }
    }
    vstd::set_lib::lemma_len_subset(some.dom(), all.dom());
}

fn client_value(client_ip: &str) -> (r: HeaderValue)
    ensures
        value_bytes(r) == address_value(client_ip@),
{
    match HeaderValue::from_str(client_ip) {
        Ok(v) => v,
        Err(_) => {
            proof {
                reveal_strlit("");
                assert(""@ =~= Seq::<char>::empty());
                assert(vstd::utf8::encode_utf8(""@) =~= Seq::<u8>::empty());
            }
            HeaderValue::from_static("")
        },
    }
}

/// A part of the pairs names no more values than all of them.
proof fn lemma_named_prefix(pairs: Seq<(HeaderName, HeaderValue)>, n: int, name: Seq<char>)
    requires
        0 <= n <= pairs.len(),
    ensures
        values_named(pairs.take(n), name).len() <= values_named(pairs, name).len(),
    decreases pairs.len() - n,
{
    if n < pairs.len() {
        lemma_named_prefix(pairs, n + 1, name);
        assert(pairs.take(n + 1).drop_last() =~= pairs.take(n));
    } else {
        assert(pairs.take(n) =~= pairs);
    }
}

/// The header fields of the upstream request.
pub fn forward_headers(headers: &HeaderMap, method: &str, client_ip: &str) -> (r: Result<
    HeaderMap,
    TooManyHeaders,
>)
    ensures
        r matches Ok(fwd) ==> header_fields(fwd) == forwarded(
            header_fields(*headers),
            method@,
            client_ip@,
        ),
        names_within(header_fields(*headers), ROOMY_NAMES - 1) ==> r is Ok,
{
    let ghost fields = header_fields(*headers);
    let connection = connection_tokens(headers);
    let pairs = all_pairs(headers);
    let mut fwd = HeaderMap::new();
    let mut i: usize = 0;
    while i < pairs.len()
        invariant
            i <= pairs.len(),
            fields == header_fields(*headers),
            connection@ == connection_fields(fields),
            forall|name: Seq<char>| #[trigger]
                fields.contains_key(name) <==> values_named(pairs@, name).len() > 0,
            forall|name: Seq<char>| #[trigger]
                header_fields(fwd).contains_key(name) <==> forwardable(name, method@, connection@)
                    && values_named(pairs@.take(i as int), name).len() > 0,
            forall|name: Seq<char>| #[trigger]
                header_fields(fwd).contains_key(name) ==> header_fields(fwd)[name] == seq![
                    values_named(pairs@.take(i as int), name).last(),
                ],
        decreases pairs.len() - i,
    {
        proof {
            assert(pairs@.take(i + 1).drop_last() =~= pairs@.take(i as int));
            if names_within(fields, ROOMY_NAMES - 1) {
                assert forall|name: Seq<char>| #[trigger]
                    header_fields(fwd).contains_key(name) implies fields.contains_key(name) by {
                    lemma_named_prefix(pairs@, i as int, name);
                }
                lemma_fewer_names(header_fields(fwd), fields, ROOMY_NAMES - 1);
            }
        }
        if request_field_passes(&pairs[i].0, method, &connection) {
            if put(&mut fwd, pairs[i].0.clone(), pairs[i].1.clone()).is_err() {
                return Err(TooManyHeaders);
            }
        }
        i += 1;
    }
    let ghost kept = header_fields(fwd);
    proof {
        assert(pairs@.take(pairs.len() as int) =~= pairs@);
        if names_within(fields, ROOMY_NAMES - 1) {
            lemma_fewer_names(kept, fields, ROOMY_NAMES - 1);
        }
        assert(kept =~= Map::new(
            |name: Seq<char>|
                fields.contains_key(name) && forwardable(name, method@, connection_fields(fields)),
            |name: Seq<char>| seq![fields[name].last()],
        ));
        reveal_strlit("x-forwarded-for");
        reveal_strlit("x-real-ip");
    }
    let address = client_value(client_ip);
    if put(&mut fwd, HeaderName::from_static("x-forwarded-for"), address.clone()).is_err() {
        return Err(TooManyHeaders);
    }
    if put(&mut fwd, HeaderName::from_static("x-real-ip"), address).is_err() {
        return Err(TooManyHeaders);
    }
    Ok(fwd)
}

/// The header fields of the reply.
pub fn reply_headers(headers: &HeaderMap) -> (r: Result<HeaderMap, TooManyHeaders>)
    ensures
        r matches Ok(kept) ==> header_fields(kept) == returned(header_fields(*headers)),
        names_within(header_fields(*headers), ROOMY_NAMES as int) ==> r is Ok,
{
    let ghost fields = header_fields(*headers);
    let connection = connection_tokens(headers);
    let pairs = all_pairs(headers);
    let mut out = HeaderMap::new();
    let mut i: usize = 0;
    while i < pairs.len()
        invariant
            i <= pairs.len(),
            fields == header_fields(*headers),
            connection@ == connection_fields(fields),
            forall|name: Seq<char>| #[trigger]
                fields.contains_key(name) <==> values_named(pairs@, name).len() > 0,
            forall|name: Seq<char>| #[trigger]
                header_fields(out).contains_key(name) <==> !stripped(name, connection@)
                    && values_named(pairs@.take(i as int), name).len() > 0,
            forall|name: Seq<char>| #[trigger]
                header_fields(out).contains_key(name) ==> header_fields(out)[name] == values_named(
                    pairs@.take(i as int),
                    name,
                ),
        decreases pairs.len() - i,
    {
        proof {
            assert(pairs@.take(i + 1).drop_last() =~= pairs@.take(i as int));
            if names_within(fields, ROOMY_NAMES as int) {
                assert forall|name: Seq<char>| #[trigger]
                    header_fields(out).contains_key(name) implies fields.contains_key(name) by {
                    lemma_named_prefix(pairs@, i as int, name);
                }
                lemma_fewer_names(header_fields(out), fields, ROOMY_NAMES as int);
            }
        }
        if !should_strip_header(&pairs[i].0, &connection) {
            if append(&mut out, pairs[i].0.clone(), pairs[i].1.clone()).is_err() {
                return Err(TooManyHeaders);
            }
        }
        i += 1;
    }
    proof {
        assert(pairs@.take(pairs.len() as int) =~= pairs@);
        assert(header_fields(out) =~= returned(fields));
    }
    Ok(out)
}

/// The value of the `Host` field as text, without white space around it; absent
/// where there is no such field or it is no text.
pub open spec fn host_field(fields: Map<Seq<char>, Seq<Seq<u8>>>) -> Option<Seq<char>> {
    let values = values_under(fields, "host"@);
    if values.len() > 0 && all_visible(values[0]) {
        Some(text::trimmed(ascii_text(values[0])))
    } else {
        None
    }
}

pub fn host_header(headers: &HeaderMap) -> (r: Option<String>)
    ensures
        text::opt_text(r) == host_field(header_fields(*headers)),
{
    proof {
        reveal_strlit("host");
    }
    match first_value(headers, "host") {
        Some(value) => match value.to_str() {
            Ok(host) => Some(text::trim(host)),
            Err(_) => None,
        },
        None => None,
    }
}

} // verus!
