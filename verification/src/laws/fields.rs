//! What holds of header fields: which of them pass, and with which values.
use vstd::prelude::*;

use crate::headers;
use crate::laws::texts;
use crate::text;

verus! {

/// The names of the fields that concern one connection only.
pub open spec fn connection_only() -> Seq<Seq<char>> {
    seq![
        "connection"@,
        "keep-alive"@,
        "proxy-authenticate"@,
        "proxy-authorization"@,
        "proxy-connection"@,
        "te"@,
        "trailer"@,
        "transfer-encoding"@,
        "upgrade"@,
    ]
}

/// The text between two commas, or between a comma and an end of the text.
pub open spec fn is_item(s: Seq<char>, from: int, to: int) -> bool {
    &&& 0 <= from <= to <= s.len()
    &&& from == 0 || s[from - 1] == ','
    &&& to == s.len() || s[to] == ','
    &&& forall|i: int| from <= i < to ==> #[trigger] s[i] != ','
}

/// The value is text, and one of its items is the name, in whatever case and with white
/// space around it or not.
pub open spec fn value_lists(value: Seq<u8>, name: Seq<char>) -> bool {
    &&& forall|i: int| 0 <= i < value.len() ==> 32 <= #[trigger] value[i] < 127 || value[i] == 9
    &&& name.len() > 0
    &&& exists|from: int, to: int| #[trigger]
        is_item(headers::ascii_text(value), from, to) && name == text::lower(
            text::trimmed(headers::ascii_text(value).subrange(from, to)),
        )
}

/// The characters of a value are its bytes.
pub proof fn values_are_read_byte_by_byte(value: Seq<u8>)
    ensures
        headers::ascii_text(value).len() == value.len(),
        forall|i: int|
            0 <= i < value.len() && value[i] < 128 ==> (#[trigger] headers::ascii_text(
                value,
            )[i]) as int == value[i] as int,
{
}

/// A value lists the items between its commas.
pub proof fn values_list_their_items(value: Seq<u8>, name: Seq<char>)
    ensures
        headers::listed_names(value).contains(name) <==> value_lists(value, name),
{
    let s = headers::ascii_text(value);
    let n = s.len() as int;
    let pieces = text::split(s, text::only(','));
    texts::pieces_stand_between_separators(s, ',');
    if headers::listed_names(value).contains(name) {
        let j = choose|j: int|
            0 <= j < pieces.len() && name == text::lower(text::trimmed(#[trigger] pieces[j]));
        if j < pieces.len() - 1 {
            assert(pieces.drop_last()[j] == pieces[j]);
            let (from, to) = choose|from: int, to: int| #[trigger]
                texts::is_ended_piece(s, ',', from, to) && pieces[j] == s.subrange(from, to);
            assert(is_item(s, from, to));
        } else {
            let from = choose|from: int| #[trigger]
                texts::is_last_piece(s, ',', from) && pieces.last() == s.subrange(from, n);
            assert(is_item(s, from, n));
        }
        assert forall|i: int| 0 <= i < value.len() implies 32 <= #[trigger] value[i] < 127
            || value[i] == 9 by {
            assert(headers::is_visible(value[i]));
        }
    }
    if value_lists(value, name) {
        let (from, to) = choose|from: int, to: int| #[trigger]
            is_item(s, from, to) && name == text::lower(text::trimmed(s.subrange(from, to)));
        if to < n {
            assert(texts::is_ended_piece(s, ',', from, to));
            let j = choose|j: int|
                0 <= j < pieces.drop_last().len() && pieces.drop_last()[j] == s.subrange(from, to);
            assert(pieces[j] == s.subrange(from, to));
        } else {
            assert(texts::is_last_piece(s, ',', from));
            assert(pieces[pieces.len() - 1] == s.subrange(from, to));
        }
    }
}

/// Some `Connection` value of the message lists the name.
pub open spec fn message_lists(fields: Map<Seq<char>, Seq<Seq<u8>>>, name: Seq<char>) -> bool {
    fields.contains_key("connection"@) && exists|i: int|
        0 <= i < fields["connection"@].len() && value_lists(
            #[trigger] fields["connection"@][i],
            name,
        )
}

/// The field stays behind: it concerns one connection only, or the message says that it
/// does.
pub open spec fn stays_behind(fields: Map<Seq<char>, Seq<Seq<u8>>>, name: Seq<char>) -> bool {
    connection_only().contains(text::lower(name)) || message_lists(fields, name)
}

proof fn lemma_stripped_stays_behind(fields: Map<Seq<char>, Seq<Seq<u8>>>, name: Seq<char>)
    ensures
        headers::stripped(name, headers::connection_fields(fields)) <==> stays_behind(fields, name),
{
    let c = connection_only();
    let n = text::lower(name);
    assert(c[0] == "connection"@);
    assert(c[1] == "keep-alive"@);
    assert(c[2] == "proxy-authenticate"@);
    assert(c[3] == "proxy-authorization"@);
    assert(c[4] == "proxy-connection"@);
    assert(c[5] == "te"@);
    assert(c[6] == "trailer"@);
    assert(c[7] == "transfer-encoding"@);
    assert(c[8] == "upgrade"@);
    assert(headers::hop_by_hop(name) == c.contains(n)) by {
        if c.contains(n) {
            let i = choose|i: int| 0 <= i < c.len() && c[i] == n;
            assert(0 <= i < 9);
        }
    }
    let values = headers::values_under(fields, "connection"@);
    if headers::connection_fields(fields).contains(name) {
        let i = choose|i: int|
            0 <= i < values.len() && headers::listed_names(#[trigger] values[i]).contains(name);
        values_list_their_items(values[i], name);
        assert(value_lists(fields["connection"@][i], name));
    }
    if message_lists(fields, name) {
        let i = choose|i: int|
            0 <= i < fields["connection"@].len() && value_lists(
                #[trigger] fields["connection"@][i],
                name,
            );
        values_list_their_items(values[i], name);
        assert(headers::listed_names(values[i]).contains(name));
    }
}

/// A field of the reply reaches the client, with all its values in their order, exactly
/// where it does not stay behind; and nothing else does.
pub proof fn reply_fields_reach_the_client(
    fields: Map<Seq<char>, Seq<Seq<u8>>>,
    name: Seq<char>,
)
    ensures
        headers::returned(fields).contains_key(name) <==> fields.contains_key(name)
            && !stays_behind(fields, name),
        headers::returned(fields).contains_key(name) ==> headers::returned(fields)[name]
            == fields[name],
{
    lemma_stripped_stays_behind(fields, name);
}

/// A field of the request reaches the upstream, with its last value, exactly where it does
/// not stay behind, is not `Host`, and is not the length of a body that a GET or HEAD does
/// not send. The two fields that carry the client address are always there, and carry that
/// alone.
pub proof fn request_fields_reach_the_upstream(
    fields: Map<Seq<char>, Seq<Seq<u8>>>,
    method: Seq<char>,
    client_ip: Seq<char>,
    name: Seq<char>,
)
    ensures
        ({
            let sent = headers::forwarded(fields, method, client_ip);
            let own = name == "x-forwarded-for"@ || name == "x-real-ip"@;
            &&& own ==> sent.contains_key(name) && sent[name].len() == 1 && sent[name][0]
                == headers::address_value(client_ip)
            &&& !own ==> (sent.contains_key(name) <==> {
                &&& fields.contains_key(name)
                &&& !stays_behind(fields, name)
                &&& name != "host"@
                &&& !(name == "content-length"@ && (method == "GET"@ || method == "HEAD"@))
            })
            &&& !own && sent.contains_key(name) ==> sent[name].len() == 1 && sent[name][0]
                == fields[name].last()
        }),
{
    lemma_stripped_stays_behind(fields, name);
    if name == "transfer-encoding"@ {
        reveal_strlit("transfer-encoding");
        assert(text::lower(name) =~= name);
        assert(connection_only()[7] == name);
    }
}

/// The client address goes out as it is written, where it can stand in a field at all, and
/// as nothing where it cannot.
pub proof fn addresses_go_out_as_written(client_ip: Seq<char>)
    ensures
        ({
            let bytes = vstd::utf8::encode_utf8(client_ip);
            let fits = forall|i: int|
                0 <= i < bytes.len() ==> (#[trigger] bytes[i] >= 32 && bytes[i] != 127) || bytes[i] == 9;
            headers::address_value(client_ip) == if fits {
                bytes
            } else {
                Seq::<u8>::empty()
            }
        }),
{
}

/// The host that a request asks for is the first value of its `Host` field, without the
/// white space around it; there is none without the field, or where the value is no text.
pub proof fn the_first_host_value_counts(fields: Map<Seq<char>, Seq<Seq<u8>>>)
    ensures
        headers::host_field(fields) is Some <==> {
            &&& fields.contains_key("host"@)
            &&& fields["host"@].len() > 0
            &&& forall|i: int|
                0 <= i < fields["host"@][0].len() ==> 32 <= #[trigger] fields["host"@][0][i] < 127
                    || fields["host"@][0][i] == 9
        },
        headers::host_field(fields) is Some ==> headers::host_field(fields)->0 == text::trimmed(
            headers::ascii_text(fields["host"@][0]),
        ),
{
    if fields.contains_key("host"@) && fields["host"@].len() > 0 {
        let value = fields["host"@][0];
        if headers::all_visible(value) {
            assert forall|i: int| 0 <= i < value.len() implies 32 <= #[trigger] value[i] < 127
                || value[i] == 9 by {
                assert(headers::is_visible(value[i]));
            }
        }
    }
}

/// Requests with GET and HEAD, and no others, send no body and can be repeated.
pub proof fn gets_and_heads_can_be_repeated(method: Seq<char>)
    ensures
        headers::is_repeatable(method) <==> seq!["GET"@, "HEAD"@].contains(method),
{
    let m = seq!["GET"@, "HEAD"@];
    assert(m[0] == "GET"@);
    assert(m[1] == "HEAD"@);
}

} // verus!
