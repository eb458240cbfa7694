//! Request URIs, as far as the proxy reads them, and the host that a `Host`
//! header names.
use vstd::prelude::*;

use crate::text;

verus! {

broadcast use vstd::string::group_string_axioms;

/// What is read of a URI.
#[verifier::ext_equal]
pub struct UriView {
    /// User information, host and port, as they stand.
    pub authority: Option<Seq<char>>,
    pub host: Option<Seq<char>>,
    pub port: Option<u16>,
    pub path: Seq<char>,
    pub query: Option<Seq<char>>,
}

#[derive(Debug, Clone)]
pub struct UriParts {
    pub authority: Option<String>,
    pub host: Option<String>,
    pub port: Option<u16>,
    pub path: String,
    pub query: Option<String>,
}

impl View for UriParts {
    type V = UriView;

    open spec fn view(&self) -> UriView {
        UriView {
            authority: text::opt_text(self.authority),
            host: text::opt_text(self.host),
            port: self.port,
            path: self.path@,
            query: text::opt_text(self.query),
        }
    }
}

/// A parsed URI, or the reason why the text is none.
pub open spec fn parsed_view(parsed: Result<UriParts, String>) -> Result<UriView, Seq<char>> {
    match parsed {
        Ok(parts) => Ok(parts@),
        Err(reason) => Err(reason@),
    }
}

/// What `<http::Uri as FromStr>::from_str` makes of a text: the parts of the URI,
/// as its accessors show them, or its error as `Display` writes it.
pub uninterp spec fn uri_parse(raw: Seq<char>) -> Result<UriView, Seq<char>>;

/// The URI that has a `Host` header as its authority.
pub open spec fn host_uri(host_header: Seq<char>) -> Seq<char> {
    "http://"@ + host_header + "/"@
}

/// A letter in lower case, a digit, a hyphen or a dot.
pub open spec fn is_plain(c: char) -> bool {
    'a' <= c <= 'z' || '0' <= c <= '9' || c == '-' || c == '.'
}

/// A host name made of plain characters.
pub open spec fn is_plain_host(host: Seq<char>) -> bool {
    host.len() > 0 && forall|i: int| 0 <= i < host.len() ==> is_plain(#[trigger] host[i])
}

/// Nothing, or a colon and the digits of a port.
pub open spec fn is_port_part(port: Seq<char>) -> bool {
    port.len() > 0 ==> port.len() > 1 && port[0] == ':' && forall|i: int|
        1 <= i < port.len() ==> '0' <= #[trigger] port[i] <= '9'
}

/// The longest text that can be a URI.
pub const MAX_URI_LEN: usize = 65534;

/// A URI that consists of a plain host, perhaps with a port, is read as such.
pub open spec fn plain_hosts_are_read(raw: Seq<char>, parsed: Result<UriView, Seq<char>>) -> bool {
    forall|host: Seq<char>, port: Seq<char>|
        #[trigger] is_plain_host(host) && #[trigger] is_port_part(port) && raw == host_uri(
            host + port,
        ) && raw.len() <= MAX_URI_LEN ==> {
            &&& parsed is Ok
            &&& parsed->Ok_0.authority == Some(host + port)
            &&& parsed->Ok_0.host == Some(host)
            &&& parsed->Ok_0.path == "/"@
            &&& parsed->Ok_0.query is None
        }
}

/// The host of a URI is a part of its authority.
pub open spec fn host_is_of_authority(parsed: Result<UriView, Seq<char>>) -> bool {
    match parsed {
        Ok(uri) => match (uri.authority, uri.host) {
            (Some(authority), Some(host)) => forall|i: int|
                0 <= i < host.len() ==> authority.contains(#[trigger] host[i]),
            _ => true,
        },
        Err(_) => true,
    }
}

/// `<http::Uri as FromStr>::from_str`, then `Uri::authority`, `host`, `port_u16`,
/// `path` and `query` on the result. The outcome depends on the text alone; a host is
/// cut out of the authority, and a plain host with or without a port is read as such.
/// The grammar of URIs is not spelled out beyond that.
#[verifier::external_body]
pub(crate) fn parse_uri(raw: &str) -> (parsed: Result<UriParts, String>)
    ensures
        parsed_view(parsed) == uri_parse(raw@),
        host_is_of_authority(parsed_view(parsed)),
        plain_hosts_are_read(raw@, parsed_view(parsed)),
{
    let uri = raw.parse::<http::Uri>().map_err(|e| e.to_string())?;
    Ok(UriParts {
        authority: uri.authority().map(|a| a.as_str().to_string()),
        host: uri.host().map(|h| h.to_string()),
        port: uri.port_u16(),
        path: uri.path().to_string(),
        query: uri.query().map(|q| q.to_string()),
    })
}

/// The host of a URI; empty where it has none.
pub open spec fn host_or_empty(uri: UriView) -> Seq<char> {
    match uri.host {
        Some(host) => host,
        None => Seq::empty(),
    }
}

pub fn host_text(uri: &UriParts) -> (r: String)
    ensures
        r@ == host_or_empty(uri@),
{
    match &uri.host {
        Some(host) => host.clone(),
        None => String::new(),
    }
}

/// A host name without the brackets of an IPv6 literal and without dots at its end,
/// in lower case.
pub open spec fn bare_host(host: Seq<char>) -> Seq<char> {
    text::lower(
        text::trim_end(
            text::trim_end(text::trim_start(host, text::only('[')), text::only(']')),
            text::only('.'),
        ),
    )
}

/// The host of a URI that consists of scheme, host and perhaps a port, and nothing
/// else.
pub open spec fn lone_host(uri: UriView) -> Option<Seq<char>> {
    match (uri.authority, uri.host) {
        (Some(authority), Some(host)) => if uri.path == "/"@ && uri.query is None
            && !authority.contains('@') && bare_host(host).len() > 0 {
            Some(bare_host(host))
        } else {
            None
        },
        _ => None,
    }
}

/// The host that a parsed URI is about, if it names nothing but a host.
pub fn host_name_from_uri(uri: &UriParts) -> (r: Option<String>)
    ensures
        text::opt_text(r) == lone_host(uri@),
{
    if !text::same_text(&uri.path, "/") || uri.query.is_some() {
        return None;
    }
    match &uri.authority {
        None => return None,
        Some(authority) => {
            if text::contains_char(authority, '@') {
                return None;
            }
        },
    }
    match &uri.host {
        None => None,
        Some(host) => {
            let start = text::trim_start_char(host, '[');
            let middle = text::trim_end_char(&start, ']');
            let bare = text::to_lower(&text::trim_end_char(&middle, '.'));
            if bare.as_str().is_empty() {
                None
            } else {
                Some(bare)
            }
        },
    }
}

/// The host that a `Host` header names.
pub open spec fn named_host(host_header: Seq<char>) -> Option<Seq<char>> {
    match uri_parse(host_uri(host_header)) {
        Ok(uri) => lone_host(uri),
        Err(_) => None,
    }
}

/// A plain host that does not end in a dot is named by itself, with or without a port.
pub open spec fn plain_hosts_are_named(host_header: Seq<char>, named: Option<Seq<char>>) -> bool {
    forall|host: Seq<char>, port: Seq<char>|
        #[trigger] is_plain_host(host) && #[trigger] is_port_part(port) && host.last() != '.'
            && host_header == host + port && host_uri(host_header).len() <= MAX_URI_LEN ==> named
            == Some(host)
}

proof fn lemma_plain_is_bare(host: Seq<char>)
    requires
        is_plain_host(host),
        host.last() != '.',
    ensures
        bare_host(host) == host,
{
    assert(is_plain(host[0]));
    assert(is_plain(host[host.len() - 1]));
    assert(text::lower(host) =~= host);
}

/// What is left of a host holds only characters of the host, in lower case.
proof fn lemma_bare_host_chars(host: Seq<char>)
    ensures
        !host.contains('@') ==> !bare_host(host).contains('@'),
{
    let a = text::trim_start(host, text::only('['));
    let b = text::trim_end(a, text::only(']'));
    let c = text::trim_end(b, text::only('.'));
    text::lemma_trim_start(host, text::only('['));
    text::lemma_trim_end(a, text::only(']'));
    text::lemma_trim_end(b, text::only('.'));
    if bare_host(host).contains('@') {
        let i = choose|i: int| 0 <= i < c.len() && text::lower(c)[i] == '@';
        assert(c[i] == '@');
        assert(b[i] == '@');
        assert(a[i] == '@');
        assert(host[host.len() - a.len() + i] == '@');
    }
}

/// The host that a `Host` header names. It holds no user name; and a plain host that is
/// named can itself stand in a header, with or without a port, and is named again.
pub fn host_name_from_header(host_header: &str) -> (r: Option<String>)
    ensures
        text::opt_text(r) == named_host(host_header@),
        r is Some ==> !r->0@.contains('@'),
        plain_hosts_are_named(host_header@, text::opt_text(r)),
{
    let raw = text::joined(&text::joined("http://", host_header), "/");
    match parse_uri(&raw) {
        Ok(uri) => {
            proof {
                if let Some(host) = uri@.host {
                    lemma_bare_host_chars(host);
                    if uri@.authority is Some && host.contains('@') {
                        let i = choose|i: int| 0 <= i < host.len() && host[i] == '@';
                        assert(uri@.authority->0.contains(host[i]));
                    }
                }
                assert forall|host: Seq<char>, port: Seq<char>|
                    #[trigger] is_plain_host(host) && #[trigger] is_port_part(port) && host.last()
                        != '.' && host_header@ == host + port && host_uri(host_header@).len()
                        <= MAX_URI_LEN implies lone_host(uri@) == Some(host) by {
                    assert(raw@ == host_uri(host + port));
                    lemma_plain_is_bare(host);
                    let authority = host + port;
                    if authority.contains('@') {
                        let i = choose|i: int| 0 <= i < authority.len() && authority[i] == '@';
                        if i < host.len() {
                            assert(is_plain(host[i]));
                        } else {
                            assert(port[i - host.len()] == '@');
                        }
                    }
                }
            }
            host_name_from_uri(&uri)
        },
        Err(_) => None,
    }
}

} // verus!
