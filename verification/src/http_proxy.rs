//! Requests to the forward proxy: request line, header fields, credentials,
//! targets and message framing.

use crate::bytes_text::{
    byte_chars, chars_of_bytes, find_byte, first_byte, same_bytes, strip_crlf, utf8_text,
    without_crlf, copy_bytes,
};
use crate::host_name::{is_valid_host, valid_host};
use crate::ip_address::{ip_address, ip_text, ip_to_text, ipv6_groups, parse_ip, parse_ipv6};
use crate::number::{decimal, parse_number, parsed_number, push_decimal};
use crate::text::{
    ascii_alphanumeric, ascii_control, ascii_upper, ascii_white_space, chars_are,
    chars_are_ignoring_case, chars_of, find, first_index, fits_utf8, has_char, has_prefix,
    is_ascii_alphanumeric, is_ascii_control, is_ascii_upper, is_ascii_white_space, last_index,
    lower, lowered, pieces, push_chars, rfind, same_chars, same_ignoring_case, same_text, slice_of,
    split, starts_with, string_of, texts, trim, trimmed, utf8_len, copy_chars,
};
use vstd::prelude::*;
use vstd::slice::*;
use vstd::string::*;
use vstd::utf8::*;

verus! {

/// The bytes that a request or response head may take.
pub const MAX_HEADER_BYTES: usize = 65_536;

/// The header lines that a head may have.
pub const MAX_HEADER_COUNT: usize = 200;

/// How the body of a message ends.
#[derive(Clone, Copy, Debug, Eq, PartialEq, Structural)]
pub enum RequestBody {
    Empty,
    ContentLength(u64),
    Chunked,
}

/// Why a request was refused.
#[derive(Clone, Copy, Debug, Eq, PartialEq, Structural)]
pub enum RequestError {
    Authentication,
    Malformed,
    HeaderTooLarge,
}

/// What a request asks the proxy to do.
#[derive(Debug, Eq, PartialEq)]
pub enum ProxyRequestKind {
    /// Forward one HTTP exchange.
    Forward { encoded_head: Vec<u8>, body: RequestBody, head_request: bool },
    /// Open a tunnel.
    Connect,
}

pub enum ProxyRequestKindModel {
    Forward { encoded_head: Seq<u8>, body: RequestBody, head_request: bool },
    Connect,
}

/// A request to the proxy.
#[derive(Debug, Eq, PartialEq)]
pub struct ProxyRequest {
    pub target_host: String,
    pub target_port: u16,
    pub kind: ProxyRequestKind,
}

pub struct ProxyRequestModel {
    pub target_host: Seq<char>,
    pub target_port: u16,
    pub kind: ProxyRequestKindModel,
}

impl View for ProxyRequest {
    type V = ProxyRequestModel;

    open spec fn view(&self) -> ProxyRequestModel {
        ProxyRequestModel {
            target_host: self.target_host@,
            target_port: self.target_port,
            kind: match self.kind {
                ProxyRequestKind::Forward { encoded_head, body, head_request } => {
                    ProxyRequestKindModel::Forward { encoded_head: encoded_head@, body, head_request }
                },
                ProxyRequestKind::Connect => ProxyRequestKindModel::Connect,
            },
        }
    }
}

// ---------------------------------------------------------------------------
// Header fields
// ---------------------------------------------------------------------------

/// A header field: its name in lower case and its value.
pub type HeaderModel = (Seq<char>, Seq<char>);

/// The views of a list of header fields.
pub open spec fn header_models(v: Seq<(String, String)>) -> Seq<HeaderModel> {
    v.map_values(|h: (String, String)| (h.0@, h.1@))
}

pub open spec fn lines_of(v: Seq<Vec<u8>>) -> Seq<Seq<u8>> {
    v.map_values(|line: Vec<u8>| line@)
}

/// A character of a header name.
pub open spec fn token_char(c: char) -> bool {
    ||| ascii_alphanumeric(c)
    ||| c == '!'
    ||| c == '#'
    ||| c == '$'
    ||| c == '%'
    ||| c == '&'
    ||| c == '\''
    ||| c == '*'
    ||| c == '+'
    ||| c == '-'
    ||| c == '.'
    ||| c == '^'
    ||| c == '_'
    ||| c == '`'
    ||| c == '|'
    ||| c == '~'
}

/// A header name.
pub open spec fn token(s: Seq<char>) -> bool {
    s.len() > 0 && forall|i: int| 0 <= i < s.len() ==> token_char(#[trigger] s[i])
}

/// Whether the text holds a control character other than a tab.
pub open spec fn has_forbidden_control(s: Seq<char>) -> bool {
    exists|i: int| 0 <= i < s.len() && ascii_control(#[trigger] s[i]) && s[i] != '\t'
}

/// The field of a header line: the name before the first colon and the trimmed
/// value behind it.
pub open spec fn header_field(line: Seq<u8>) -> Option<HeaderModel> {
    let bare = without_crlf(line);
    let colon = first_byte(bare, 58);
    let name = byte_chars(bare.take(colon));
    let value = bare.skip(colon + 1);
    if bare.len() > 0 && ascii_white_space(bare[0] as char) {
        None
    } else if colon >= bare.len() || !token(name) || !valid_utf8(value) {
        None
    } else if has_forbidden_control(trim(decode_utf8(value))) {
        None
    } else {
        Some((lower(name), trim(decode_utf8(value))))
    }
}

/// The fields of the header lines, where each of them has one.
pub open spec fn header_fields(lines: Seq<Seq<u8>>) -> Option<Seq<HeaderModel>>
    decreases lines.len(),
{
    if lines.len() == 0 {
        Some(Seq::empty())
    } else {
        match (header_fields(lines.drop_last()), header_field(lines.last())) {
            (Some(rest), Some(field)) => Some(rest.push(field)),
            _ => None,
        }
    }
}

/// The values of a header name, in order.
pub open spec fn values_of(headers: Seq<HeaderModel>, name: Seq<char>) -> Seq<Seq<char>>
    decreases headers.len(),
{
    if headers.len() == 0 {
        Seq::empty()
    } else {
        let rest = values_of(headers.drop_last(), name);
        if headers.last().0 == name {
            rest.push(headers.last().1)
        } else {
            rest
        }
    }
}

fn is_token_char(c: char) -> (r: bool)
    ensures
        r == token_char(c),
{
    is_ascii_alphanumeric(c) || c == '!' || c == '#' || c == '$' || c == '%' || c == '&' || c
        == '\'' || c == '*' || c == '+' || c == '-' || c == '.' || c == '^' || c == '_' || c == '`'
        || c == '|' || c == '~'
}

pub fn is_token(s: &[char]) -> (r: bool)
    ensures
        r == token(s@),
{
    if s.len() == 0 {
        return false;
    }
    let mut i: usize = 0;
    while i < s.len()
        invariant
            i <= s@.len(),
            forall|j: int| 0 <= j < i ==> token_char(#[trigger] s@[j]),
        decreases s@.len() - i,
    {
        if !is_token_char(s[i]) {
            assert(!token_char(s@[i as int]));
            return false;
        }
        i = i + 1;
    }
    true
}

fn holds_forbidden_control(s: &[char]) -> (r: bool)
    ensures
        r == has_forbidden_control(s@),
{
    let mut i: usize = 0;
    while i < s.len()
        invariant
            i <= s@.len(),
            forall|j: int| 0 <= j < i ==> !(ascii_control(#[trigger] s@[j]) && s@[j] != '\t'),
        decreases s@.len() - i,
    {
        if is_ascii_control(s[i]) && s[i] != '\t' {
            assert(ascii_control(s@[i as int]) && s@[i as int] != '\t');
            return true;
        }
        i = i + 1;
    }
    false
}

/// The field of one header line.
pub fn parse_header(line: &[u8]) -> (r: Option<(String, String)>)
    ensures
        match r {
            Some(field) => header_field(line@) == Some((field.0@, field.1@)),
            None => header_field(line@) is None,
        },
{
    let bare = strip_crlf(line);
    if bare.len() > 0 && is_ascii_white_space(bare[0] as char) {
        return None;
    }
    let colon: usize = match find_byte(bare, 58) {
        Some(colon) => colon,
        None => {
            return None;
        },
    };
    let name_bytes = slice_subrange(bare, 0, colon);
    let name = chars_of_bytes(name_bytes);
    assert(bare@.subrange(0, colon as int) =~= bare@.take(colon as int));
    if !is_token(&name) {
        return None;
    }
    let value_bytes = slice_subrange(bare, colon + 1, bare.len());
    assert(value_bytes@ =~= bare@.skip(colon + 1));
    let text = match utf8_text(value_bytes) {
        Some(text) => text,
        None => {
            return None;
        },
    };
    let value = trimmed(&chars_of(text.as_str()));
    if holds_forbidden_control(&value) {
        return None;
    }
    Some((string_of(&lowered(&name)), string_of(&value)))
}

/// The fields of the header lines.
pub fn parse_headers(lines: &[Vec<u8>]) -> (r: Result<Vec<(String, String)>, RequestError>)
    ensures
        match header_fields(lines_of(lines@)) {
            Some(fields) => r is Ok && header_models(r->Ok_0@) == fields,
            None => r is Err && r->Err_0 == RequestError::Malformed,
        },
{
    let ghost all = lines_of(lines@);
    let mut headers: Vec<(String, String)> = Vec::new();
    let mut i: usize = 0;
    assert(all.take(0) =~= Seq::empty());
    assert(header_models(headers@) =~= Seq::empty());
    while i < lines.len()
        invariant
            i <= lines@.len(),
            all == lines_of(lines@),
            header_fields(all.take(i as int)) == Some(header_models(headers@)),
        decreases lines@.len() - i,
    {
        proof {
            assert(all.take(i + 1).drop_last() =~= all.take(i as int));
            assert(all.take(i + 1).last() == lines@[i as int]@);
        }
        match parse_header(&lines[i]) {
            Some(field) => {
                let ghost before = headers@;
                let ghost fm = (field.0@, field.1@);
                headers.push(field);
                assert(header_models(headers@) =~= header_models(before).push(fm));
            },
            None => {
                proof {
                    lemma_header_fields_prefix(all, i + 1);
                }
                return Err(RequestError::Malformed);
            },
        }
        i = i + 1;
    }
    assert(all.take(all.len() as int) =~= all);
    Ok(headers)
}

proof fn lemma_header_fields_prefix(lines: Seq<Seq<u8>>, k: int)
    requires
        0 <= k <= lines.len(),
        header_fields(lines.take(k)) is None,
    ensures
        header_fields(lines) is None,
    decreases lines.len() - k,
{
    if k < lines.len() {
        assert(lines.take(k + 1).drop_last() =~= lines.take(k));
        lemma_header_fields_prefix(lines, k + 1);
    } else {
        assert(lines.take(k) =~= lines);
    }
}

/// The values of a header name, in order.
pub fn header_values(headers: &[(String, String)], name: &str) -> (r: Vec<String>)
    ensures
        crate::text::string_views(r@) == values_of(header_models(headers@), name@),
{
    let ghost all = header_models(headers@);
    let mut out: Vec<String> = Vec::new();
    let mut i: usize = 0;
    assert(all.take(0) =~= Seq::empty());
    assert(crate::text::string_views(out@) =~= Seq::empty());
    while i < headers.len()
        invariant
            i <= headers@.len(),
            all == header_models(headers@),
            crate::text::string_views(out@) == values_of(all.take(i as int), name@),
        decreases headers@.len() - i,
    {
        proof {
            assert(all.take(i + 1).drop_last() =~= all.take(i as int));
            assert(all.take(i + 1).last() == (headers@[i as int].0@, headers@[i as int].1@));
        }
        if same_text(headers[i].0.as_str(), name) {
            let value = headers[i].1.clone();
            let ghost before = out@;
            let ghost vm = value@;
            out.push(value);
            assert(crate::text::string_views(out@) =~= crate::text::string_views(before).push(vm));
        }
        i = i + 1;
    }
    assert(all.take(all.len() as int) =~= all);
    out
}

// ---------------------------------------------------------------------------
// Credentials
// ---------------------------------------------------------------------------

/// What the standard Base64 alphabet with padding decodes a text to.
pub uninterp spec fn base64_decoded(text: Seq<char>) -> Option<Seq<u8>>;

/// Calls `decode` of `base64::engine::general_purpose::STANDARD`. The result
/// depends on the text alone; the decoding itself is left to that crate.
#[verifier::external_body]
fn decode_base64(text: &str) -> (r: Option<Vec<u8>>)
    ensures
        match r {
            Some(bytes) => base64_decoded(text@) == Some(bytes@),
            None => base64_decoded(text@) is None,
        },
{
    base64::Engine::decode(&base64::engine::general_purpose::STANDARD, text).ok()
}

/// The encoded credentials of a request: it has one authorization field of the
/// Basic scheme, with at most 512 bytes of credentials.
pub open spec fn encoded_credentials(headers: Seq<HeaderModel>) -> Option<Seq<char>> {
    let values = values_of(headers, "proxy-authorization"@);
    if values.len() != 1 {
        None
    } else {
        let value = values[0];
        let space = first_index(value, ' ');
        let encoded = value.skip(space + 1);
        if space < value.len() && same_ignoring_case(value.take(space), "basic"@) && encoded.len()
            > 0 && utf8_len(encoded) <= 512 {
            Some(encoded)
        } else {
            None
        }
    }
}

/// The password in decoded credentials of a user: what stands behind the first
/// colon.
pub open spec fn password_of(decoded: Seq<u8>, username: Seq<char>) -> Option<Seq<u8>> {
    let colon = first_byte(decoded, 58);
    if colon < decoded.len() && decoded.take(colon) == encode_utf8(username) {
        Some(decoded.skip(colon + 1))
    } else {
        None
    }
}

/// The password that a request presents for a user.
pub open spec fn presented_password(headers: Seq<HeaderModel>, username: Seq<char>) -> Option<
    Seq<u8>,
> {
    match encoded_credentials(headers) {
        Some(encoded) => match base64_decoded(encoded) {
            Some(decoded) => password_of(decoded, username),
            None => None,
        },
        None => None,
    }
}

/// The encoded credentials of a request.
pub fn find_credentials(headers: &[(String, String)]) -> (r: Option<String>)
    ensures
        match r {
            Some(encoded) => encoded_credentials(header_models(headers@)) == Some(encoded@),
            None => encoded_credentials(header_models(headers@)) is None,
        },
{
    let values = header_values(headers, "proxy-authorization");
    assert(crate::text::string_views(values@).len() == values@.len());
    if values.len() != 1 {
        return None;
    }
    assert(crate::text::string_views(values@)[0] == values@[0]@);
    let value = chars_of(values[0].as_str());
    let space: usize = match find(&value, ' ') {
        Some(space) => space,
        None => {
            return None;
        },
    };
    let scheme = slice_of(&value, 0, space);
    let encoded = slice_of(&value, space + 1, value.len());
    assert(scheme@ =~= value@.take(space as int));
    assert(encoded@ =~= value@.skip(space + 1));
    if !chars_are_ignoring_case(&scheme, "basic") || encoded.len() == 0 || !fits_utf8(
        &encoded,
        512,
    ) {
        return None;
    }
    Some(string_of(&encoded))
}

/// The password in decoded credentials of a user.
pub fn split_password(decoded: &[u8], username: &str) -> (r: Option<Vec<u8>>)
    ensures
        match r {
            Some(password) => password_of(decoded@, username@) == Some(password@),
            None => password_of(decoded@, username@) is None,
        },
{
    let colon: usize = match find_byte(decoded, 58) {
        Some(colon) => colon,
        None => {
            return None;
        },
    };
    let user = slice_subrange(decoded, 0, colon);
    assert(user@ =~= decoded@.take(colon as int));
    if !same_bytes(user, username.as_bytes()) {
        return None;
    }
    let password = copy_bytes(decoded, colon + 1, decoded.len());
    assert(password@ =~= decoded@.skip(colon + 1));
    Some(password)
}

/// The password that a request presents for a user.
pub fn find_password(headers: &[(String, String)], username: &str) -> (r: Option<Vec<u8>>)
    ensures
        match r {
            Some(password) => presented_password(header_models(headers@), username@) == Some(
                password@,
            ),
            None => presented_password(header_models(headers@), username@) is None,
        },
{
    match find_credentials(headers) {
        Some(encoded) => match decode_base64(encoded.as_str()) {
            Some(decoded) => split_password(&decoded, username),
            None => None,
        },
        None => None,
    }
}

// ---------------------------------------------------------------------------
// Authorities and targets
// ---------------------------------------------------------------------------

/// The host, the port and the canonical form of an authority.
pub struct AuthorityModel {
    pub host: Seq<char>,
    pub port: nat,
    pub normalized: Seq<char>,
}

pub open spec fn authority_forbidden(c: char) -> bool {
    ascii_control(c) || ascii_white_space(c) || c == '/' || c == '\\' || c == '?' || c == '#' || c
        == '@'
}

/// The host in canonical form with a port that is left out where it is the
/// default.
pub open spec fn normalized_authority(
    host: Seq<char>,
    port: nat,
    default_port: Option<u16>,
) -> Seq<char> {
    let bracketed = if host.contains(':') {
        seq!['['] + host + seq![']']
    } else {
        host
    };
    if default_port is Some && default_port->0 == port {
        bracketed
    } else {
        bracketed + seq![':'] + decimal(port)
    }
}

/// The port behind a bracketed host: the default one, or one behind a colon.
pub open spec fn suffix_port(suffix: Seq<char>, default_port: Option<u16>) -> Option<nat> {
    if suffix.len() == 0 {
        match default_port {
            Some(port) => Some(port as nat),
            None => None,
        }
    } else if suffix[0] == ':' {
        parsed_number(suffix.skip(1), 10, 65535)
    } else {
        None
    }
}

/// The host and port of an authority: an IPv6 address in brackets, a bare IP
/// address, or a host name, each with an optional port.
pub open spec fn host_and_port(value: Seq<char>, default_port: Option<u16>) -> Option<
    (Seq<char>, nat),
> {
    if value[0] == '[' {
        let inner = value.skip(1);
        let end = first_index(inner, ']');
        if end < inner.len() && ipv6_groups(inner.take(end)) is Some && suffix_port(
            inner.skip(end + 1),
            default_port,
        ) is Some {
            Some((lower(inner.take(end)), suffix_port(inner.skip(end + 1), default_port)->0))
        } else {
            None
        }
    } else if ip_address(value) is Some {
        match default_port {
            Some(port) => Some((ip_text(ip_address(value)->0), port as nat)),
            None => None,
        }
    } else {
        let colon = last_index(value, ':');
        let named = colon >= 0 && !value.take(colon).contains(':');
        let host = if named {
            value.take(colon)
        } else {
            value
        };
        let port = if named {
            parsed_number(value.skip(colon + 1), 10, 65535)
        } else {
            match default_port {
                Some(port) => Some(port as nat),
                None => None,
            }
        };
        if port is Some && valid_host(host) {
            Some((lower(host), port->0))
        } else {
            None
        }
    }
}

/// What an authority denotes.
pub open spec fn authority_of(value: Seq<char>, default_port: Option<u16>) -> Option<
    AuthorityModel,
> {
    if value.len() == 0 || utf8_len(value) > 300 || exists|i: int|
        0 <= i < value.len() && authority_forbidden(#[trigger] value[i]) {
        None
    } else {
        match host_and_port(value, default_port) {
            Some((host, port)) => if port != 0 {
                Some(
                    AuthorityModel {
                        host,
                        port,
                        normalized: normalized_authority(host, port, default_port),
                    },
                )
            } else {
                None
            },
            None => None,
        }
    }
}

fn holds_forbidden(s: &[char]) -> (r: bool)
    ensures
        r == exists|i: int| 0 <= i < s@.len() && authority_forbidden(#[trigger] s@[i]),
{
    let mut i: usize = 0;
    while i < s.len()
        invariant
            i <= s@.len(),
            forall|j: int| 0 <= j < i ==> !authority_forbidden(#[trigger] s@[j]),
        decreases s@.len() - i,
    {
        let c = s[i];
        if is_ascii_control(c) || is_ascii_white_space(c) || c == '/' || c == '\\' || c == '?' || c
            == '#' || c == '@' {
            assert(authority_forbidden(s@[i as int]));
            return true;
        }
        i = i + 1;
    }
    false
}

fn parse_port(s: &[char]) -> (r: Option<u16>)
    ensures
        match r {
            Some(port) => parsed_number(s@, 10, 65535) == Some(port as nat),
            None => parsed_number(s@, 10, 65535) is None,
        },
{
    match parse_number(s, 10, 65535) {
        Some(port) => Some(port as u16),
        None => None,
    }
}

fn parse_suffix_port(suffix: &[char], default_port: Option<u16>) -> (r: Option<u16>)
    ensures
        match r {
            Some(port) => suffix_port(suffix@, default_port) == Some(port as nat),
            None => suffix_port(suffix@, default_port) is None,
        },
{
    if suffix.len() == 0 {
        return default_port;
    }
    if suffix[0] != ':' {
        return None;
    }
    let digits = slice_of(suffix, 1, suffix.len());
    assert(digits@ =~= suffix@.skip(1));
    parse_port(&digits)
}

fn parse_host_and_port(value: &[char], default_port: Option<u16>) -> (r: Option<(Vec<char>, u16)>)
    requires
        value@.len() > 0,
    ensures
        match r {
            Some(p) => host_and_port(value@, default_port) == Some((p.0@, p.1 as nat)),
            None => host_and_port(value@, default_port) is None,
        },
{
    if value[0] == '[' {
        let inner = slice_of(value, 1, value.len());
        assert(inner@ =~= value@.skip(1));
        let end: usize = match find(&inner, ']') {
            Some(end) => end,
            None => {
                return None;
            },
        };
        let host = slice_of(&inner, 0, end);
        let suffix = slice_of(&inner, end + 1, inner.len());
        assert(host@ =~= inner@.take(end as int));
        assert(suffix@ =~= inner@.skip(end + 1));
        if parse_ipv6(&host).is_none() {
            return None;
        }
        return match parse_suffix_port(&suffix, default_port) {
            Some(port) => Some((lowered(&host), port)),
            None => None,
        };
    }
    if let Some(address) = parse_ip(value) {
        return match default_port {
            Some(port) => {
                let text = ip_to_text(&address);
                Some((chars_of(text.as_str()), port))
            },
            None => None,
        };
    }
    if let Some(colon) = rfind(value, ':') {
        let host = slice_of(value, 0, colon);
        assert(host@ =~= value@.take(colon as int));
        if !has_char(&host, ':') {
            let digits = slice_of(value, colon + 1, value.len());
            assert(digits@ =~= value@.skip(colon + 1));
            return match parse_port(&digits) {
                Some(port) => if is_valid_host(&host) {
                    Some((lowered(&host), port))
                } else {
                    None
                },
                None => None,
            };
        }
    }
    match default_port {
        Some(port) => if is_valid_host(value) {
            Some((lowered(value), port))
        } else {
            None
        },
        None => None,
    }
}

/// The host, the port and the canonical form of an authority.
pub fn parse_authority(value: &str, default_port: Option<u16>) -> (r: Result<
    (String, u16, String),
    RequestError,
>)
    ensures
        match authority_of(value@, default_port) {
            Some(a) => r is Ok && r->Ok_0.0@ == a.host && r->Ok_0.1 == a.port && r->Ok_0.2@
                == a.normalized,
            None => r is Err && r->Err_0 == RequestError::Malformed,
        },
{
    let s = chars_of(value);
    if s.len() == 0 || !fits_utf8(&s, 300) || holds_forbidden(&s) {
        return Err(RequestError::Malformed);
    }
    match parse_host_and_port(&s, default_port) {
        Some((host, port)) => {
            if port == 0 {
                return Err(RequestError::Malformed);
            }
            let mut normalized = String::new();
            if has_char(&host, ':') {
                normalized.push('[');
                push_chars(&mut normalized, &host);
                normalized.push(']');
            } else {
                push_chars(&mut normalized, &host);
            }
            let default = match default_port {
                Some(d) => d == port,
                None => false,
            };
            if !default {
                normalized.push(':');
                push_decimal(&mut normalized, port as u64);
            }
            assert(normalized@ =~= normalized_authority(host@, port as nat, default_port));
            Ok((string_of(&host), port, normalized))
        },
        None => Err(RequestError::Malformed),
    }
}

/// The position of the first `/` or `?`, or the length where there is neither.
pub open spec fn path_start(s: Seq<char>) -> int {
    let slash = first_index(s, '/');
    let query = first_index(s, '?');
    if slash < query {
        slash
    } else {
        query
    }
}

/// What an absolute `http` URI denotes.
pub struct TargetModel {
    pub authority: AuthorityModel,
    pub origin_form: Seq<char>,
}

pub open spec fn target_forbidden(c: char) -> bool {
    ascii_control(c) || c == ' '
}

/// The path and query as they are sent to the origin.
pub open spec fn origin_form_of(rest: Seq<char>) -> Seq<char> {
    if rest.len() == 0 {
        seq!['/']
    } else if rest[0] == '?' {
        seq!['/'] + rest
    } else {
        rest
    }
}

pub open spec fn http_uri(value: Seq<char>) -> Option<TargetModel> {
    let rest = value.skip(7);
    let end = path_start(rest);
    let origin_form = origin_form_of(rest.skip(end));
    if !starts_with(value, "http://"@) || rest.contains('#') || rest.take(end).contains('@')
        || exists|i: int| 0 <= i < origin_form.len() && target_forbidden(#[trigger] origin_form[i]) {
        None
    } else {
        match authority_of(rest.take(end), Some(80)) {
            Some(authority) => Some(TargetModel { authority, origin_form }),
            None => None,
        }
    }
}

fn holds_target_forbidden(s: &[char]) -> (r: bool)
    ensures
        r == exists|i: int| 0 <= i < s@.len() && target_forbidden(#[trigger] s@[i]),
{
    let mut i: usize = 0;
    while i < s.len()
        invariant
            i <= s@.len(),
            forall|j: int| 0 <= j < i ==> !target_forbidden(#[trigger] s@[j]),
        decreases s@.len() - i,
    {
        if is_ascii_control(s[i]) || s[i] == ' ' {
            assert(target_forbidden(s@[i as int]));
            return true;
        }
        i = i + 1;
    }
    false
}

/// The host, the port, the canonical authority and the origin form of an
/// absolute `http` URI.
pub fn parse_http_uri(value: &str) -> (r: Result<(String, u16, String, String), RequestError>)
    ensures
        match http_uri(value@) {
            Some(t) => r is Ok && r->Ok_0.0@ == t.authority.host && r->Ok_0.1 == t.authority.port
                && r->Ok_0.2@ == t.authority.normalized && r->Ok_0.3@ == t.origin_form,
            None => r is Err && r->Err_0 == RequestError::Malformed,
        },
{
    let s = chars_of(value);
    proof {
        reveal_strlit("http://");
    }
    if !has_prefix(&s, "http://") {
        return Err(RequestError::Malformed);
    }
    let rest = slice_of(&s, 7, s.len());
    assert(rest@ =~= s@.skip(7));
    if has_char(&rest, '#') {
        return Err(RequestError::Malformed);
    }
    let slash: usize = match find(&rest, '/') {
        Some(i) => i,
        None => rest.len(),
    };
    let query: usize = match find(&rest, '?') {
        Some(i) => i,
        None => rest.len(),
    };
    let end: usize = if slash < query {
        slash
    } else {
        query
    };
    let authority = slice_of(&rest, 0, end);
    let tail = slice_of(&rest, end, rest.len());
    assert(authority@ =~= rest@.take(end as int));
    assert(tail@ =~= rest@.skip(end as int));
    if has_char(&authority, '@') {
        return Err(RequestError::Malformed);
    }
    let mut origin: Vec<char> = Vec::new();
    if tail.len() == 0 {
        origin.push('/');
        assert(origin@ =~= origin_form_of(tail@));
    } else {
        if tail[0] == '?' {
            origin.push('/');
        }
        let ghost before = origin@;
        let mut copy = copy_chars(&tail);
        origin.append(&mut copy);
        assert(origin@ =~= origin_form_of(tail@));
    }
    if holds_target_forbidden(&origin) {
        return Err(RequestError::Malformed);
    }
    let text = string_of(&authority);
    match parse_authority(text.as_str(), Some(80)) {
        Ok((host, port, normalized)) => Ok((host, port, normalized, string_of(&origin))),
        Err(error) => Err(error),
    }
}

// ---------------------------------------------------------------------------
// Framing
// ---------------------------------------------------------------------------

/// The trimmed comma-separated tokens of one value.
pub open spec fn value_tokens(value: Seq<char>) -> Seq<Seq<char>> {
    pieces(value, ',').map_values(|t: Seq<char>| trim(t))
}

/// The tokens of a list of values.
pub open spec fn all_tokens(values: Seq<Seq<char>>) -> Seq<Seq<char>>
    decreases values.len(),
{
    if values.len() == 0 {
        Seq::empty()
    } else {
        all_tokens(values.drop_last()) + value_tokens(values.last())
    }
}

/// The tokens of the connection fields.
pub open spec fn connection_tokens(headers: Seq<HeaderModel>) -> Seq<Seq<char>> {
    all_tokens(values_of(headers, "connection"@))
}

/// Whether the connection fields name a field that frames the message.
pub open spec fn hides_framing(tokens: Seq<Seq<char>>) -> bool {
    exists|i: int|
        0 <= i < tokens.len() && {
            ||| same_ignoring_case(#[trigger] tokens[i], "content-length"@)
            ||| same_ignoring_case(tokens[i], "transfer-encoding"@)
            ||| same_ignoring_case(tokens[i], "host"@)
        }
}

/// How the body of a message ends, where its fields say so without ambiguity:
/// at most one length and at most one transfer encoding, which is chunked, not
/// both, and none of them named by a connection field.
pub open spec fn framing_of(headers: Seq<HeaderModel>) -> Option<RequestBody> {
    let lengths = values_of(headers, "content-length"@);
    let encodings = values_of(headers, "transfer-encoding"@);
    if lengths.len() > 1 || encodings.len() > 1 || (lengths.len() == 1 && encodings.len() == 1) {
        None
    } else if lengths.len() == 1 && parsed_number(lengths[0], 10, u64::MAX as nat) is None {
        None
    } else if encodings.len() == 1 && !same_ignoring_case(encodings[0], "chunked"@) {
        None
    } else if hides_framing(connection_tokens(headers)) {
        None
    } else if encodings.len() == 1 {
        Some(RequestBody::Chunked)
    } else if lengths.len() == 1 {
        Some(
            RequestBody::ContentLength(parsed_number(lengths[0], 10, u64::MAX as nat)->0 as u64),
        )
    } else {
        Some(RequestBody::Empty)
    }
}

fn split_tokens(value: &str) -> (r: Vec<Vec<char>>)
    ensures
        texts(r@) == value_tokens(value@),
{
    let parts = split(&chars_of(value), ',');
    let ghost all = pieces(value@, ',');
    assert(all.len() == parts@.len());
    let mut out: Vec<Vec<char>> = Vec::new();
    let mut i: usize = 0;
    while i < parts.len()
        invariant
            i <= parts@.len(),
            all == texts(parts@),
            out@.len() == i,
            forall|j: int| 0 <= j < i ==> (#[trigger] out@[j])@ == trim(all[j]),
        decreases parts@.len() - i,
    {
        assert(all[i as int] == parts@[i as int]@);
        out.push(trimmed(&parts[i]));
        i = i + 1;
    }
    assert(texts(out@) =~= value_tokens(value@));
    out
}

/// The tokens of a list of values.
pub fn collect_tokens(values: &Vec<String>) -> (r: Vec<Vec<char>>)
    ensures
        texts(r@) == all_tokens(crate::text::string_views(values@)),
{
    let ghost all = crate::text::string_views(values@);
    let mut out: Vec<Vec<char>> = Vec::new();
    let mut i: usize = 0;
    assert(all.take(0) =~= Seq::empty());
    assert(texts(out@) =~= Seq::empty());
    while i < values.len()
        invariant
            i <= values@.len(),
            all == crate::text::string_views(values@),
            texts(out@) == all_tokens(all.take(i as int)),
        decreases values@.len() - i,
    {
        proof {
            assert(all.take(i + 1).drop_last() =~= all.take(i as int));
            assert(all.take(i + 1).last() == values@[i as int]@);
        }
        let mut tokens = split_tokens(values[i].as_str());
        let ghost before = out@;
        let ghost added = tokens@;
        out.append(&mut tokens);
        assert(texts(out@) =~= texts(before) + texts(added));
        i = i + 1;
    }
    assert(all.take(all.len() as int) =~= all);
    out
}

fn tokens_hide_framing(tokens: &Vec<Vec<char>>) -> (r: bool)
    ensures
        r == hides_framing(texts(tokens@)),
{
    let ghost all = texts(tokens@);
    let mut i: usize = 0;
    while i < tokens.len()
        invariant
            i <= tokens@.len(),
            all == texts(tokens@),
            forall|j: int|
                0 <= j < i ==> !({
                    ||| same_ignoring_case(#[trigger] all[j], "content-length"@)
                    ||| same_ignoring_case(all[j], "transfer-encoding"@)
                    ||| same_ignoring_case(all[j], "host"@)
                }),
        decreases tokens@.len() - i,
    {
        assert(all[i as int] == tokens@[i as int]@);
        if chars_are_ignoring_case(&tokens[i], "content-length") || chars_are_ignoring_case(
            &tokens[i],
            "transfer-encoding",
        ) || chars_are_ignoring_case(&tokens[i], "host") {
            return true;
        }
        i = i + 1;
    }
    false
}

/// How the body of a message ends.
pub fn validate_message_framing(headers: &[(String, String)]) -> (r: Result<
    RequestBody,
    RequestError,
>)
    ensures
        match framing_of(header_models(headers@)) {
            Some(body) => r is Ok && r->Ok_0 == body,
            None => r is Err && r->Err_0 == RequestError::Malformed,
        },
{
    let lengths = header_values(headers, "content-length");
    let encodings = header_values(headers, "transfer-encoding");
    let connections = header_values(headers, "connection");
    assert(crate::text::string_views(lengths@).len() == lengths@.len());
    assert(crate::text::string_views(encodings@).len() == encodings@.len());
    if lengths.len() > 1 || encodings.len() > 1 || (lengths.len() == 1 && encodings.len() == 1) {
        return Err(RequestError::Malformed);
    }
    let mut body = RequestBody::Empty;
    if lengths.len() == 1 {
        assert(crate::text::string_views(lengths@)[0] == lengths@[0]@);
        match parse_number(&chars_of(lengths[0].as_str()), 10, 0xffff_ffff_ffff_ffff) {
            Some(length) => {
                body = RequestBody::ContentLength(length);
            },
            None => {
                return Err(RequestError::Malformed);
            },
        }
    }
    if encodings.len() == 1 {
        assert(crate::text::string_views(encodings@)[0] == encodings@[0]@);
        if !chars_are_ignoring_case(&chars_of(encodings[0].as_str()), "chunked") {
            return Err(RequestError::Malformed);
        }
        body = RequestBody::Chunked;
    }
    let tokens = collect_tokens(&connections);
    if tokens_hide_framing(&tokens) {
        return Err(RequestError::Malformed);
    }
    Ok(body)
}

// ---------------------------------------------------------------------------
// The forwarded head
// ---------------------------------------------------------------------------

/// Fields that concern the connection to the proxy alone.
pub open spec fn proxy_field(name: Seq<char>) -> bool {
    ||| name == "proxy-authorization"@
    ||| name == "proxy-connection"@
    ||| name == "connection"@
    ||| name == "keep-alive"@
    ||| name == "proxy-authenticate"@
    ||| name == "te"@
    ||| name == "upgrade"@
}

/// Whether a field is forwarded: it does not concern the connection, and no
/// connection field names it.
pub open spec fn forwarded(name: Seq<char>, tokens: Seq<Seq<char>>) -> bool {
    !proxy_field(name) && !exists|i: int|
        0 <= i < tokens.len() && lower(#[trigger] tokens[i]) == name
}

/// The forwarded fields as they are written.
pub open spec fn forwarded_fields(headers: Seq<HeaderModel>, tokens: Seq<Seq<char>>) -> Seq<char>
    decreases headers.len(),
{
    if headers.len() == 0 {
        Seq::empty()
    } else {
        let rest = forwarded_fields(headers.drop_last(), tokens);
        let (name, value) = headers.last();
        if forwarded(name, tokens) {
            rest + name + ": "@ + value + "\r\n"@
        } else {
            rest
        }
    }
}

/// Whether a host field is among the forwarded ones.
pub open spec fn forwards_host(headers: Seq<HeaderModel>, tokens: Seq<Seq<char>>) -> bool {
    exists|i: int|
        0 <= i < headers.len() && (#[trigger] headers[i]).0 == "host"@ && forwarded(
            "host"@,
            tokens,
        )
}

/// The head that is sent to the origin.
pub open spec fn forward_head(
    method: Seq<char>,
    origin_form: Seq<char>,
    version: Seq<char>,
    headers: Seq<HeaderModel>,
    authority: Seq<char>,
) -> Seq<char> {
    let tokens = connection_tokens(headers);
    let line = method + " "@ + origin_form + " "@ + version + "\r\n"@;
    let host = if forwards_host(headers, tokens) {
        Seq::empty()
    } else {
        "host: "@ + authority + "\r\n"@
    };
    line + forwarded_fields(headers, tokens) + host + "connection: close\r\n\r\n"@
}

fn is_proxy_field(name: &str) -> (r: bool)
    ensures
        r == proxy_field(name@),
{
    same_text(name, "proxy-authorization") || same_text(name, "proxy-connection") || same_text(
        name,
        "connection",
    ) || same_text(name, "keep-alive") || same_text(name, "proxy-authenticate") || same_text(
        name,
        "te",
    ) || same_text(name, "upgrade")
}

fn is_forwarded(name: &str, tokens: &Vec<Vec<char>>) -> (r: bool)
    ensures
        r == forwarded(name@, texts(tokens@)),
{
    if is_proxy_field(name) {
        return false;
    }
    let ghost all = texts(tokens@);
    let wanted = chars_of(name);
    let mut i: usize = 0;
    while i < tokens.len()
        invariant
            i <= tokens@.len(),
            all == texts(tokens@),
            wanted@ == name@,
            forall|j: int| 0 <= j < i ==> lower(#[trigger] all[j]) != name@,
        decreases tokens@.len() - i,
    {
        assert(all[i as int] == tokens@[i as int]@);
        if same_chars(&lowered(&tokens[i]), &wanted) {
            return false;
        }
        i = i + 1;
    }
    true
}

/// The head that is sent to the origin.
pub fn build_forward_head(
    method: &str,
    origin_form: &str,
    version: &str,
    headers: &[(String, String)],
    authority: &str,
) -> (r: Vec<u8>)
    ensures
        r@ == encode_utf8(
            forward_head(method@, origin_form@, version@, header_models(headers@), authority@),
        ),
{
    let ghost all = header_models(headers@);
    let tokens = collect_tokens(&header_values(headers, "connection"));
    let ghost ts = connection_tokens(all);
    assert(texts(tokens@) == ts);
    let mut out = String::new();
    out.append(method);
    out.append(" ");
    out.append(origin_form);
    out.append(" ");
    out.append(version);
    out.append("\r\n");
    let ghost line = method@ + " "@ + origin_form@ + " "@ + version@ + "\r\n"@;
    assert(out@ =~= line);
    let mut wrote_host = false;
    let mut i: usize = 0;
    assert(all.take(0) =~= Seq::empty());
    assert(line + forwarded_fields(all.take(0), ts) =~= line);
    while i < headers.len()
        invariant
            i <= headers@.len(),
            all == header_models(headers@),
            ts == texts(tokens@),
            out@ == line + forwarded_fields(all.take(i as int), ts),
            wrote_host == exists|j: int|
                0 <= j < i && (#[trigger] all[j]).0 == "host"@ && forwarded("host"@, ts),
        decreases headers@.len() - i,
    {
        let name = headers[i].0.as_str();
        let value = headers[i].1.as_str();
        proof {
            assert(all.take(i + 1).drop_last() =~= all.take(i as int));
            assert(all.take(i + 1).last() == (name@, value@));
            assert(all[i as int] == (name@, value@));
        }
        if is_forwarded(name, &tokens) {
            if same_text(name, "host") {
                wrote_host = true;
            }
            let ghost before = out@;
            out.append(name);
            out.append(": ");
            out.append(value);
            out.append("\r\n");
            assert(out@ =~= line + forwarded_fields(all.take(i + 1), ts));
        }
        i = i + 1;
    }
    assert(all.take(all.len() as int) =~= all);
    if !wrote_host {
        out.append("host: ");
        out.append(authority);
        out.append("\r\n");
    }
    out.append("connection: close\r\n\r\n");
    assert(out@ =~= forward_head(method@, origin_form@, version@, all, authority@));
    out.as_str().as_bytes_vec()
}

// ---------------------------------------------------------------------------
// Requests
// ---------------------------------------------------------------------------

/// The method, target and version of a request line.
pub struct RequestLineModel {
    pub method: Seq<char>,
    pub target: Seq<char>,
    pub version: Seq<char>,
}

pub open spec fn method_char(c: char) -> bool {
    ascii_upper(c) || c == '-' || c == '_'
}

pub open spec fn method_text(s: Seq<char>) -> bool {
    s.len() > 0 && forall|i: int| 0 <= i < s.len() ==> method_char(#[trigger] s[i])
}

/// A request line: three parts separated by single spaces, of which the first
/// is a method and the last a known version.
pub open spec fn request_line(line: Seq<u8>) -> Option<RequestLineModel> {
    let bare = without_crlf(line);
    let parts = pieces(decode_utf8(bare), ' ');
    if valid_utf8(bare) && parts.len() == 3 && method_text(parts[0]) && (parts[2] == "HTTP/1.0"@
        || parts[2] == "HTTP/1.1"@) {
        Some(RequestLineModel { method: parts[0], target: parts[1], version: parts[2] })
    } else {
        None
    }
}

/// The head of a request: its line and its fields.
pub struct HeadModel {
    pub line: RequestLineModel,
    pub headers: Seq<HeaderModel>,
}

pub open spec fn request_head(lines: Seq<Seq<u8>>) -> Option<HeadModel> {
    if lines.len() == 0 {
        None
    } else {
        match (request_line(lines[0]), header_fields(lines.skip(1))) {
            (Some(line), Some(headers)) => Some(HeadModel { line, headers }),
            _ => None,
        }
    }
}

/// Whether the host field of a request agrees with its target: there is at most
/// one, and it denotes the same authority.
pub open spec fn host_agrees(headers: Seq<HeaderModel>, authority: Seq<char>) -> bool {
    let hosts = values_of(headers, "host"@);
    ||| hosts.len() == 0
    ||| hosts.len() == 1 && authority_of(hosts[0], Some(80)) is Some && authority_of(
        hosts[0],
        Some(80),
    )->0.normalized == authority
}

/// What an authenticated request asks for.
pub open spec fn proxy_target(head: HeadModel) -> Option<ProxyRequestModel> {
    match framing_of(head.headers) {
        None => None,
        Some(body) => if head.line.method == "CONNECT"@ {
            if body != RequestBody::Empty {
                None
            } else {
                match authority_of(head.line.target, None) {
                    Some(authority) => Some(
                        ProxyRequestModel {
                            target_host: authority.host,
                            target_port: authority.port as u16,
                            kind: ProxyRequestKindModel::Connect,
                        },
                    ),
                    None => None,
                }
            }
        } else {
            match http_uri(head.line.target) {
                Some(target) => if host_agrees(head.headers, target.authority.normalized) {
                    Some(
                        ProxyRequestModel {
                            target_host: target.authority.host,
                            target_port: target.authority.port as u16,
                            kind: ProxyRequestKindModel::Forward {
                                encoded_head: encode_utf8(
                                    forward_head(
                                        head.line.method,
                                        target.origin_form,
                                        head.line.version,
                                        head.headers,
                                        target.authority.normalized,
                                    ),
                                ),
                                body,
                                head_request: head.line.method == "HEAD"@,
                            },
                        },
                    )
                } else {
                    None
                },
                None => None,
            }
        },
    }
}

/// The outcome of a request, given whether the password it presents was found
/// to be right.
pub open spec fn proxy_request(
    lines: Seq<Seq<u8>>,
    username: Seq<char>,
    password_matches: bool,
) -> Result<ProxyRequestModel, RequestError> {
    match request_head(lines) {
        None => Err(RequestError::Malformed),
        Some(head) => if presented_password(head.headers, username) is None || !password_matches {
            Err(RequestError::Authentication)
        } else {
            match proxy_target(head) {
                Some(request) => Ok(request),
                None => Err(RequestError::Malformed),
            }
        },
    }
}

fn is_method(s: &[char]) -> (r: bool)
    ensures
        r == method_text(s@),
{
    if s.len() == 0 {
        return false;
    }
    let mut i: usize = 0;
    while i < s.len()
        invariant
            i <= s@.len(),
            forall|j: int| 0 <= j < i ==> method_char(#[trigger] s@[j]),
        decreases s@.len() - i,
    {
        if !(is_ascii_upper(s[i]) || s[i] == '-' || s[i] == '_') {
            assert(!method_char(s@[i as int]));
            return false;
        }
        i = i + 1;
    }
    true
}

/// The method, target and version of a request line.
pub fn parse_request_line(line: &[u8]) -> (r: Option<(String, String, String)>)
    ensures
        match r {
            Some(p) => request_line(line@) == Some(
                (RequestLineModel { method: p.0@, target: p.1@, version: p.2@ }),
            ),
            None => request_line(line@) is None,
        },
{
    let bare = strip_crlf(line);
    let text = match utf8_text(bare) {
        Some(text) => text,
        None => {
            return None;
        },
    };
    let parts = split(&chars_of(text.as_str()), ' ');
    let ghost all = pieces(text@, ' ');
    assert(all.len() == parts@.len());
    assert(forall|j: int| 0 <= j < parts@.len() ==> all[j] == parts@[j]@);
    if parts.len() != 3 || !is_method(&parts[0]) || !(chars_are(&parts[2], "HTTP/1.0") || chars_are(
        &parts[2],
        "HTTP/1.1",
    )) {
        return None;
    }
    Some((string_of(&parts[0]), string_of(&parts[1]), string_of(&parts[2])))
}

/// A parsed request head.
pub struct RequestHead {
    pub method: String,
    pub target: String,
    pub version: String,
    pub headers: Vec<(String, String)>,
}

impl View for RequestHead {
    type V = HeadModel;

    open spec fn view(&self) -> HeadModel {
        HeadModel {
            line: RequestLineModel {
                method: self.method@,
                target: self.target@,
                version: self.version@,
            },
            headers: header_models(self.headers@),
        }
    }
}

/// The line and the fields of a request.
pub fn parse_request_head(lines: &[Vec<u8>]) -> (r: Result<RequestHead, RequestError>)
    ensures
        match request_head(lines_of(lines@)) {
            Some(head) => r is Ok && r->Ok_0@ == head,
            None => r is Err && r->Err_0 == RequestError::Malformed,
        },
{
    let ghost all = lines_of(lines@);
    if lines.len() == 0 {
        return Err(RequestError::Malformed);
    }
    assert(all[0] == lines@[0]@);
    let (method, target, version) = match parse_request_line(&lines[0]) {
        Some(p) => p,
        None => {
            return Err(RequestError::Malformed);
        },
    };
    let rest = slice_subrange(lines, 1, lines.len());
    assert(lines_of(rest@) =~= all.skip(1));
    match parse_headers(rest) {
        Ok(headers) => Ok(RequestHead { method, target, version, headers }),
        Err(error) => Err(error),
    }
}

fn check_host(headers: &[(String, String)], authority: &str) -> (r: bool)
    ensures
        r == host_agrees(header_models(headers@), authority@),
{
    let hosts = header_values(headers, "host");
    assert(crate::text::string_views(hosts@).len() == hosts@.len());
    if hosts.len() == 0 {
        return true;
    }
    if hosts.len() > 1 {
        return false;
    }
    assert(crate::text::string_views(hosts@)[0] == hosts@[0]@);
    match parse_authority(hosts[0].as_str(), Some(80)) {
        Ok((_host, _port, normalized)) => same_text(normalized.as_str(), authority),
        Err(_) => false,
    }
}

/// What an authenticated request asks for.
pub fn resolve_target(head: &RequestHead) -> (r: Result<ProxyRequest, RequestError>)
    ensures
        match proxy_target(head@) {
            Some(request) => r is Ok && r->Ok_0@ == request,
            None => r is Err && r->Err_0 == RequestError::Malformed,
        },
{
    let body = match validate_message_framing(&head.headers) {
        Ok(body) => body,
        Err(error) => {
            return Err(error);
        },
    };
    if same_text(head.method.as_str(), "CONNECT") {
        if body != RequestBody::Empty {
            return Err(RequestError::Malformed);
        }
        return match parse_authority(head.target.as_str(), None) {
            Ok((target_host, target_port, _normalized)) => Ok(
                ProxyRequest { target_host, target_port, kind: ProxyRequestKind::Connect },
            ),
            Err(error) => Err(error),
        };
    }
    let (target_host, target_port, host_header, origin_form) = match parse_http_uri(
        head.target.as_str(),
    ) {
        Ok(p) => p,
        Err(error) => {
            return Err(error);
        },
    };
    if !check_host(&head.headers, host_header.as_str()) {
        return Err(RequestError::Malformed);
    }
    let encoded_head = build_forward_head(
        head.method.as_str(),
        origin_form.as_str(),
        head.version.as_str(),
        &head.headers,
        host_header.as_str(),
    );
    let head_request = same_text(head.method.as_str(), "HEAD");
    Ok(
        ProxyRequest {
            target_host,
            target_port,
            kind: ProxyRequestKind::Forward { encoded_head, body, head_request },
        },
    )
}

/// The password to check before a request is served; there is none where the
/// request is refused anyway.
pub fn proxy_password(lines: &[Vec<u8>], expected_username: &str) -> (r: Option<Vec<u8>>)
    ensures
        match request_head(lines_of(lines@)) {
            Some(head) => match r {
                Some(password) => presented_password(head.headers, expected_username@) == Some(
                    password@,
                ),
                None => presented_password(head.headers, expected_username@) is None,
            },
            None => r is None,
        },
{
    match parse_request_head(lines) {
        Ok(head) => find_password(&head.headers, expected_username),
        Err(_) => None,
    }
}

/// A request to the proxy, given whether the password that it presents (see
/// [`proxy_password`]) was found to be right.
pub fn parse_proxy_request(
    lines: &[Vec<u8>],
    expected_username: &str,
    password_matches: bool,
) -> (r: Result<ProxyRequest, RequestError>)
    ensures
        match proxy_request(lines_of(lines@), expected_username@, password_matches) {
            Ok(request) => r is Ok && r->Ok_0@ == request,
            Err(error) => r is Err && r->Err_0 == error,
        },
{
    let head = match parse_request_head(lines) {
        Ok(head) => head,
        Err(error) => {
            return Err(error);
        },
    };
    if find_password(&head.headers, expected_username).is_none() || !password_matches {
        return Err(RequestError::Authentication);
    }
    resolve_target(&head)
}

// ---------------------------------------------------------------------------
// Laws
// ---------------------------------------------------------------------------

/// Whether two lists of fields agree but for the values of the credentials.
pub open spec fn same_but_credentials(a: Seq<HeaderModel>, b: Seq<HeaderModel>) -> bool {
    &&& a.len() == b.len()
    &&& forall|i: int|
        0 <= i < a.len() ==> (#[trigger] a[i]).0 == (#[trigger] b[i]).0 && (a[i].0
            == "proxy-authorization"@ || a[i].1 == b[i].1)
}

proof fn lemma_values_same_but_credentials(
    a: Seq<HeaderModel>,
    b: Seq<HeaderModel>,
    name: Seq<char>,
)
    requires
        same_but_credentials(a, b),
        name != "proxy-authorization"@,
    ensures
        values_of(a, name) == values_of(b, name),
    decreases a.len(),
{
    if a.len() > 0 {
        assert(a[a.len() - 1].0 == b[b.len() - 1].0);
        assert(forall|i: int| 0 <= i < a.len() - 1 ==> a.drop_last()[i] == a[i]);
        assert(forall|i: int| 0 <= i < b.len() - 1 ==> b.drop_last()[i] == b[i]);
        lemma_values_same_but_credentials(a.drop_last(), b.drop_last(), name);
    }
}

proof fn lemma_fields_same_but_credentials(
    a: Seq<HeaderModel>,
    b: Seq<HeaderModel>,
    tokens: Seq<Seq<char>>,
)
    requires
        same_but_credentials(a, b),
    ensures
        forwarded_fields(a, tokens) == forwarded_fields(b, tokens),
    decreases a.len(),
{
    if a.len() > 0 {
        assert(a[a.len() - 1].0 == b[b.len() - 1].0);
        assert(forall|i: int| 0 <= i < a.len() - 1 ==> a.drop_last()[i] == a[i]);
        assert(forall|i: int| 0 <= i < b.len() - 1 ==> b.drop_last()[i] == b[i]);
        lemma_fields_same_but_credentials(a.drop_last(), b.drop_last(), tokens);
    }
}

/// The head that reaches the origin does not depend on the credentials that the
/// client presented to the proxy.
pub proof fn law_credentials_do_not_reach_the_origin(
    method: Seq<char>,
    origin_form: Seq<char>,
    version: Seq<char>,
    a: Seq<HeaderModel>,
    b: Seq<HeaderModel>,
    authority: Seq<char>,
)
    requires
        same_but_credentials(a, b),
    ensures
        forward_head(method, origin_form, version, a, authority) == forward_head(
            method,
            origin_form,
            version,
            b,
            authority,
        ),
{
    reveal_strlit("connection");
    reveal_strlit("proxy-authorization");
    assert("connection"@.len() == 10 && "proxy-authorization"@.len() == 19);
    lemma_values_same_but_credentials(a, b, "connection"@);
    let tokens = connection_tokens(a);
    lemma_fields_same_but_credentials(a, b, tokens);
    if forwards_host(a, tokens) {
        let i = choose|i: int|
            0 <= i < a.len() && (#[trigger] a[i]).0 == "host"@ && forwarded("host"@, tokens);
        assert(b[i].0 == "host"@);
    }
    if forwards_host(b, tokens) {
        let i = choose|i: int|
            0 <= i < b.len() && (#[trigger] b[i]).0 == "host"@ && forwarded("host"@, tokens);
        assert(a[i].0 == "host"@);
    }
}

/// A message whose framing is accepted ends in one way only.
pub proof fn law_accepted_framing_is_unambiguous(headers: Seq<HeaderModel>)
    requires
        framing_of(headers) is Some,
    ensures
        ({
            let lengths = values_of(headers, "content-length"@);
            let encodings = values_of(headers, "transfer-encoding"@);
            match framing_of(headers)->0 {
                RequestBody::Empty => lengths.len() == 0 && encodings.len() == 0,
                RequestBody::ContentLength(n) => lengths.len() == 1 && encodings.len() == 0
                    && parsed_number(lengths[0], 10, u64::MAX as nat) == Some(n as nat),
                RequestBody::Chunked => lengths.len() == 0 && encodings.len() == 1
                    && same_ignoring_case(encodings[0], "chunked"@),
            }
        }),
        !hides_framing(connection_tokens(headers)),
{
}

/// A field that a connection field names is not forwarded, whatever the case of
/// the token.
pub proof fn law_connection_named_fields_are_not_forwarded(
    headers: Seq<HeaderModel>,
    i: int,
    name: Seq<char>,
)
    requires
        0 <= i < connection_tokens(headers).len(),
        lower(connection_tokens(headers)[i]) == name,
    ensures
        !forwarded(name, connection_tokens(headers)),
{
}

/// A request with the wrong password is refused for its credentials, and one
/// that is refused is never resolved to a target.
pub proof fn law_unauthenticated_requests_have_no_target(
    lines: Seq<Seq<u8>>,
    username: Seq<char>,
)
    ensures
        proxy_request(lines, username, false) is Err,
        request_head(lines) is Some ==> proxy_request(lines, username, false) == Err::<
            ProxyRequestModel,
            RequestError,
        >(RequestError::Authentication),
{
}

proof fn lemma_values_of_concat(a: Seq<HeaderModel>, b: Seq<HeaderModel>, name: Seq<char>)
    ensures
        values_of(a + b, name) == values_of(a, name) + values_of(b, name),
    decreases b.len(),
{
    if b.len() == 0 {
        assert(a + b =~= a);
        assert(values_of(a, name) + values_of(b, name) =~= values_of(a, name));
    } else {
        lemma_values_of_concat(a, b.drop_last(), name);
        assert((a + b).drop_last() =~= a + b.drop_last());
        assert((a + b).last() == b.last());
        assert(values_of(a + b, name) =~= values_of(a, name) + values_of(b, name));
    }
}

/// The values of a name are those of the fields with exactly this name, in the order
/// of the fields.
pub proof fn law_values_are_those_of_the_name(
    a: Seq<HeaderModel>,
    b: Seq<HeaderModel>,
    field: HeaderModel,
    name: Seq<char>,
)
    ensures
        values_of(a + b, name) == values_of(a, name) + values_of(b, name),
        values_of(seq![field], name) == if field.0 == name {
            seq![field.1]
        } else {
            Seq::empty()
        },
        values_of(Seq::empty(), name).len() == 0,
{
    lemma_values_of_concat(a, b, name);
    assert(seq![field].drop_last() =~= Seq::<HeaderModel>::empty());
    reveal_with_fuel(values_of, 2);
    assert(values_of(seq![field], name) =~= if field.0 == name {
        seq![field.1]
    } else {
        Seq::empty()
    });
}

proof fn lemma_all_tokens_concat(a: Seq<Seq<char>>, b: Seq<Seq<char>>)
    ensures
        all_tokens(a + b) == all_tokens(a) + all_tokens(b),
    decreases b.len(),
{
    if b.len() == 0 {
        assert(a + b =~= a);
        assert(all_tokens(a) + all_tokens(b) =~= all_tokens(a));
    } else {
        lemma_all_tokens_concat(a, b.drop_last());
        assert((a + b).drop_last() =~= a + b.drop_last());
        assert((a + b).last() == b.last());
        assert(all_tokens(a + b) =~= all_tokens(a) + all_tokens(b));
    }
}

/// A text up to its first separator is its first piece.
pub(crate) proof fn lemma_pieces_first(a: Seq<char>, rest: Seq<char>, sep: char)
    requires
        !a.contains(sep),
    ensures
        pieces(a + seq![sep] + rest, sep) == seq![a] + pieces(rest, sep),
{
    let s = a + seq![sep] + rest;
    assert forall|j: int| 0 <= j < a.len() implies s[j] != sep by {
        assert(s[j] == a[j]);
        assert(a.contains(a[j]));
    }
    crate::text::lemma_first_index_unique(s, sep, a.len() as int);
    assert(s.take(a.len() as int) =~= a);
    assert(s.skip(a.len() as int + 1) =~= rest);
}

/// Connection tokens are separated by commas and trimmed: one field with two
/// tokens names what two fields with one token each name.
pub proof fn law_connection_tokens_are_separated_by_commas(
    a: Seq<HeaderModel>,
    b: Seq<HeaderModel>,
    first: Seq<char>,
    rest: Seq<char>,
)
    requires
        !first.contains(','),
    ensures
        connection_tokens(a + b) == connection_tokens(a) + connection_tokens(b),
        connection_tokens(seq![("connection"@, first)]) == seq![trim(first)],
        connection_tokens(seq![("connection"@, first + seq![','] + rest)]) == seq![trim(first)]
            + connection_tokens(seq![("connection"@, rest)]),
        connection_tokens(Seq::empty()).len() == 0,
{
    let c = "connection"@;
    law_values_are_those_of_the_name(a, b, (c, first), c);
    law_values_are_those_of_the_name(a, b, (c, first + seq![','] + rest), c);
    law_values_are_those_of_the_name(a, b, (c, rest), c);
    lemma_all_tokens_concat(values_of(a, c), values_of(b, c));
    crate::text::lemma_pieces_single(first, ',');
    lemma_pieces_first(first, rest, ',');
    let e = Seq::<Seq<char>>::empty();
    assert(seq![first].drop_last() =~= e);
    assert(seq![rest].drop_last() =~= e);
    assert(seq![first + seq![','] + rest].drop_last() =~= e);
    reveal_with_fuel(all_tokens, 2);
    assert(e + value_tokens(first) =~= seq![trim(first)]);
    assert(e + value_tokens(rest) =~= value_tokens(rest));
    assert(value_tokens(first + seq![','] + rest) =~= seq![trim(first)] + value_tokens(rest));
    assert(e + value_tokens(first + seq![','] + rest) =~= value_tokens(
        first + seq![','] + rest,
    ));
}

/// Whether a field is none of the seven that concern the connection to the proxy and
/// is not named by a connection field.
pub open spec fn end_to_end(headers: Seq<HeaderModel>, name: Seq<char>) -> bool {
    &&& name != "proxy-authorization"@ && name != "proxy-connection"@ && name != "connection"@
    &&& name != "keep-alive"@ && name != "proxy-authenticate"@ && name != "te"@ && name
        != "upgrade"@
    &&& forall|k: int|
        0 <= k < connection_tokens(headers).len() ==> lower(
            #[trigger] connection_tokens(headers)[k],
        ) != name
}

proof fn lemma_forwarded_fields_concat(
    a: Seq<HeaderModel>,
    b: Seq<HeaderModel>,
    tokens: Seq<Seq<char>>,
)
    ensures
        forwarded_fields(a + b, tokens) == forwarded_fields(a, tokens) + forwarded_fields(
            b,
            tokens,
        ),
    decreases b.len(),
{
    if b.len() == 0 {
        assert(a + b =~= a);
        assert(forwarded_fields(a, tokens) + forwarded_fields(b, tokens) =~= forwarded_fields(
            a,
            tokens,
        ));
    } else {
        lemma_forwarded_fields_concat(a, b.drop_last(), tokens);
        assert((a + b).drop_last() =~= a + b.drop_last());
        assert((a + b).last() == b.last());
        assert(forwarded_fields(a + b, tokens) =~= forwarded_fields(a, tokens) + forwarded_fields(
            b,
            tokens,
        ));
    }
}

proof fn lemma_forwarded_single(field: HeaderModel, tokens: Seq<Seq<char>>)
    ensures
        forwarded(field.0, tokens) ==> forwarded_fields(seq![field], tokens) == field.0 + ": "@
            + field.1 + "\r\n"@,
        !forwarded(field.0, tokens) ==> forwarded_fields(seq![field], tokens).len() == 0,
{
    assert(seq![field].drop_last() =~= Seq::<HeaderModel>::empty());
    reveal_with_fuel(forwarded_fields, 2);
    assert(Seq::<char>::empty() + field.0 =~= field.0);
}

/// Every field of the request that is not one of the seven connection-level ones, and
/// that no connection field names, reaches the origin with its value, on a line of its
/// own.
pub proof fn law_end_to_end_fields_reach_the_origin(
    method: Seq<char>,
    origin_form: Seq<char>,
    version: Seq<char>,
    headers: Seq<HeaderModel>,
    authority: Seq<char>,
    i: int,
)
    requires
        0 <= i < headers.len(),
        end_to_end(headers, headers[i].0),
    ensures
        exists|before: Seq<char>, after: Seq<char>|
            forward_head(method, origin_form, version, headers, authority) == #[trigger] (before + (
            headers[i].0 + ": "@ + headers[i].1 + "\r\n"@) + after) && before.len() >= 2
                && before[before.len() - 2] == '\r' && before[before.len() - 1] == '\n',
{
    let tokens = connection_tokens(headers);
    let field = headers[i];
    let a = headers.take(i);
    let b = headers.skip(i + 1);
    assert(headers =~= a + seq![field] + b);
    lemma_forwarded_fields_concat(a + seq![field], b, tokens);
    lemma_forwarded_fields_concat(a, seq![field], tokens);
    lemma_forwarded_single(field, tokens);
    lemma_forwarded_line_end(a, tokens);
    reveal_strlit("\r\n");
    let line = method + " "@ + origin_form + " "@ + version + "\r\n"@;
    let host = if forwards_host(headers, tokens) {
        Seq::empty()
    } else {
        "host: "@ + authority + "\r\n"@
    };
    let text = field.0 + ": "@ + field.1 + "\r\n"@;
    let before = line + forwarded_fields(a, tokens);
    let after = forwarded_fields(b, tokens) + host + "connection: close\r\n\r\n"@;
    assert(forward_head(method, origin_form, version, headers, authority) =~= before + text
        + after);
    assert(line[line.len() - 2] == '\r' && line[line.len() - 1] == '\n');
    let f = forwarded_fields(a, tokens);
    if f.len() > 0 {
        assert(before[before.len() - 2] == f[f.len() - 2]);
        assert(before[before.len() - 1] == f[f.len() - 1]);
    } else {
        assert(before =~= line);
    }
}

proof fn lemma_forwarded_line_end(headers: Seq<HeaderModel>, tokens: Seq<Seq<char>>)
    ensures
        ({
            let f = forwarded_fields(headers, tokens);
            f.len() > 0 ==> f.len() >= 2 && f[f.len() - 2] == '\r' && f[f.len() - 1] == '\n'
        }),
    decreases headers.len(),
{
    reveal_strlit("\r\n");
    if headers.len() > 0 {
        lemma_forwarded_line_end(headers.drop_last(), tokens);
    }
}

/// A field that is not end to end leaves no trace in the forwarded head: without it
/// the head is the same, as long as the same fields are named by connection fields.
pub proof fn law_connection_fields_leave_no_trace(
    method: Seq<char>,
    origin_form: Seq<char>,
    version: Seq<char>,
    headers: Seq<HeaderModel>,
    authority: Seq<char>,
    i: int,
)
    requires
        0 <= i < headers.len(),
        !end_to_end(headers, headers[i].0),
        connection_tokens(headers.remove(i)) == connection_tokens(headers),
    ensures
        forward_head(method, origin_form, version, headers, authority) == forward_head(
            method,
            origin_form,
            version,
            headers.remove(i),
            authority,
        ),
{
    let tokens = connection_tokens(headers);
    let field = headers[i];
    let a = headers.take(i);
    let b = headers.skip(i + 1);
    let rest = headers.remove(i);
    assert(headers =~= a + seq![field] + b);
    assert(rest =~= a + b);
    lemma_forwarded_fields_concat(a + seq![field], b, tokens);
    lemma_forwarded_fields_concat(a, seq![field], tokens);
    lemma_forwarded_fields_concat(a, b, tokens);
    lemma_forwarded_single(field, tokens);
    assert(!forwarded(field.0, tokens));
    assert(forwarded_fields(headers, tokens) =~= forwarded_fields(rest, tokens));
    if forwards_host(headers, tokens) {
        let k = choose|k: int|
            0 <= k < headers.len() && (#[trigger] headers[k]).0 == "host"@ && forwarded(
                "host"@,
                tokens,
            );
        assert(k != i);
        assert(rest[if k < i {
            k
        } else {
            k - 1
        }].0 == "host"@);
    }
    if forwards_host(rest, tokens) {
        let k = choose|k: int|
            0 <= k < rest.len() && (#[trigger] rest[k]).0 == "host"@ && forwarded(
                "host"@,
                tokens,
            );
        assert(headers[if k < i {
            k
        } else {
            k + 1
        }].0 == "host"@);
    }
}

/// The forwarded head begins with the request line and ends with a request to close
/// the connection. Between them stand the end-to-end fields in their order, and one
/// field with the authority of the target where the request has no host field.
pub proof fn law_forwarded_heads_have_one_shape(
    method: Seq<char>,
    origin_form: Seq<char>,
    version: Seq<char>,
    headers: Seq<HeaderModel>,
    authority: Seq<char>,
)
    ensures
        ({
            let head = forward_head(method, origin_form, version, headers, authority);
            let line = method + seq![' '] + origin_form + seq![' '] + version + seq!['\r', '\n'];
            let fields = forwarded_fields(headers, connection_tokens(headers));
            let hosted = exists|i: int|
                0 <= i < headers.len() && (#[trigger] headers[i]).0 == "host"@;
            &&& hosted && end_to_end(headers, "host"@) ==> head == line + fields
                + "connection: close\r\n\r\n"@
            &&& !hosted || !end_to_end(headers, "host"@) ==> head == line + fields + ("host: "@
                + authority + "\r\n"@) + "connection: close\r\n\r\n"@
        }),
        forwarded_fields(Seq::empty(), connection_tokens(headers)).len() == 0,
{
    reveal_strlit(" ");
    reveal_strlit("\r\n");
    reveal_strlit("host");
    reveal_strlit("connection");
    reveal_strlit("te");
    reveal_strlit("upgrade");
    reveal_strlit("keep-alive");
    reveal_strlit("proxy-connection");
    reveal_strlit("proxy-authenticate");
    reveal_strlit("proxy-authorization");
    let tokens = connection_tokens(headers);
    let line = method + seq![' '] + origin_form + seq![' '] + version + seq!['\r', '\n'];
    assert(line =~= method + " "@ + origin_form + " "@ + version + "\r\n"@);
    let fields = forwarded_fields(headers, tokens);
    assert("host"@[0] == 'h');
    assert(forwarded("host"@, tokens) <==> end_to_end(headers, "host"@));
    assert(line + fields + Seq::<char>::empty() =~= line + fields);
}

/// The forwarded fields are written one after another in the order of the request.
pub proof fn law_fields_are_forwarded_in_order(
    a: Seq<HeaderModel>,
    field: HeaderModel,
    headers: Seq<HeaderModel>,
)
    ensures
        ({
            let tokens = connection_tokens(headers);
            &&& end_to_end(headers, field.0) ==> forwarded_fields(a.push(field), tokens)
                == forwarded_fields(a, tokens) + (field.0 + ": "@ + field.1 + "\r\n"@)
            &&& !end_to_end(headers, field.0) ==> forwarded_fields(a.push(field), tokens)
                == forwarded_fields(a, tokens)
        }),
{
    let tokens = connection_tokens(headers);
    assert(a.push(field).drop_last() =~= a);
    assert(forwarded(field.0, tokens) <==> end_to_end(headers, field.0));
    assert(forwarded_fields(a, tokens) + (field.0 + ": "@ + field.1 + "\r\n"@)
        =~= forwarded_fields(a, tokens) + field.0 + ": "@ + field.1 + "\r\n"@);
}

/// The fields of a request that reach the origin.
pub open spec fn reaching(headers: Seq<HeaderModel>, all: Seq<HeaderModel>) -> Seq<HeaderModel>
    decreases headers.len(),
{
    if headers.len() == 0 {
        Seq::empty()
    } else if end_to_end(all, headers.last().0) {
        reaching(headers.drop_last(), all).push(headers.last())
    } else {
        reaching(headers.drop_last(), all)
    }
}

proof fn lemma_reaching(headers: Seq<HeaderModel>, all: Seq<HeaderModel>, name: Seq<char>)
    ensures
        end_to_end(all, name) ==> values_of(reaching(headers, all), name) == values_of(
            headers,
            name,
        ),
        !end_to_end(all, name) ==> values_of(reaching(headers, all), name).len() == 0,
    decreases headers.len(),
{
    if headers.len() > 0 {
        lemma_reaching(headers.drop_last(), all, name);
        let r = reaching(headers, all);
        if end_to_end(all, headers.last().0) {
            assert(r.drop_last() =~= reaching(headers.drop_last(), all));
            assert(r.last() == headers.last());
        }
    }
}

/// The fields that reach the origin frame the message as the request did: the origin
/// sees the same length or the same transfer encoding.
pub proof fn law_framing_reaches_the_origin(headers: Seq<HeaderModel>)
    requires
        framing_of(headers) is Some,
    ensures
        framing_of(reaching(headers, headers)) == framing_of(headers),
        end_to_end(headers, "content-length"@),
        end_to_end(headers, "transfer-encoding"@),
        end_to_end(headers, "host"@),
{
    let tokens = connection_tokens(headers);
    lemma_framing_names();
    assert forall|k: int| 0 <= k < tokens.len() implies lower(#[trigger] tokens[k])
        != "content-length"@ && lower(tokens[k]) != "transfer-encoding"@ && lower(tokens[k])
        != "host"@ by {
        assert(!same_ignoring_case(tokens[k], "content-length"@));
        assert(!same_ignoring_case(tokens[k], "transfer-encoding"@));
        assert(!same_ignoring_case(tokens[k], "host"@));
    }
    lemma_reaching(headers, headers, "content-length"@);
    lemma_reaching(headers, headers, "transfer-encoding"@);
    lemma_reaching(headers, headers, "connection"@);
    let kept = reaching(headers, headers);
    assert(values_of(kept, "connection"@) =~= Seq::empty());
    assert(connection_tokens(kept).len() == 0);
}

proof fn lemma_framing_names()
    ensures
        lower("content-length"@) == "content-length"@,
        lower("transfer-encoding"@) == "transfer-encoding"@,
        lower("host"@) == "host"@,
        !proxy_field("content-length"@),
        !proxy_field("transfer-encoding"@),
        !proxy_field("host"@),
{
    reveal_strlit("content-length");
    reveal_strlit("transfer-encoding");
    reveal_strlit("host");
    reveal_strlit("connection");
    reveal_strlit("te");
    reveal_strlit("upgrade");
    reveal_strlit("keep-alive");
    reveal_strlit("proxy-connection");
    reveal_strlit("proxy-authenticate");
    reveal_strlit("proxy-authorization");
    assert(lower("content-length"@) =~= "content-length"@);
    assert(lower("transfer-encoding"@) =~= "transfer-encoding"@);
    assert(lower("host"@) =~= "host"@);
    assert("transfer-encoding"@[0] == 't' && "content-length"@[0] == 'c');
}

/// The framing of a message is refused exactly where it could be read in two ways: two
/// lengths, two encodings, one of each, a length that is no number, an encoding other
/// than chunked, or a framing field that a connection field names.
pub proof fn law_ambiguous_framing_is_refused(headers: Seq<HeaderModel>)
    ensures
        ({
            let lengths = values_of(headers, "content-length"@);
            let encodings = values_of(headers, "transfer-encoding"@);
            let tokens = connection_tokens(headers);
            framing_of(headers) is Some <==> {
                &&& lengths.len() + encodings.len() <= 1
                &&& lengths.len() == 1 ==> parsed_number(lengths[0], 10, 0xffff_ffff_ffff_ffff)
                    is Some
                &&& encodings.len() == 1 ==> lower(encodings[0]) == "chunked"@
                &&& forall|k: int|
                    0 <= k < tokens.len() ==> lower(#[trigger] tokens[k]) != "content-length"@
                        && lower(tokens[k]) != "transfer-encoding"@ && lower(tokens[k]) != "host"@
            }
        }),
        framing_of(headers) == Some(RequestBody::Chunked) ==> values_of(
            headers,
            "transfer-encoding"@,
        ).len() == 1,
        framing_of(headers) == Some(RequestBody::Empty) ==> values_of(
            headers,
            "content-length"@,
        ).len() == 0 && values_of(headers, "transfer-encoding"@).len() == 0,
{
    lemma_framing_names();
    reveal_strlit("chunked");
    assert(lower("chunked"@) =~= "chunked"@);
    let tokens = connection_tokens(headers);
    if hides_framing(tokens) {
        let k = choose|k: int|
            0 <= k < tokens.len() && {
                ||| same_ignoring_case(#[trigger] tokens[k], "content-length"@)
                ||| same_ignoring_case(tokens[k], "transfer-encoding"@)
                ||| same_ignoring_case(tokens[k], "host"@)
            };
        assert(lower(tokens[k]) == "content-length"@ || lower(tokens[k]) == "transfer-encoding"@
            || lower(tokens[k]) == "host"@);
    } else {
        assert forall|k: int| 0 <= k < tokens.len() implies lower(#[trigger] tokens[k])
            != "content-length"@ && lower(tokens[k]) != "transfer-encoding"@ && lower(tokens[k])
            != "host"@ by {
            assert(!same_ignoring_case(tokens[k], "content-length"@));
            assert(!same_ignoring_case(tokens[k], "transfer-encoding"@));
            assert(!same_ignoring_case(tokens[k], "host"@));
        }
    }
}

/// The characters of a header name are the visible ones of ASCII without the
/// separators.
pub proof fn law_names_hold_no_separators(c: char)
    ensures
        token_char(c) <==> '!' <= c <= '~' && c != '"' && c != '(' && c != ')' && c != ',' && c
            != '/' && !(':' <= c <= '@') && !('[' <= c <= ']') && c != '{' && c != '}',
{
}

proof fn lemma_token_bytes(name: Seq<u8>)
    requires
        token(byte_chars(name)),
    ensures
        name.len() > 0,
        forall|i: int| 0 <= i < name.len() ==> (#[trigger] name[i]) != 58 && name[i] != 13 && name[i]
            != 10 && !ascii_white_space(name[i] as char),
{
    let c = byte_chars(name);
    assert(c.len() == name.len());
    assert forall|i: int| 0 <= i < name.len() implies (#[trigger] name[i]) != 58 && name[i] != 13
        && name[i] != 10 && !ascii_white_space(name[i] as char) by {
        assert(c[i] == name[i] as char);
        assert(token_char(c[i]));
    }
}

/// A line of a name, a colon and a text is the field of that name in lower case and
/// that text, trimmed, unless the text holds a control character inside.
pub proof fn law_header_lines_read_back(name: Seq<u8>, value: Seq<u8>)
    requires
        token(byte_chars(name)),
        valid_utf8(value),
    ensures
        ({
            let line = name + seq![58u8] + value + seq![13u8, 10u8];
            let text = trim(decode_utf8(value));
            &&& (forall|i: int|
                0 <= i < text.len() ==> (#[trigger] text[i]) == '\t' || text[i] > '\u{1f}'
                    && text[i] != '\u{7f}') ==> header_field(line) == Some(
                (lower(byte_chars(name)), text),
            )
            &&& (exists|i: int|
                0 <= i < text.len() && (#[trigger] text[i]) != '\t' && (text[i] <= '\u{1f}'
                    || text[i] == '\u{7f}')) ==> header_field(line) is None
        }),
{
    let line = name + seq![58u8] + value + seq![13u8, 10u8];
    let bare = name + seq![58u8] + value;
    let text = trim(decode_utf8(value));
    lemma_token_bytes(name);
    assert(line.len() == bare.len() + 2);
    assert(line[line.len() - 2] == 13 && line[line.len() - 1] == 10);
    assert(line.take(line.len() - 2) =~= bare);
    assert forall|j: int| 0 <= j < name.len() implies bare[j] != 58 by {
        assert(bare[j] == name[j]);
    }
    crate::bytes_text::lemma_first_byte_unique(bare, 58, name.len() as int);
    assert(bare.take(name.len() as int) =~= name);
    assert(bare.skip(name.len() as int + 1) =~= value);
    assert(bare[0] == name[0]);
    if has_forbidden_control(text) {
        let i = choose|i: int| 0 <= i < text.len() && ascii_control(#[trigger] text[i]) && text[i]
            != '\t';
        assert(!(text[i] == '\t' || text[i] > '\u{1f}' && text[i] != '\u{7f}'));
    } else {
        assert forall|i: int| 0 <= i < text.len() implies !((#[trigger] text[i]) != '\t' && (text[i]
            <= '\u{1f}' || text[i] == '\u{7f}')) by {
            assert(!(ascii_control(text[i]) && text[i] != '\t'));
        }
    }
}

/// A line without a colon, with nothing before it, or that begins with white space, as
/// folded lines do, is no field.
pub proof fn law_other_lines_are_no_fields(line: Seq<u8>)
    ensures
        (forall|i: int| 0 <= i < line.len() ==> (#[trigger] line[i]) != 58) ==> header_field(line)
            is None,
        line.len() > 0 && line[0] == 58 ==> header_field(line) is None,
        line.len() > 0 && (line[0] == 32 || line[0] == 9) ==> header_field(line) is None,
{
    let bare = without_crlf(line);
    assert(forall|i: int| 0 <= i < bare.len() ==> bare[i] == line[i]);
    crate::bytes_text::lemma_first_byte(bare, 58);
    if line.len() > 0 && line[0] == 58 {
        if bare.len() > 0 {
            crate::bytes_text::lemma_first_byte_unique(bare, 58, 0);
            assert(byte_chars(bare.take(0)).len() == 0);
        }
    }
    if line.len() > 0 && (line[0] == 32 || line[0] == 9) {
        if bare.len() > 0 {
            assert(bare[0] == line[0]);
        }
    }
}

/// The lines of a head are fields one for one; a line that is none spoils the head.
pub proof fn law_every_line_is_a_field(lines: Seq<Seq<u8>>)
    ensures
        header_fields(lines) is Some <==> forall|i: int|
            0 <= i < lines.len() ==> header_field(#[trigger] lines[i]) is Some,
        header_fields(lines) is Some ==> header_fields(lines)->0.len() == lines.len() && forall|
            i: int,
        |
            0 <= i < lines.len() ==> header_field(#[trigger] lines[i]) == Some(
                header_fields(lines)->0[i],
            ),
    decreases lines.len(),
{
    if lines.len() > 0 {
        let t = lines.drop_last();
        law_every_line_is_a_field(t);
        assert(forall|i: int| 0 <= i < t.len() ==> t[i] == lines[i]);
        if header_fields(lines) is Some {
            assert forall|i: int| 0 <= i < lines.len() implies header_field(#[trigger] lines[i])
                == Some(header_fields(lines)->0[i]) by {
                if i < t.len() {
                    assert(header_field(t[i]) == Some(header_fields(t)->0[i]));
                }
            }
        } else if header_fields(t) is None {
            let i = choose|i: int| 0 <= i < t.len() && header_field(#[trigger] t[i]) is None;
            assert(header_field(lines[i]) is None);
        } else {
            assert(header_field(lines[lines.len() - 1]) is None);
        }
    }
}

/// A request has credentials exactly if it has one field for them, of the Basic scheme
/// in any case, with 1 to 512 bytes behind the first space.
pub proof fn law_credentials_stand_behind_the_scheme(
    headers: Seq<HeaderModel>,
    scheme: Seq<char>,
    encoded: Seq<char>,
)
    requires
        !scheme.contains(' '),
    ensures
        values_of(headers, "proxy-authorization"@) == seq![scheme + seq![' '] + encoded] ==> (
        encoded_credentials(headers) == if lower(scheme) == "basic"@ && encoded.len() > 0
            && utf8_len(encoded) <= 512 {
            Some(encoded)
        } else {
            None
        }),
        values_of(headers, "proxy-authorization"@).len() != 1 ==> encoded_credentials(headers)
            is None,
        values_of(headers, "proxy-authorization"@) == seq![scheme] ==> encoded_credentials(headers)
            is None,
{
    let v = scheme + seq![' '] + encoded;
    assert forall|j: int| 0 <= j < scheme.len() implies v[j] != ' ' by {
        assert(v[j] == scheme[j]);
        assert(scheme.contains(scheme[j]));
    }
    crate::text::lemma_first_index_unique(v, ' ', scheme.len() as int);
    assert(v.take(scheme.len() as int) =~= scheme);
    assert(v.skip(scheme.len() as int + 1) =~= encoded);
    reveal_strlit("basic");
    assert(lower("basic"@) =~= "basic"@);
    crate::text::lemma_first_index(scheme, ' ');
}

/// A user's password is what stands behind the first colon of the decoded
/// credentials, and credentials of another user hold none.
pub proof fn law_passwords_belong_to_their_user(
    user: Seq<u8>,
    password: Seq<u8>,
    username: Seq<char>,
)
    requires
        forall|i: int| 0 <= i < user.len() ==> (#[trigger] user[i]) != 58,
    ensures
        password_of(user + seq![58u8] + password, username) == if user == encode_utf8(username) {
            Some(password)
        } else {
            None
        },
        password_of(user, username) is None,
{
    let d = user + seq![58u8] + password;
    assert forall|j: int| 0 <= j < user.len() implies d[j] != 58 by {
        assert(d[j] == user[j]);
    }
    crate::bytes_text::lemma_first_byte_unique(d, 58, user.len() as int);
    assert(d.take(user.len() as int) =~= user);
    assert(d.skip(user.len() as int + 1) =~= password);
    crate::bytes_text::lemma_first_byte(user, 58);
}

proof fn lemma_host_chars(host: Seq<char>)
    requires
        valid_host(host),
    ensures
        host.len() > 0,
        forall|i: int|
            0 <= i < host.len() ==> !authority_forbidden(#[trigger] host[i]) && host[i] != ':'
                && host[i] != '[' && host[i] <= '\u{7f}',
{
    crate::host_name::lemma_label_chars(host);
    assert forall|i: int| 0 <= i < host.len() implies !authority_forbidden(#[trigger] host[i])
        && host[i] != ':' && host[i] != '[' && host[i] <= '\u{7f}' by {
        assert(ascii_alphanumeric(host[i]) || host[i] == '-' || host[i] == '.');
    }
}

/// A host name, with or without a port, denotes that host in lower case and that port.
/// Without a port it denotes the default one, or nothing where there is no default.
#[verifier::spinoff_prover]
#[verifier::rlimit(60)]
pub proof fn law_host_names_are_authorities(
    host: Seq<char>,
    port: nat,
    default_port: Option<u16>,
)
    requires
        valid_host(host),
        ip_address(host) is None,
        port <= 65535,
        default_port != Some(0u16),
    ensures
        default_port is None ==> authority_of(host, default_port) is None,
        default_port is Some ==> {
            &&& authority_of(host, default_port) is Some
            &&& authority_of(host, default_port)->0.host == lower(host)
            &&& authority_of(host, default_port)->0.port == default_port->0
            &&& authority_of(host, default_port)->0.normalized == lower(host)
        },
        ip_address(host + seq![':'] + decimal(port)) is None ==> ({
            let a = authority_of(host + seq![':'] + decimal(port), default_port);
            &&& port == 0 ==> a is None
            &&& port > 0 ==> {
                &&& a is Some
                &&& a->0.host == lower(host)
                &&& a->0.port == port
                &&& a->0.normalized == if default_port is Some && default_port->0 == port {
                    lower(host)
                } else {
                    lower(host) + seq![':'] + decimal(port)
                }
            }
        }),
{
    lemma_host_chars(host);
    crate::text::lemma_last_index(host, ':');
    let l = lower(host);
    assert forall|i: int| 0 <= i < l.len() implies l[i] != ':' by {
        assert(l[i] == crate::text::lower_char(host[i]));
    }
    assert(!l.contains(':'));
    assert(crate::text::all_ascii(host));
    crate::text::lemma_utf8_len_ascii(host);
    let n = decimal(port);
    crate::number::lemma_numeral(port, 10);
    crate::number::law_decimal_reads_back(port, 65535);
    lemma_port_digits(port);
    let v = host + seq![':'] + n;
    assert forall|i: int| 0 <= i < v.len() implies !authority_forbidden(#[trigger] v[i]) && v[i]
        <= '\u{7f}' && (v[i] == ':' <==> i == host.len()) by {
        if i < host.len() {
            assert(v[i] == host[i]);
        } else if i > host.len() {
            assert(v[i] == n[i - host.len() - 1]);
            assert(crate::number::digit_value(n[i - host.len() - 1]) < 10);
        }
    }
    assert(crate::text::all_ascii(v));
    crate::text::lemma_utf8_len_ascii(v);
    crate::text::lemma_last_index_unique(v, ':', host.len() as int);
    assert(v.take(host.len() as int) =~= host);
    assert(v.skip(host.len() as int + 1) =~= n);
    assert(!host.contains(':'));
    assert(v[0] == host[0]);
}

proof fn lemma_port_digits(port: nat)
    requires
        port <= 65535,
    ensures
        decimal(port).len() <= 5,
{
    reveal_with_fuel(crate::number::numeral, 6);
    assert(port / 10 <= 6553);
    assert((port / 10) / 10 <= 655);
    assert(((port / 10) / 10) / 10 <= 65);
    assert((((port / 10) / 10) / 10) / 10 <= 6);
}

/// An IPv6 address in brackets denotes that address and the port behind it, or the
/// default one.
pub proof fn law_bracketed_addresses_are_authorities(
    address: Seq<char>,
    port: nat,
    default_port: Option<u16>,
)
    requires
        ipv6_groups(address) is Some,
        !address.contains(']'),
        1 <= port <= 65535,
        utf8_len(seq!['['] + address + seq![']', ':'] + decimal(port)) <= 300,
        forall|i: int| 0 <= i < address.len() ==> !authority_forbidden(#[trigger] address[i]),
    ensures
        ({
            let a = authority_of(seq!['['] + address + seq![']', ':'] + decimal(port), default_port);
            &&& a is Some
            &&& a->0.host == lower(address)
            &&& a->0.port == port
        }),
        default_port is None ==> authority_of(seq!['['] + address + seq![']'], default_port)
            is None,
        default_port is Some && default_port->0 > 0 ==> ({
            let a = authority_of(seq!['['] + address + seq![']'], default_port);
            &&& a is Some
            &&& a->0.host == lower(address)
            &&& a->0.port == default_port->0
        }),
{
    let n = decimal(port);
    crate::number::lemma_numeral(port, 10);
    crate::number::law_decimal_reads_back(port, 65535);
    let v = seq!['['] + address + seq![']', ':'] + n;
    let w = seq!['['] + address + seq![']'];
    let end = address.len() as int;
    assert(v.skip(1) =~= address + seq![']', ':'] + n);
    assert(w.skip(1) =~= address + seq![']']);
    assert forall|j: int| 0 <= j < end implies v.skip(1)[j] != ']' && w.skip(1)[j] != ']' by {
        assert(v.skip(1)[j] == address[j]);
        assert(address.contains(address[j]));
    }
    crate::text::lemma_first_index_unique(v.skip(1), ']', end);
    crate::text::lemma_first_index_unique(w.skip(1), ']', end);
    assert(v.skip(1).take(end) =~= address);
    assert(w.skip(1).take(end) =~= address);
    assert(v.skip(1).skip(end + 1) =~= seq![':'] + n);
    assert(w.skip(1).skip(end + 1) =~= Seq::<char>::empty());
    assert((seq![':'] + n).skip(1) =~= n);
    assert forall|i: int| 0 <= i < v.len() implies !authority_forbidden(#[trigger] v[i]) by {
        if 1 <= i <= end {
            assert(v[i] == address[i - 1]);
        } else if i > end + 2 {
            assert(v[i] == n[i - end - 3]);
            assert(crate::number::digit_value(n[i - end - 3]) < 10);
        }
    }
    assert forall|i: int| 0 <= i < w.len() implies !authority_forbidden(#[trigger] w[i]) by {
        if 1 <= i <= end {
            assert(w[i] == address[i - 1]);
        }
    }
    assert(v.take(end + 2) =~= w);
    crate::text::lemma_utf8_len_mono(v, end + 2);
}

/// No authority holds white space, control characters, user information, a path, a
/// query or a fragment, and its port is never zero.
pub proof fn law_authorities_are_plain(value: Seq<char>, default_port: Option<u16>)
    requires
        authority_of(value, default_port) is Some,
    ensures
        0 < value.len(),
        utf8_len(value) <= 300,
        1 <= authority_of(value, default_port)->0.port <= 65535,
        forall|i: int|
            0 <= i < value.len() ==> (#[trigger] value[i]) > ' ' && value[i] != '\u{7f}' && value[i]
                != '/' && value[i] != '\\' && value[i] != '?' && value[i] != '#' && value[i] != '@',
{
    assert forall|i: int| 0 <= i < value.len() implies (#[trigger] value[i]) > ' ' && value[i]
        != '\u{7f}' && value[i] != '/' && value[i] != '\\' && value[i] != '?' && value[i] != '#'
        && value[i] != '@' by {
        assert(!authority_forbidden(value[i]));
    }
}

/// An absolute URI of the http scheme denotes its authority, with port 80 by default,
/// and its path and query; an empty path is the root.
pub proof fn law_targets_are_authority_and_path(authority: Seq<char>, path: Seq<char>)
    requires
        forall|i: int|
            0 <= i < authority.len() ==> (#[trigger] authority[i]) != '/' && authority[i] != '?'
                && authority[i] != '#' && authority[i] != '@',
        path.len() == 0 || path[0] == '/' || path[0] == '?',
        forall|i: int| 0 <= i < path.len() ==> (#[trigger] path[i]) > ' ' && path[i] != '\u{7f}'
            && path[i] != '#',
    ensures
        ({
            let t = http_uri("http://"@ + authority + path);
            let a = authority_of(authority, Some(80));
            &&& t is Some <==> a is Some
            &&& t is Some ==> t->0.authority == a->0
            &&& t is Some && path.len() == 0 ==> t->0.origin_form == seq!['/']
            &&& t is Some && path.len() > 0 && path[0] == '/' ==> t->0.origin_form == path
            &&& t is Some && path.len() > 0 && path[0] == '?' ==> t->0.origin_form == seq!['/']
                + path
        }),
{
    reveal_strlit("http://");
    let v = "http://"@ + authority + path;
    let rest = v.skip(7);
    assert(v.take(7) =~= "http://"@);
    assert(rest =~= authority + path);
    let k = authority.len() as int;
    crate::text::lemma_first_index(rest, '/');
    crate::text::lemma_first_index(rest, '?');
    assert forall|j: int| 0 <= j < k implies rest[j] != '/' && rest[j] != '?' by {
        assert(rest[j] == authority[j]);
    }
    if path.len() > 0 {
        assert(rest[k] == path[0]);
    }
    assert(path_start(rest) == k);
    assert(rest.take(k) =~= authority);
    assert(rest.skip(k) =~= path);
    assert forall|j: int| 0 <= j < rest.len() implies rest[j] != '#' by {
        if j < k {
            assert(rest[j] == authority[j]);
        } else {
            assert(rest[j] == path[j - k]);
        }
    }
    let o = origin_form_of(path);
    assert forall|i: int| 0 <= i < o.len() implies !target_forbidden(#[trigger] o[i]) by {
        if path.len() > 0 && path[0] == '?' {
            if i > 0 {
                assert(o[i] == path[i - 1]);
            }
        } else if path.len() > 0 {
            assert(o[i] == path[i]);
        }
    }
}

/// Only absolute URIs of the http scheme, without a fragment and without user
/// information, are forwarded, and no space or control character is.
pub proof fn law_targets_are_safe(value: Seq<char>)
    requires
        http_uri(value) is Some,
    ensures
        value.len() > 7,
        value.take(7) == "http://"@,
        !value.skip(7).contains('#'),
        http_uri(value)->0.origin_form.len() > 0,
        http_uri(value)->0.origin_form[0] == '/',
        forall|i: int|
            0 <= i < http_uri(value)->0.origin_form.len() ==> (
            #[trigger] http_uri(value)->0.origin_form[i]) > ' ' && http_uri(value)->0.origin_form[i]
                != '\u{7f}',
        1 <= http_uri(value)->0.authority.port <= 65535,
{
    reveal_strlit("http://");
    let rest = value.skip(7);
    let end = path_start(rest);
    let o = http_uri(value)->0.origin_form;
    crate::text::lemma_first_index(rest, '/');
    crate::text::lemma_first_index(rest, '?');
    law_authorities_are_plain(rest.take(end), Some(80));
    assert forall|i: int| 0 <= i < o.len() implies (#[trigger] o[i]) > ' ' && o[i] != '\u{7f}' by {
        assert(!target_forbidden(o[i]));
    }
}

/// A line of a method, a target without spaces and a version of HTTP/1, separated by
/// single spaces, is the request line of these three.
pub proof fn law_request_lines_read_back(
    bytes: Seq<u8>,
    method: Seq<char>,
    target: Seq<char>,
    version: Seq<char>,
)
    requires
        valid_utf8(bytes),
        decode_utf8(bytes) == method + seq![' '] + (target + seq![' '] + version),
        !method.contains(' '),
        !target.contains(' '),
        !version.contains(' '),
    ensures
        ({
            let r = request_line(bytes + seq![13u8, 10u8]);
            &&& r is Some <==> {
                &&& method.len() > 0
                &&& forall|i: int|
                    0 <= i < method.len() ==> 'A' <= (#[trigger] method[i]) <= 'Z' || method[i]
                        == '-' || method[i] == '_'
                &&& version == "HTTP/1.0"@ || version == "HTTP/1.1"@
            }
            &&& r is Some ==> r->0.method == method && r->0.target == target && r->0.version
                == version
        }),
{
    let line = bytes + seq![13u8, 10u8];
    assert(line.take(line.len() - 2) =~= bytes);
    lemma_pieces_first(method, target + seq![' '] + version, ' ');
    lemma_pieces_first(target, version, ' ');
    crate::text::lemma_pieces_single(version, ' ');
    let parts = pieces(decode_utf8(bytes), ' ');
    assert(parts =~= seq![method, target, version]);
    if method_text(method) {
        assert forall|i: int| 0 <= i < method.len() implies 'A' <= (#[trigger] method[i]) <= 'Z'
            || method[i] == '-' || method[i] == '_' by {
            assert(method_char(method[i]));
        }
    } else if method.len() > 0 {
        let i = choose|i: int| 0 <= i < method.len() && !method_char(#[trigger] method[i]);
        assert(!('A' <= method[i] <= 'Z' || method[i] == '-' || method[i] == '_'));
    }
}

/// A host field agrees with the target exactly if there is none, or one that denotes
/// the same host and port.
pub proof fn law_hosts_agree_with_the_target(headers: Seq<HeaderModel>, authority: Seq<char>)
    ensures
        values_of(headers, "host"@).len() == 0 ==> host_agrees(headers, authority),
        values_of(headers, "host"@).len() > 1 ==> !host_agrees(headers, authority),
        values_of(headers, "host"@).len() == 1 ==> (host_agrees(headers, authority) <==> ({
            let a = authority_of(values_of(headers, "host"@)[0], Some(80));
            a is Some && a->0.normalized == authority
        })),
{
}

/// A request is served exactly if its head can be read, its password is right and its
/// target is clear. A tunnel has no body; anything else goes to the host of its URI
/// with the body that its fields frame.
pub proof fn law_served_requests_go_where_they_ask(
    lines: Seq<Seq<u8>>,
    username: Seq<char>,
    password_matches: bool,
)
    ensures
        ({
            let r = proxy_request(lines, username, password_matches);
            let head = request_head(lines);
            &&& head is None <==> lines.len() == 0 || request_line(lines[0]) is None
                || header_fields(lines.skip(1)) is None
            &&& head is None ==> r == Err::<ProxyRequestModel, RequestError>(RequestError::Malformed)
            &&& r is Ok ==> password_matches && head is Some && presented_password(
                head->0.headers,
                username,
            ) is Some && framing_of(head->0.headers) is Some
            &&& head is Some && (!password_matches || presented_password(
                head->0.headers,
                username,
            ) is None) <==> r == Err::<ProxyRequestModel, RequestError>(
                RequestError::Authentication,
            )
            &&& r is Ok && head->0.line.method == "CONNECT"@ ==> {
                let a = authority_of(head->0.line.target, None);
                &&& a is Some
                &&& r->Ok_0.target_host == a->0.host
                &&& r->Ok_0.target_port == a->0.port
                &&& r->Ok_0.kind is Connect
                &&& framing_of(head->0.headers) == Some(RequestBody::Empty)
            }
            &&& r is Ok && head->0.line.method != "CONNECT"@ ==> {
                let t = http_uri(head->0.line.target);
                &&& t is Some
                &&& r->Ok_0.target_host == t->0.authority.host
                &&& r->Ok_0.target_port == t->0.authority.port
                &&& host_agrees(head->0.headers, t->0.authority.normalized)
                &&& r->Ok_0.kind is Forward
                &&& framing_of(head->0.headers) == Some(r->Ok_0.kind->body)
                &&& r->Ok_0.kind->head_request <==> head->0.line.method == "HEAD"@
                &&& decode_utf8(r->Ok_0.kind->encoded_head) == forward_head(
                    head->0.line.method,
                    t->0.origin_form,
                    head->0.line.version,
                    head->0.headers,
                    t->0.authority.normalized,
                )
            }
            &&& head is Some && password_matches && presented_password(
                head->0.headers,
                username,
            ) is Some && framing_of(head->0.headers) is Some && head->0.line.method != "CONNECT"@
                && http_uri(head->0.line.target) is Some && values_of(
                head->0.headers,
                "host"@,
            ).len() == 0 ==> r is Ok
            &&& head is Some && password_matches && presented_password(
                head->0.headers,
                username,
            ) is Some && framing_of(head->0.headers) == Some(RequestBody::Empty)
                && head->0.line.method == "CONNECT"@ && authority_of(head->0.line.target, None)
                is Some ==> r is Ok
        }),
{
    let head = request_head(lines);
    if head is Some {
        if head->0.line.method == "CONNECT"@ {
            if authority_of(head->0.line.target, None) is Some {
                law_authorities_are_plain(head->0.line.target, None);
            }
        } else if http_uri(head->0.line.target) is Some {
            let t = http_uri(head->0.line.target)->0;
            law_targets_are_safe(head->0.line.target);
            encode_utf8_decode_utf8(
                forward_head(
                    head->0.line.method,
                    t.origin_form,
                    head->0.line.version,
                    head->0.headers,
                    t.authority.normalized,
                ),
            );
        }
    }
}

} // verus!
