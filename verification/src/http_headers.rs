//! Header fields of tunnelled HTTP messages: hop-by-hop cleanup, forwarding
//! fields and protocol detection.

use crate::bytes_text::{byte_chars, chars_of_bytes};
use crate::http_proxy::{all_tokens, is_token, token, collect_tokens};
use crate::ip_address::{
    ip_address, ip_text, ip_to_text, is_loopback, loopback, parse_ip, IpAddress, IpModel,
};
use crate::text::{
    chars_are, chars_are_ignoring_case, has_prefix, lower, lowered, pieces, same_ignoring_case,
    split, starts_with, string_of, string_views, texts, trim, trimmed,
};
use hyper::header::HeaderValue;
use hyper::HeaderMap;
use vstd::prelude::*;
use vstd::string::*;
use vstd::utf8::*;

verus! {

// ---------------------------------------------------------------------------
// The header map
// ---------------------------------------------------------------------------

#[verifier::external_type_specification]
#[verifier::external_body]
pub struct ExHeaderValue(HeaderValue);

#[verifier::external_type_specification]
#[verifier::external_body]
#[verifier::reject_recursive_types(T)]
pub struct ExHeaderMap<T>(HeaderMap<T>);

/// The values of a header map by name, in the order in which they were added.
/// Names are in lower case, and every name has at least one value.
pub uninterp spec fn header_contents(headers: HeaderMap<HeaderValue>) -> Map<
    Seq<char>,
    Seq<Seq<u8>>,
>;

/// A name under which a header map can hold values.
pub open spec fn field_name(name: Seq<char>) -> bool {
    token(name) && lower(name) == name && name.len() <= 65_535
}

/// The values of a name, none where the map does not have it.
pub open spec fn field_values(m: Map<Seq<char>, Seq<Seq<u8>>>, name: Seq<char>) -> Seq<Seq<u8>> {
    if m.dom().contains(name) {
        m[name]
    } else {
        Seq::empty()
    }
}

pub open spec fn byte_views(v: Seq<Vec<u8>>) -> Seq<Seq<u8>> {
    v.map_values(|x: Vec<u8>| x@)
}

/// Calls `HeaderMap::get_all` and copies the bytes of the values. They come in
/// the order in which they were added, and a name that the map does not have
/// gives none.
#[verifier::external_body]
fn get_values(headers: &HeaderMap<HeaderValue>, name: &str) -> (r: Vec<Vec<u8>>)
    requires
        field_name(name@),
    ensures
        byte_views(r@) == field_values(header_contents(*headers), name@),
{
    headers.get_all(name).iter().map(|value| value.as_bytes().to_vec()).collect()
}

/// Calls `HeaderMap::contains_key`.
#[verifier::external_body]
fn has_field(headers: &HeaderMap<HeaderValue>, name: &str) -> (r: bool)
    requires
        field_name(name@),
    ensures
        r == header_contents(*headers).dom().contains(name@),
{
    headers.contains_key(name)
}

/// Calls `HeaderMap::remove`, which takes out every value of the name.
#[verifier::external_body]
fn remove_field(headers: &mut HeaderMap<HeaderValue>, name: &str)
    requires
        field_name(name@),
    ensures
        header_contents(*final(headers)) == header_contents(*old(headers)).remove(name@),
{
    headers.remove(name);
}

/// A byte that may stand in a header value.
pub open spec fn value_byte(b: u8) -> bool {
    b >= 32 && b != 127 || b == 9
}

/// Calls `HeaderMap::insert` with a value from `HeaderValue::from_bytes`, which
/// accepts the bytes of [`value_byte`]. The value takes the place of every value
/// of the name. `insert` panics on a map that cannot grow; one with at most 6553
/// names can.
#[verifier::external_body]
fn insert_field(headers: &mut HeaderMap<HeaderValue>, name: &str, value: &[u8])
    requires
        field_name(name@),
        forall|i: int| 0 <= i < value@.len() ==> value_byte(#[trigger] value@[i]),
        header_contents(*old(headers)).dom().finite(),
        header_contents(*old(headers)).dom().len() <= 6_553,
    ensures
        header_contents(*final(headers)) == header_contents(*old(headers)).insert(
            name@,
            seq![value@],
        ),
{
    let name = hyper::header::HeaderName::from_bytes(name.as_bytes()).expect("header name");
    let value = HeaderValue::from_bytes(value).expect("header value");
    headers.insert(name, value);
}

/// The number of elements of a finite set.
pub open spec fn finite_size(s: Set<Seq<char>>) -> Option<nat> {
    if s.finite() {
        Some(s.len())
    } else {
        None
    }
}

/// Calls `HeaderMap::keys_len`, the number of different names.
#[verifier::external_body]
pub(crate) fn names_len(headers: &HeaderMap<HeaderValue>) -> (r: usize)
    ensures
        finite_size(header_contents(*headers).dom()) == Some(r as nat),
{
    headers.keys_len()
}

// ---------------------------------------------------------------------------
// Values
// ---------------------------------------------------------------------------

/// A byte of a value that is read as text.
pub open spec fn visible_byte(b: u8) -> bool {
    32 <= b < 127 || b == 9
}

/// The text of a value, where every byte is visible.
pub open spec fn visible_text(value: Seq<u8>) -> Option<Seq<char>> {
    if forall|i: int| 0 <= i < value.len() ==> visible_byte(#[trigger] value[i]) {
        Some(byte_chars(value))
    } else {
        None
    }
}

/// The texts of those values that have one.
pub open spec fn visible_texts(values: Seq<Seq<u8>>) -> Seq<Seq<char>>
    decreases values.len(),
{
    if values.len() == 0 {
        Seq::empty()
    } else {
        let rest = visible_texts(values.drop_last());
        match visible_text(values.last()) {
            Some(text) => rest.push(text),
            None => rest,
        }
    }
}

/// The text of the first value of a name.
pub open spec fn first_text(m: Map<Seq<char>, Seq<Seq<u8>>>, name: Seq<char>) -> Option<Seq<char>> {
    let values = field_values(m, name);
    if values.len() == 0 {
        None
    } else {
        visible_text(values[0])
    }
}

/// The trimmed comma-separated tokens of the readable values of a name.
pub open spec fn field_tokens(m: Map<Seq<char>, Seq<Seq<u8>>>, name: Seq<char>) -> Seq<Seq<char>> {
    all_tokens(visible_texts(field_values(m, name)))
}

pub fn read_visible(value: &[u8]) -> (r: Option<Vec<char>>)
    ensures
        match r {
            Some(text) => visible_text(value@) == Some(text@),
            None => visible_text(value@) is None,
        },
{
    let mut i: usize = 0;
    while i < value.len()
        invariant
            i <= value@.len(),
            forall|j: int| 0 <= j < i ==> visible_byte(#[trigger] value@[j]),
        decreases value@.len() - i,
    {
        if !((32 <= value[i] && value[i] < 127) || value[i] == 9) {
            assert(!visible_byte(value@[i as int]));
            return None;
        }
        i = i + 1;
    }
    Some(chars_of_bytes(value))
}

fn read_first(headers: &HeaderMap<HeaderValue>, name: &str) -> (r: Option<Vec<char>>)
    requires
        field_name(name@),
    ensures
        match r {
            Some(text) => first_text(header_contents(*headers), name@) == Some(text@),
            None => first_text(header_contents(*headers), name@) is None,
        },
{
    let values = get_values(headers, name);
    assert(byte_views(values@).len() == values@.len());
    if values.len() == 0 {
        return None;
    }
    assert(byte_views(values@)[0] == values@[0]@);
    read_visible(&values[0])
}

fn read_tokens(headers: &HeaderMap<HeaderValue>, name: &str) -> (r: Vec<Vec<char>>)
    requires
        field_name(name@),
    ensures
        texts(r@) == field_tokens(header_contents(*headers), name@),
{
    let values = get_values(headers, name);
    let ghost all = byte_views(values@);
    let mut readable: Vec<String> = Vec::new();
    let mut i: usize = 0;
    assert(all.take(0) =~= Seq::empty());
    assert(string_views(readable@) =~= Seq::empty());
    while i < values.len()
        invariant
            i <= values@.len(),
            all == byte_views(values@),
            string_views(readable@) == visible_texts(all.take(i as int)),
        decreases values@.len() - i,
    {
        proof {
            assert(all.take(i + 1).drop_last() =~= all.take(i as int));
            assert(all.take(i + 1).last() == values@[i as int]@);
        }
        if let Some(text) = read_visible(&values[i]) {
            let value = string_of(&text);
            let ghost before = readable@;
            let ghost vm = value@;
            readable.push(value);
            assert(string_views(readable@) =~= string_views(before).push(vm));
        }
        i = i + 1;
    }
    assert(all.take(all.len() as int) =~= all);
    collect_tokens(&readable)
}

/// Whether a token is among the list, up to the case of its letters.
pub open spec fn names_token(tokens: Seq<Seq<char>>, name: Seq<char>) -> bool {
    exists|i: int| 0 <= i < tokens.len() && same_ignoring_case(#[trigger] tokens[i], name)
}

fn has_token(tokens: &Vec<Vec<char>>, name: &str) -> (r: bool)
    ensures
        r == names_token(texts(tokens@), name@),
{
    let ghost all = texts(tokens@);
    let mut i: usize = 0;
    while i < tokens.len()
        invariant
            i <= tokens@.len(),
            all == texts(tokens@),
            forall|j: int| 0 <= j < i ==> !same_ignoring_case(#[trigger] all[j], name@),
        decreases tokens@.len() - i,
    {
        assert(all[i as int] == tokens@[i as int]@);
        if chars_are_ignoring_case(&tokens[i], name) {
            return true;
        }
        i = i + 1;
    }
    false
}

// ---------------------------------------------------------------------------
// Protocols
// ---------------------------------------------------------------------------

/// Whether a media type is that of native gRPC: `application/grpc`, alone or
/// with a `+` suffix.
pub open spec fn grpc_media_type(value: Seq<char>) -> bool {
    let essence = trim(pieces(value, ';')[0]);
    same_ignoring_case(essence, "application/grpc"@) || starts_with(
        lower(essence),
        "application/grpc+"@,
    )
}

/// Whether a request is native gRPC.
pub open spec fn native_grpc(m: Map<Seq<char>, Seq<Seq<u8>>>) -> bool {
    match first_text(m, "content-type"@) {
        Some(value) => grpc_media_type(value),
        None => false,
    }
}

/// Whether a request asks for a protocol upgrade.
pub open spec fn upgrade_request(m: Map<Seq<char>, Seq<Seq<u8>>>) -> bool {
    m.dom().contains("upgrade"@) && names_token(field_tokens(m, "connection"@), "upgrade"@)
}

proof fn lemma_names()
    ensures
        field_name("connection"@),
        field_name("upgrade"@),
        field_name("te"@),
        field_name("trailer"@),
        field_name("content-type"@),
        field_name("proxy-authenticate"@),
        field_name("proxy-authorization"@),
        field_name("transfer-encoding"@),
        field_name("proxy-connection"@),
        field_name("keep-alive"@),
{
    reveal_strlit("connection");
    reveal_strlit("upgrade");
    reveal_strlit("te");
    reveal_strlit("trailer");
    reveal_strlit("content-type");
    reveal_strlit("proxy-authenticate");
    reveal_strlit("proxy-authorization");
    reveal_strlit("transfer-encoding");
    reveal_strlit("proxy-connection");
    reveal_strlit("keep-alive");
    assert(lower("connection"@) =~= "connection"@);
    assert(lower("upgrade"@) =~= "upgrade"@);
    assert(lower("te"@) =~= "te"@);
    assert(lower("trailer"@) =~= "trailer"@);
    assert(lower("content-type"@) =~= "content-type"@);
    assert(lower("proxy-authenticate"@) =~= "proxy-authenticate"@);
    assert(lower("proxy-authorization"@) =~= "proxy-authorization"@);
    assert(lower("transfer-encoding"@) =~= "transfer-encoding"@);
    assert(lower("proxy-connection"@) =~= "proxy-connection"@);
    assert(lower("keep-alive"@) =~= "keep-alive"@);
}

proof fn lemma_forwarding_names()
    ensures
        field_name("forwarded"@),
        field_name("x-real-ip"@),
        field_name("x-forwarded-for"@),
        field_name("x-forwarded-host"@),
        field_name("x-forwarded-proto"@),
{
    reveal_strlit("forwarded");
    reveal_strlit("x-real-ip");
    reveal_strlit("x-forwarded-for");
    reveal_strlit("x-forwarded-host");
    reveal_strlit("x-forwarded-proto");
    assert(lower("forwarded"@) =~= "forwarded"@);
    assert(lower("x-real-ip"@) =~= "x-real-ip"@);
    assert(lower("x-forwarded-for"@) =~= "x-forwarded-for"@);
    assert(lower("x-forwarded-host"@) =~= "x-forwarded-host"@);
    assert(lower("x-forwarded-proto"@) =~= "x-forwarded-proto"@);
}

/// Whether a media type is that of native gRPC.
pub fn is_grpc_media_type(value: &[char]) -> (r: bool)
    ensures
        r == grpc_media_type(value@),
{
    let parts = split(value, ';');
    assert(texts(parts@)[0] == parts@[0]@);
    let essence = trimmed(&parts[0]);
    chars_are_ignoring_case(&essence, "application/grpc") || has_prefix(
        &lowered(&essence),
        "application/grpc+",
    )
}

/// Whether a request is native gRPC.
pub fn is_native_grpc_request(headers: &HeaderMap<HeaderValue>) -> (r: bool)
    ensures
        r == native_grpc(header_contents(*headers)),
{
    proof {
        lemma_names();
    }
    match read_first(headers, "content-type") {
        Some(value) => is_grpc_media_type(&value),
        None => false,
    }
}

/// Whether a request asks for a protocol upgrade.
pub fn is_upgrade_request(headers: &HeaderMap<HeaderValue>) -> (r: bool)
    ensures
        r == upgrade_request(header_contents(*headers)),
{
    proof {
        lemma_names();
    }
    has_field(headers, "upgrade") && has_token(&read_tokens(headers, "connection"), "upgrade")
}

// ---------------------------------------------------------------------------
// Hop-by-hop fields
// ---------------------------------------------------------------------------

/// Whether a connection token names a field.
pub open spec fn connection_names(tokens: Seq<Seq<char>>, name: Seq<char>) -> bool {
    exists|i: int| 0 <= i < tokens.len() && field_token(#[trigger] tokens[i]) && lower(tokens[i]) == name
}

/// A token that is a header name in any case.
pub open spec fn field_token(t: Seq<char>) -> bool {
    token(t) && t.len() <= 65_535
}

/// Whether the only transfer coding that a message asks for is trailers.
pub open spec fn only_trailers(m: Map<Seq<char>, Seq<Seq<u8>>>) -> bool {
    let tokens = field_tokens(m, "te"@);
    forall|i: int| 0 <= i < tokens.len() ==> same_ignoring_case(#[trigger] tokens[i], "trailers"@)
}

/// Whether a field concerns one hop only and is dropped.
///
/// Fields that the connection field names go, but for the upgrade field where it
/// is kept, and so do the fixed ones. The fields about trailers stay only where
/// trailers are kept, the first of them only if it asks for nothing else.
pub open spec fn hop_by_hop(
    m: Map<Seq<char>, Seq<Seq<u8>>>,
    preserve_upgrade: bool,
    preserve_te_trailers: bool,
    name: Seq<char>,
) -> bool {
    ||| connection_names(field_tokens(m, "connection"@), name) && !(preserve_upgrade && name
        == "upgrade"@)
    ||| name == "proxy-authenticate"@
    ||| name == "proxy-authorization"@
    ||| name == "transfer-encoding"@
    ||| name == "proxy-connection"@
    ||| name == "keep-alive"@
    ||| name == "te"@ && !(preserve_te_trailers && only_trailers(m))
    ||| name == "trailer"@ && !preserve_te_trailers
    ||| (name == "connection"@ || name == "upgrade"@) && !preserve_upgrade
}

/// The fields that are left.
pub open spec fn cleaned(
    m: Map<Seq<char>, Seq<Seq<u8>>>,
    preserve_upgrade: bool,
    preserve_te_trailers: bool,
) -> Map<Seq<char>, Seq<Seq<u8>>> {
    Map::new(
        |name: Seq<char>|
            m.dom().contains(name) && !hop_by_hop(m, preserve_upgrade, preserve_te_trailers, name),
        |name: Seq<char>| m[name],
    )
}

fn asks_for_trailers_only(headers: &HeaderMap<HeaderValue>) -> (r: bool)
    ensures
        r == only_trailers(header_contents(*headers)),
{
    proof {
        lemma_names();
    }
    let tokens = read_tokens(headers, "te");
    let ghost all = texts(tokens@);
    let mut i: usize = 0;
    while i < tokens.len()
        invariant
            i <= tokens@.len(),
            all == texts(tokens@),
            all == field_tokens(header_contents(*headers), "te"@),
            forall|j: int| 0 <= j < i ==> same_ignoring_case(#[trigger] all[j], "trailers"@),
        decreases tokens@.len() - i,
    {
        assert(all[i as int] == tokens@[i as int]@);
        if !chars_are_ignoring_case(&tokens[i], "trailers") {
            assert(!same_ignoring_case(all[i as int], "trailers"@));
            return false;
        }
        i = i + 1;
    }
    true
}

/// Drops the fields that concern one hop only.
pub fn remove_hop_by_hop_headers(
    headers: &mut HeaderMap<HeaderValue>,
    preserve_upgrade: bool,
    preserve_te_trailers: bool,
)
    ensures
        header_contents(*final(headers)) == cleaned(
            header_contents(*old(headers)),
            preserve_upgrade,
            preserve_te_trailers,
        ),
{
    proof {
        lemma_names();
    }
    let ghost m = header_contents(*headers);
    let keep_te = preserve_te_trailers && asks_for_trailers_only(headers);
    let tokens = read_tokens(headers, "connection");
    let ghost all = texts(tokens@);
    let mut i: usize = 0;
    while i < tokens.len()
        invariant
            i <= tokens@.len(),
            all == texts(tokens@),
            forall|name: Seq<char>| #[trigger]
                header_contents(*headers).dom().contains(name) <==> m.dom().contains(name)
                    && !(connection_names(all.take(i as int), name) && !(preserve_upgrade && name
                    == "upgrade"@)),
            forall|name: Seq<char>| #[trigger]
                header_contents(*headers).dom().contains(name) ==> header_contents(*headers)[name]
                    == m[name],
        decreases tokens@.len() - i,
    {
        let ghost before = header_contents(*headers);
        let ghost t = all[i as int];
        assert(t == tokens@[i as int]@);
        proof {
            assert forall|name: Seq<char>| #[trigger]
                connection_names(all.take(i + 1), name) == (connection_names(
                    all.take(i as int),
                    name,
                ) || (field_token(t) && lower(t) == name)) by {
                if connection_names(all.take(i as int), name) {
                    let j = choose|j: int|
                        0 <= j < i && field_token(#[trigger] all.take(i as int)[j]) && lower(
                            all.take(i as int)[j],
                        ) == name;
                    assert(all.take(i + 1)[j] == all.take(i as int)[j]);
                }
                if field_token(t) && lower(t) == name {
                    assert(all.take(i + 1)[i as int] == t);
                }
                if connection_names(all.take(i + 1), name) {
                    let j = choose|j: int|
                        0 <= j < i + 1 && field_token(#[trigger] all.take(i + 1)[j]) && lower(
                            all.take(i + 1)[j],
                        ) == name;
                    if j < i {
                        assert(all.take(i as int)[j] == all.take(i + 1)[j]);
                    }
                }
            }
        }
        if tokens[i].len() <= 65_535 && is_token(&tokens[i]) {
            let name = lowered(&tokens[i]);
            if !(preserve_upgrade && chars_are(&name, "upgrade")) {
                let text = string_of(&name);
                proof {
                    lemma_lower_token(t);
                }
                remove_field(headers, text.as_str());
            }
        }
        i = i + 1;
    }
    assert(all.take(all.len() as int) =~= all);
    remove_field(headers, "proxy-authenticate");
    remove_field(headers, "proxy-authorization");
    remove_field(headers, "transfer-encoding");
    if !keep_te {
        remove_field(headers, "te");
    }
    if !preserve_te_trailers {
        remove_field(headers, "trailer");
    }
    remove_field(headers, "proxy-connection");
    remove_field(headers, "keep-alive");
    if !preserve_upgrade {
        remove_field(headers, "connection");
        remove_field(headers, "upgrade");
    }
    assert(header_contents(*headers) =~= cleaned(m, preserve_upgrade, preserve_te_trailers));
}

proof fn lemma_lower_token(t: Seq<char>)
    requires
        field_token(t),
    ensures
        field_name(lower(t)),
{
    crate::text::lemma_lower_idempotent(t);
    assert forall|i: int| 0 <= i < lower(t).len() implies crate::http_proxy::token_char(
        #[trigger] lower(t)[i],
    ) by {
        assert(crate::http_proxy::token_char(t[i]));
    }
}

/// Drops the fields of a response that concern one hop only.
pub fn clean_response_headers(headers: &mut HeaderMap<HeaderValue>, status: u16, http2: bool)
    ensures
        header_contents(*final(headers)) == cleaned(
            header_contents(*old(headers)),
            status == 101,
            http2,
        ),
{
    remove_hop_by_hop_headers(headers, status == 101, http2)
}

// ---------------------------------------------------------------------------
// Forwarding
// ---------------------------------------------------------------------------

/// The scheme of the public connection.
#[derive(Clone, Copy, Debug, PartialEq, Eq, Structural)]
pub enum PublicScheme {
    Http,
    Https,
}

impl PublicScheme {
    pub open spec fn name(self) -> Seq<char> {
        match self {
            PublicScheme::Http => "http"@,
            PublicScheme::Https => "https"@,
        }
    }

    pub fn as_str(self) -> (r: &'static str)
        ensures
            r@ == self.name(),
    {
        match self {
            PublicScheme::Http => "http",
            PublicScheme::Https => "https",
        }
    }
}

/// The address of the client: behind a proxy on the local host the one that the
/// proxy names, otherwise that of the peer.
pub open spec fn client_ip(m: Map<Seq<char>, Seq<Seq<u8>>>, peer: IpModel) -> IpModel {
    match first_text(m, "x-real-ip"@) {
        Some(text) => if loopback(peer) && ip_address(text) is Some {
            ip_address(text)->0
        } else {
            peer
        },
        None => peer,
    }
}

/// Whether a proxy on the local host says that the client used HTTPS.
pub open spec fn forwarded_https(m: Map<Seq<char>, Seq<Seq<u8>>>, peer: IpModel) -> bool {
    match first_text(m, "x-forwarded-proto"@) {
        Some(text) => loopback(peer) && same_ignoring_case(text, "https"@),
        None => false,
    }
}

pub fn trusted_client_ip(headers: &HeaderMap<HeaderValue>, peer: IpAddress) -> (r: IpAddress)
    ensures
        r@ == client_ip(header_contents(*headers), peer@),
{
    proof {
        lemma_forwarding_names();
    }
    if is_loopback(&peer) {
        if let Some(text) = read_first(headers, "x-real-ip") {
            if let Some(address) = parse_ip(&text) {
                return address;
            }
        }
    }
    peer
}

pub fn trusted_forwarded_proto(headers: &HeaderMap<HeaderValue>, peer: IpAddress) -> (r: &'static str)
    ensures
        r@ == if forwarded_https(header_contents(*headers), peer@) {
            "https"@
        } else {
            "http"@
        },
{
    proof {
        lemma_forwarding_names();
    }
    if is_loopback(&peer) {
        if let Some(text) = read_first(headers, "x-forwarded-proto") {
            if chars_are_ignoring_case(&text, "https") {
                return "https";
            }
        }
    }
    "http"
}

/// Whether the bytes can be a header value.
pub open spec fn value_bytes(s: Seq<u8>) -> bool {
    forall|i: int| 0 <= i < s.len() ==> value_byte(#[trigger] s[i])
}

fn are_value_bytes(s: &[u8]) -> (r: bool)
    ensures
        r == value_bytes(s@),
{
    let mut i: usize = 0;
    while i < s.len()
        invariant
            i <= s@.len(),
            forall|j: int| 0 <= j < i ==> value_byte(#[trigger] s@[j]),
        decreases s@.len() - i,
    {
        if !((s[i] >= 32 && s[i] != 127) || s[i] == 9) {
            assert(!value_byte(s@[i as int]));
            return false;
        }
        i = i + 1;
    }
    true
}

/// The map with a single value of a name, where the text can be a value.
pub open spec fn with_text(m: Map<Seq<char>, Seq<Seq<u8>>>, name: Seq<char>, text: Seq<char>) -> Map<
    Seq<char>,
    Seq<Seq<u8>>,
> {
    if value_bytes(encode_utf8(text)) {
        m.insert(name, seq![encode_utf8(text)])
    } else {
        m
    }
}

/// The fields of a request as the backend receives them: cleaned, and with the
/// forwarding fields set anew.
pub open spec fn forwarded_request(
    m: Map<Seq<char>, Seq<Seq<u8>>>,
    peer: IpModel,
    original_host: Seq<char>,
    scheme: PublicScheme,
    preserve_te_trailers: bool,
) -> Map<Seq<char>, Seq<Seq<u8>>> {
    let http = scheme == PublicScheme::Http;
    let ip = ip_text(
        if http {
            client_ip(m, peer)
        } else {
            peer
        },
    );
    let proto = if http && !forwarded_https(m, peer) {
        "http"@
    } else {
        "https"@
    };
    let bare = cleaned(m, upgrade_request(m), preserve_te_trailers).remove("forwarded"@).remove(
        "x-real-ip"@,
    ).remove("x-forwarded-for"@).remove("x-forwarded-host"@).remove("x-forwarded-proto"@);
    with_text(
        with_text(
            with_text(with_text(bare, "x-forwarded-for"@, ip), "x-real-ip"@, ip),
            "x-forwarded-host"@,
            original_host,
        ),
        "x-forwarded-proto"@,
        proto,
    )
}

fn set_text(headers: &mut HeaderMap<HeaderValue>, name: &str, text: &str)
    requires
        field_name(name@),
        header_contents(*old(headers)).dom().finite(),
        header_contents(*old(headers)).dom().len() <= 6_553,
    ensures
        header_contents(*final(headers)) == with_text(header_contents(*old(headers)), name@, text@),
{
    let bytes = text.as_bytes();
    if are_value_bytes(bytes) {
        insert_field(headers, name, bytes);
    }
}

/// The number of different names in a header map.
pub fn header_name_count(headers: &HeaderMap<HeaderValue>) -> (r: usize)
    ensures
        header_contents(*headers).dom().finite(),
        r == header_contents(*headers).dom().len(),
{
    names_len(headers)
}

proof fn lemma_cleaned_size(m: Map<Seq<char>, Seq<Seq<u8>>>, a: bool, b: bool)
    requires
        m.dom().finite(),
    ensures
        cleaned(m, a, b).dom().finite(),
        cleaned(m, a, b).dom().len() <= m.dom().len(),
{
    assert(cleaned(m, a, b).dom().subset_of(m.dom()));
    vstd::set_lib::lemma_len_subset(cleaned(m, a, b).dom(), m.dom());
}

/// Prepares the fields of a request for the backend.
pub fn prepare_forward_headers(
    headers: &mut HeaderMap<HeaderValue>,
    peer: IpAddress,
    original_host: &str,
    scheme: PublicScheme,
    preserve_te_trailers: bool,
)
    requires
        header_contents(*old(headers)).dom().finite(),
        header_contents(*old(headers)).dom().len() <= 6_550,
    ensures
        header_contents(*final(headers)) == forwarded_request(
            header_contents(*old(headers)),
            peer@,
            original_host@,
            scheme,
            preserve_te_trailers,
        ),
{
    proof {
        lemma_forwarding_names();
        lemma_cleaned_size(
            header_contents(*headers),
            upgrade_request(header_contents(*headers)),
            preserve_te_trailers,
        );
    }
    let ip = match scheme {
        PublicScheme::Http => trusted_client_ip(headers, peer),
        PublicScheme::Https => peer,
    };
    let proto = match scheme {
        PublicScheme::Http => trusted_forwarded_proto(headers, peer),
        PublicScheme::Https => scheme.as_str(),
    };
    let preserve_upgrade = is_upgrade_request(headers);
    remove_hop_by_hop_headers(headers, preserve_upgrade, preserve_te_trailers);
    remove_field(headers, "forwarded");
    remove_field(headers, "x-real-ip");
    remove_field(headers, "x-forwarded-for");
    remove_field(headers, "x-forwarded-host");
    remove_field(headers, "x-forwarded-proto");
    let text = ip_to_text(&ip);
    set_text(headers, "x-forwarded-for", text.as_str());
    set_text(headers, "x-real-ip", text.as_str());
    set_text(headers, "x-forwarded-host", original_host);
    set_text(headers, "x-forwarded-proto", proto);
}

// ---------------------------------------------------------------------------
// Laws
// ---------------------------------------------------------------------------

/// A message that is cleaned carries neither proxy credentials nor fields that
/// frame it on the old connection, and what is left was there before.
pub proof fn law_cleaned_messages_keep_end_to_end_fields(
    m: Map<Seq<char>, Seq<Seq<u8>>>,
    preserve_upgrade: bool,
    preserve_te_trailers: bool,
    name: Seq<char>,
)
    ensures
        ({
            let after = cleaned(m, preserve_upgrade, preserve_te_trailers);
            &&& !after.dom().contains("proxy-authorization"@)
            &&& !after.dom().contains("transfer-encoding"@)
            &&& !after.dom().contains("keep-alive"@)
            &&& after.dom().contains("te"@) ==> preserve_te_trailers && only_trailers(m)
            &&& after.dom().contains(name) ==> m.dom().contains(name) && after[name] == m[name]
        }),
{
}

/// The names of the fields that say where a request came from.
pub open spec fn forwarding_name(name: Seq<char>) -> bool {
    name == "forwarded"@ || name == "x-real-ip"@ || name == "x-forwarded-for"@ || name
        == "x-forwarded-host"@ || name == "x-forwarded-proto"@
}

/// A peer that is no proxy on the local host cannot choose what the backend is
/// told about it: whatever fields it sends, the forwarding fields are the same.
pub proof fn law_remote_peers_cannot_forge_their_origin(
    m: Map<Seq<char>, Seq<Seq<u8>>>,
    other: Map<Seq<char>, Seq<Seq<u8>>>,
    peer: IpModel,
    original_host: Seq<char>,
    scheme: PublicScheme,
    preserve_te_trailers: bool,
    name: Seq<char>,
)
    requires
        !loopback(peer) || scheme == PublicScheme::Https,
        forwarding_name(name),
    ensures
        ({
            let a = forwarded_request(m, peer, original_host, scheme, preserve_te_trailers);
            let b = forwarded_request(other, peer, original_host, scheme, preserve_te_trailers);
            &&& a.dom().contains(name) == b.dom().contains(name)
            &&& a.dom().contains(name) ==> a[name] == b[name]
            &&& !a.dom().contains("forwarded"@)
        }),
{
    reveal_strlit("forwarded");
    reveal_strlit("x-real-ip");
    reveal_strlit("x-forwarded-for");
    reveal_strlit("x-forwarded-host");
    reveal_strlit("x-forwarded-proto");
    assert("forwarded"@.len() == 9 && "x-real-ip"@.len() == 9 && "x-forwarded-for"@.len() == 15
        && "x-forwarded-host"@.len() == 16 && "x-forwarded-proto"@.len() == 17);
    assert("forwarded"@[0] == 'f' && "x-real-ip"@[0] == 'x');
}

/// A field is dropped exactly if it concerns one hop: a connection field names it, it
/// is one of the fixed ones, or it is about an upgrade or about trailers that are not
/// kept. Every other field stays with its values.
pub proof fn law_exactly_hop_by_hop_fields_are_dropped(
    m: Map<Seq<char>, Seq<Seq<u8>>>,
    preserve_upgrade: bool,
    preserve_te_trailers: bool,
    name: Seq<char>,
)
    requires
        m.dom().contains(name),
    ensures
        ({
            let after = cleaned(m, preserve_upgrade, preserve_te_trailers);
            let tokens = field_tokens(m, "connection"@);
            let named = exists|i: int|
                0 <= i < tokens.len() && token(#[trigger] tokens[i]) && tokens[i].len() <= 65535
                    && lower(tokens[i]) == name;
            let coding = field_tokens(m, "te"@);
            &&& after.dom().contains(name) ==> after[name] == m[name]
            &&& !after.dom().contains(name) <==> {
                ||| named && !(preserve_upgrade && name == "upgrade"@)
                ||| name == "proxy-authenticate"@ || name == "proxy-authorization"@ || name
                    == "proxy-connection"@ || name == "keep-alive"@ || name
                    == "transfer-encoding"@
                ||| !preserve_upgrade && (name == "connection"@ || name == "upgrade"@)
                ||| !preserve_te_trailers && (name == "te"@ || name == "trailer"@)
                ||| name == "te"@ && exists|i: int|
                    0 <= i < coding.len() && lower(#[trigger] coding[i]) != "trailers"@
            }
        }),
{
    reveal_strlit("trailers");
    assert(lower("trailers"@) =~= "trailers"@);
    reveal_strlit("te");
    reveal_strlit("trailer");
    reveal_strlit("connection");
    reveal_strlit("upgrade");
    let tokens = field_tokens(m, "connection"@);
    let coding = field_tokens(m, "te"@);
    if connection_names(tokens, name) {
        let i = choose|i: int|
            0 <= i < tokens.len() && field_token(#[trigger] tokens[i]) && lower(tokens[i]) == name;
        assert(token(tokens[i]));
    }
    if exists|i: int|
        0 <= i < tokens.len() && token(#[trigger] tokens[i]) && tokens[i].len() <= 65535 && lower(
            tokens[i],
        ) == name {
        let i = choose|i: int|
            0 <= i < tokens.len() && token(#[trigger] tokens[i]) && tokens[i].len() <= 65535
                && lower(tokens[i]) == name;
        assert(field_token(tokens[i]));
    }
    if !only_trailers(m) {
        let i = choose|i: int|
            0 <= i < coding.len() && !same_ignoring_case(#[trigger] coding[i], "trailers"@);
        assert(lower(coding[i]) != "trailers"@);
    } else {
        assert forall|i: int| 0 <= i < coding.len() implies lower(#[trigger] coding[i])
            == "trailers"@ by {
            assert(same_ignoring_case(coding[i], "trailers"@));
        }
    }
}

/// A value is read as text exactly if it holds visible characters of ASCII, spaces and
/// tabs only, and the text is those characters.
pub proof fn law_values_are_read_as_visible_text(value: Seq<u8>)
    ensures
        visible_text(value) is Some <==> forall|i: int|
            0 <= i < value.len() ==> 32 <= (#[trigger] value[i]) <= 126 || value[i] == 9,
        visible_text(value) is Some ==> visible_text(value)->0.len() == value.len() && forall|
            i: int,
        |
            0 <= i < value.len() ==> visible_text(value)->0[i] == (#[trigger] value[i]) as char,
{
    if visible_text(value) is None {
        let i = choose|i: int| 0 <= i < value.len() && !visible_byte(#[trigger] value[i]);
        assert(!(32 <= value[i] <= 126 || value[i] == 9));
    } else {
        assert forall|i: int| 0 <= i < value.len() implies 32 <= (#[trigger] value[i]) <= 126
            || value[i] == 9 by {
            assert(visible_byte(value[i]));
        }
    }
}

/// A media type is that of native gRPC exactly if its name, in any case and without
/// parameters, is `application/grpc`, or that with a `+` and a format.
pub proof fn law_grpc_media_types(essence: Seq<char>, parameters: Seq<char>)
    requires
        !essence.contains(';'),
    ensures
        grpc_media_type(essence) <==> (lower(trim(essence)) == "application/grpc"@ || lower(
            trim(essence),
        ).len() >= 17 && lower(trim(essence)).take(17) == "application/grpc+"@),
        grpc_media_type(essence + seq![';'] + parameters) <==> grpc_media_type(essence),
{
    crate::text::lemma_pieces_single(essence, ';');
    crate::http_proxy::lemma_pieces_first(essence, parameters, ';');
    reveal_strlit("application/grpc");
    reveal_strlit("application/grpc+");
    assert(lower("application/grpc"@) =~= "application/grpc"@);
}

/// A request asks for an upgrade exactly if it has the field, and a connection field
/// names it.
pub proof fn law_upgrades_are_asked_for_twice(m: Map<Seq<char>, Seq<Seq<u8>>>)
    ensures
        upgrade_request(m) <==> m.dom().contains("upgrade"@) && exists|i: int|
            0 <= i < field_tokens(m, "connection"@).len() && lower(
                #[trigger] field_tokens(m, "connection"@)[i],
            ) == "upgrade"@,
{
    reveal_strlit("upgrade");
    assert(lower("upgrade"@) =~= "upgrade"@);
    let tokens = field_tokens(m, "connection"@);
    if names_token(tokens, "upgrade"@) {
        let i = choose|i: int|
            0 <= i < tokens.len() && same_ignoring_case(#[trigger] tokens[i], "upgrade"@);
        assert(lower(tokens[i]) == "upgrade"@);
    }
    if exists|i: int| 0 <= i < tokens.len() && lower(#[trigger] tokens[i]) == "upgrade"@ {
        let i = choose|i: int| 0 <= i < tokens.len() && lower(#[trigger] tokens[i]) == "upgrade"@;
        assert(same_ignoring_case(tokens[i], "upgrade"@));
    }
}

/// What a peer says of its client is believed of a proxy on the local host only, and
/// only where it names an address.
pub proof fn law_only_local_proxies_name_their_client(
    m: Map<Seq<char>, Seq<Seq<u8>>>,
    peer: IpModel,
)
    ensures
        !loopback(peer) ==> client_ip(m, peer) == peer && !forwarded_https(m, peer),
        loopback(peer) && first_text(m, "x-real-ip"@) is Some && ip_address(
            first_text(m, "x-real-ip"@)->0,
        ) is Some ==> Some(client_ip(m, peer)) == ip_address(first_text(m, "x-real-ip"@)->0),
        (first_text(m, "x-real-ip"@) is None || ip_address(first_text(m, "x-real-ip"@)->0) is None)
            ==> client_ip(m, peer) == peer,
        loopback(peer) ==> (forwarded_https(m, peer) <==> first_text(m, "x-forwarded-proto"@)
            is Some && lower(first_text(m, "x-forwarded-proto"@)->0) == "https"@),
{
    reveal_strlit("https");
    assert(lower("https"@) =~= "https"@);
}

/// The backend is told the address of the client, the host that the client named and
/// the scheme that it used, each once, and nothing that the client said of them itself.
/// All other fields are those of the cleaned request.
pub proof fn law_backends_are_told_where_requests_come_from(
    m: Map<Seq<char>, Seq<Seq<u8>>>,
    peer: IpModel,
    original_host: Seq<char>,
    scheme: PublicScheme,
    preserve_te_trailers: bool,
    name: Seq<char>,
)
    ensures
        ({
            let r = forwarded_request(m, peer, original_host, scheme, preserve_te_trailers);
            let ip = encode_utf8(
                ip_text(
                    if scheme == PublicScheme::Http {
                        client_ip(m, peer)
                    } else {
                        peer
                    },
                ),
            );
            let host = encode_utf8(original_host);
            let https = scheme == PublicScheme::Https || forwarded_https(m, peer);
            let kept = cleaned(m, upgrade_request(m), preserve_te_trailers);
            &&& value_bytes(ip) ==> r.dom().contains("x-forwarded-for"@) && r["x-forwarded-for"@]
                == seq![ip] && r.dom().contains("x-real-ip"@) && r["x-real-ip"@] == seq![ip]
            &&& value_bytes(host) ==> r.dom().contains("x-forwarded-host"@)
                && r["x-forwarded-host"@] == seq![host]
            &&& !value_bytes(host) ==> !r.dom().contains("x-forwarded-host"@)
            &&& https ==> r.dom().contains("x-forwarded-proto"@) && r["x-forwarded-proto"@] == seq![
                encode_utf8("https"@),
            ]
            &&& !https ==> r.dom().contains("x-forwarded-proto"@) && r["x-forwarded-proto"@]
                == seq![encode_utf8("http"@)]
            &&& !r.dom().contains("forwarded"@)
            &&& !forwarding_name(name) ==> (r.dom().contains(name) <==> kept.dom().contains(name))
            &&& !forwarding_name(name) && r.dom().contains(name) ==> r[name] == kept[name]
        }),
{
    reveal_strlit("forwarded");
    reveal_strlit("x-real-ip");
    reveal_strlit("x-forwarded-for");
    reveal_strlit("x-forwarded-host");
    reveal_strlit("x-forwarded-proto");
    assert("forwarded"@.len() == 9 && "x-real-ip"@.len() == 9 && "x-forwarded-for"@.len() == 15
        && "x-forwarded-host"@.len() == 16 && "x-forwarded-proto"@.len() == 17);
    assert("forwarded"@[0] == 'f' && "x-real-ip"@[0] == 'x');
    lemma_scheme_bytes();
}

proof fn lemma_scheme_bytes()
    ensures
        value_bytes(encode_utf8("http"@)),
        value_bytes(encode_utf8("https"@)),
{
    reveal_strlit("http");
    reveal_strlit("https");
    is_ascii_chars_encode_utf8("http"@);
    is_ascii_chars_encode_utf8("https"@);
    let a = encode_utf8("http"@);
    let b = encode_utf8("https"@);
    assert forall|i: int| 0 <= i < a.len() implies value_byte(#[trigger] a[i]) by {
        assert(a[i] == "http"@[i] as u8);
    }
    assert forall|i: int| 0 <= i < b.len() implies value_byte(#[trigger] b[i]) by {
        assert(b[i] == "https"@[i] as u8);
    }
}

/// A response keeps the fields of an upgrade exactly if it is one, and its trailers
/// exactly over HTTP/2.
pub proof fn law_responses_are_cleaned(
    headers: &mut HeaderMap<HeaderValue>,
    status: u16,
    http2: bool,
)
    requires
        call_ensures(clean_response_headers, (headers, status, http2), ()),
    ensures
        status == 101 ==> header_contents(*final(headers)) == cleaned(
            header_contents(*old(headers)),
            true,
            http2,
        ),
        status != 101 ==> header_contents(*final(headers)) == cleaned(
            header_contents(*old(headers)),
            false,
            http2,
        ),
{
}

/// The text of a field is that of its first value, where it can be read.
pub proof fn law_the_first_value_is_read(m: Map<Seq<char>, Seq<Seq<u8>>>, name: Seq<char>)
    ensures
        !m.dom().contains(name) ==> first_text(m, name) is None,
        m.dom().contains(name) && m[name].len() > 0 ==> first_text(m, name) == visible_text(
            m[name][0],
        ),
        native_grpc(m) <==> first_text(m, "content-type"@) is Some && grpc_media_type(
            first_text(m, "content-type"@)->0,
        ),
{
}

/// The tokens of a field come from all its values: a further value adds its
/// comma-separated parts, or nothing if it cannot be read.
pub proof fn law_tokens_come_from_all_values(
    m: Map<Seq<char>, Seq<Seq<u8>>>,
    name: Seq<char>,
    values: Seq<Seq<u8>>,
    value: Seq<u8>,
)
    ensures
        ({
            let before = field_tokens(m.insert(name, values), name);
            let after = field_tokens(m.insert(name, values.push(value)), name);
            let parts = crate::text::pieces(visible_text(value)->0, ',');
            &&& visible_text(value) is None ==> after == before
            &&& visible_text(value) is Some ==> after.len() == before.len() + parts.len()
            &&& visible_text(value) is Some ==> forall|i: int|
                0 <= i < parts.len() ==> (#[trigger] after[before.len() + i]) == trim(parts[i])
            &&& forall|i: int| 0 <= i < before.len() ==> (#[trigger] after[i]) == before[i]
            &&& !m.dom().contains(name) ==> field_tokens(m, name).len() == 0
        }),
{
    assert(values.push(value).drop_last() =~= values);
    if visible_text(value) is Some {
        let rest = visible_texts(values);
        assert(rest.push(visible_text(value)->0).drop_last() =~= rest);
    }
}

} // verus!
