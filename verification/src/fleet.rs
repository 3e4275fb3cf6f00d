//! The directory of fleet peers and the transfer of tunnel policies between
//! them.

use crate::ids::{first_id, lemma_first_id_unique};
use crate::text::{
    ascii_digit, ascii_upper, chars_of, has_prefix, is_ascii_digit, is_ascii_upper, lex_less,
    opt_view, optional_is, starts_with, string_of, text_before, trim, trim_end_char, trimmed,
    trimmed_end_char,
};
use crate::uuids::{new_uuid, random_layout};
use vstd::prelude::*;
use vstd::string::*;

verus! {

/// A request to add or replace a fleet peer.
#[derive(Clone, Debug, PartialEq, Eq)]
pub struct UpsertFleetPeer {
    pub name: String,
    pub url: String,
    pub region: String,
    pub weight: u16,
    pub priority: u16,
    pub token_env: String,
    pub enabled: bool,
}

/// What a [`UpsertFleetPeer`] says.
pub struct UpsertFleetPeerModel {
    pub name: Seq<char>,
    pub url: Seq<char>,
    pub region: Seq<char>,
    pub weight: u16,
    pub priority: u16,
    pub token_env: Seq<char>,
    pub enabled: bool,
}

impl View for UpsertFleetPeer {
    type V = UpsertFleetPeerModel;

    open spec fn view(&self) -> UpsertFleetPeerModel {
        UpsertFleetPeerModel {
            name: self.name@,
            url: self.url@,
            region: self.region@,
            weight: self.weight,
            priority: self.priority,
            token_env: self.token_env@,
            enabled: self.enabled,
        }
    }
}

impl UpsertFleetPeer {
    /// A copy of the value.
    pub fn duplicate(&self) -> (r: Self)
        ensures
            r@ == self@,
    {
        let r = UpsertFleetPeer {
            name: self.name.clone(),
            url: self.url.clone(),
            region: self.region.clone(),
            weight: self.weight,
            priority: self.priority,
            token_env: self.token_env.clone(),
            enabled: self.enabled,
        };
        r
    }
}

/// A server of the fleet.
#[derive(Clone, Debug, PartialEq, Eq)]
pub struct FleetPeer {
    pub id: u128,
    pub name: String,
    pub url: String,
    pub region: String,
    pub weight: u16,
    pub priority: u16,
    pub token_env: String,
    /// Whether the variable that holds the token is set in this process.
    pub token_configured: bool,
    pub enabled: bool,
    pub created_unix_seconds: u64,
    pub updated_unix_seconds: u64,
}

/// What a [`FleetPeer`] says.
pub struct FleetPeerModel {
    pub id: u128,
    pub name: Seq<char>,
    pub url: Seq<char>,
    pub region: Seq<char>,
    pub weight: u16,
    pub priority: u16,
    pub token_env: Seq<char>,
    pub token_configured: bool,
    pub enabled: bool,
    pub created_unix_seconds: u64,
    pub updated_unix_seconds: u64,
}

impl View for FleetPeer {
    type V = FleetPeerModel;

    open spec fn view(&self) -> FleetPeerModel {
        FleetPeerModel {
            id: self.id,
            name: self.name@,
            url: self.url@,
            region: self.region@,
            weight: self.weight,
            priority: self.priority,
            token_env: self.token_env@,
            token_configured: self.token_configured,
            enabled: self.enabled,
            created_unix_seconds: self.created_unix_seconds,
            updated_unix_seconds: self.updated_unix_seconds,
        }
    }
}

impl FleetPeer {
    /// A copy of the value.
    pub fn duplicate(&self) -> (r: Self)
        ensures
            r@ == self@,
    {
        let r = FleetPeer {
            id: self.id,
            name: self.name.clone(),
            url: self.url.clone(),
            region: self.region.clone(),
            weight: self.weight,
            priority: self.priority,
            token_env: self.token_env.clone(),
            token_configured: self.token_configured,
            enabled: self.enabled,
            created_unix_seconds: self.created_unix_seconds,
            updated_unix_seconds: self.updated_unix_seconds,
        };
        r
    }

    /// Copies of a list of values.
    pub fn duplicate_all(v: &Vec<Self>) -> (r: Vec<Self>)
        ensures
            r@.map_values(|x: Self| x@) == v@.map_values(|x: Self| x@),
    {
        let mut out: Vec<Self> = Vec::new();
        let mut i: usize = 0;
        while i < v.len()
            invariant
                i <= v@.len(),
                out@.len() == i,
                forall|j: int| 0 <= j < i ==> (#[trigger] out@[j])@ == v@[j]@,
            decreases v@.len() - i,
        {
            out.push(v[i].duplicate());
            i = i + 1;
        }
        assert(out@.map_values(|x: Self| x@) =~= v@.map_values(|x: Self| x@));
        out
    }
}

/// The weight of a peer that names none.
pub fn default_weight() -> (r: u16)
    ensures
        r == 100,
{
    100
}

/// The priority of a peer that names none.
pub fn default_priority() -> (r: u16)
    ensures
        r == 100,
{
    100
}

/// Peers are enabled unless a request says otherwise.
pub fn default_true() -> (r: bool)
    ensures
        r,
{
    true
}

/// Why a peer was refused.
#[derive(Clone, Debug, PartialEq, Eq)]
pub enum FleetPeerError {
    InvalidName,
    InvalidRegion,
    InvalidWeight,
    InvalidPriority,
    InvalidTokenEnv,
    /// The URL does not parse; the parser's own words.
    UrlSyntax(String),
    InvalidUrl,
}

/// What a [`FleetPeerError`] says.
pub enum FleetPeerErrorModel {
    InvalidName,
    InvalidRegion,
    InvalidWeight,
    InvalidPriority,
    InvalidTokenEnv,
    UrlSyntax(Seq<char>),
    InvalidUrl,
}

impl View for FleetPeerError {
    type V = FleetPeerErrorModel;

    open spec fn view(&self) -> FleetPeerErrorModel {
        match self {
            FleetPeerError::InvalidName => FleetPeerErrorModel::InvalidName,
            FleetPeerError::InvalidRegion => FleetPeerErrorModel::InvalidRegion,
            FleetPeerError::InvalidWeight => FleetPeerErrorModel::InvalidWeight,
            FleetPeerError::InvalidPriority => FleetPeerErrorModel::InvalidPriority,
            FleetPeerError::InvalidTokenEnv => FleetPeerErrorModel::InvalidTokenEnv,
            FleetPeerError::UrlSyntax(text) => FleetPeerErrorModel::UrlSyntax(text@),
            FleetPeerError::InvalidUrl => FleetPeerErrorModel::InvalidUrl,
        }
    }
}

impl FleetPeerError {
    /// The text shown to operators.
    pub fn message(&self) -> (r: String)
        ensures
            r@ == match self@ {
                FleetPeerErrorModel::InvalidName => "fleet peer name is invalid"@,
                FleetPeerErrorModel::InvalidRegion => "fleet peer region is invalid"@,
                FleetPeerErrorModel::InvalidWeight => "fleet peer weight is invalid"@,
                FleetPeerErrorModel::InvalidPriority => "fleet peer priority is invalid"@,
                FleetPeerErrorModel::InvalidTokenEnv => {
                    "fleet peer token environment variable is invalid"@
                },
                FleetPeerErrorModel::UrlSyntax(text) => text,
                FleetPeerErrorModel::InvalidUrl => "fleet peer URL is invalid"@,
            },
    {
        match self {
            FleetPeerError::InvalidName => "fleet peer name is invalid".to_owned(),
            FleetPeerError::InvalidRegion => "fleet peer region is invalid".to_owned(),
            FleetPeerError::InvalidWeight => "fleet peer weight is invalid".to_owned(),
            FleetPeerError::InvalidPriority => "fleet peer priority is invalid".to_owned(),
            FleetPeerError::InvalidTokenEnv => {
                "fleet peer token environment variable is invalid".to_owned()
            },
            FleetPeerError::UrlSyntax(text) => text.clone(),
            FleetPeerError::InvalidUrl => "fleet peer URL is invalid".to_owned(),
        }
    }
}

// ---------------------------------------------------------------------------
// Validation of a peer
// ---------------------------------------------------------------------------

/// What parsing a URL gives: its scheme and whether it names an authority, or
/// the parser's error text.
#[derive(Clone, Debug, PartialEq, Eq)]
pub enum ParsedUri {
    Parsed { scheme: Option<String>, has_authority: bool },
    Malformed(String),
}

pub enum ParsedUriModel {
    Parsed { scheme: Option<Seq<char>>, has_authority: bool },
    Malformed(Seq<char>),
}

impl View for ParsedUri {
    type V = ParsedUriModel;

    open spec fn view(&self) -> ParsedUriModel {
        match self {
            ParsedUri::Parsed { scheme, has_authority } => ParsedUriModel::Parsed {
                scheme: opt_view(*scheme),
                has_authority: *has_authority,
            },
            ParsedUri::Malformed(text) => ParsedUriModel::Malformed(text@),
        }
    }
}

/// How `axum::http::Uri` reads a text.
pub uninterp spec fn uri_of(text: Seq<char>) -> ParsedUriModel;

/// Calls `str::parse::<axum::http::Uri>` and, on what it gives, `scheme_str`
/// and `authority`. The reading depends on the text alone; what it is, is left
/// to that crate.
#[verifier::external_body]
fn parse_uri(text: &str) -> (r: ParsedUri)
    ensures
        r@ == uri_of(text@),
{
    match text.parse::<axum::http::Uri>() {
        Ok(uri) => ParsedUri::Parsed {
            scheme: uri.scheme_str().map(str::to_owned),
            has_authority: uri.authority().is_some(),
        },
        Err(error) => ParsedUri::Malformed(error.to_string()),
    }
}

pub open spec fn env_char(c: char) -> bool {
    ascii_upper(c) || ascii_digit(c) || c == '_'
}

/// A name of an environment variable of this product.
pub open spec fn product_env(s: Seq<char>) -> bool {
    starts_with(s, "LINKLAKE_"@) && forall|i: int| 0 <= i < s.len() ==> env_char(#[trigger] s[i])
}

/// The URL under which a peer is stored: trimmed and without trailing slashes.
pub open spec fn stored_url(url: Seq<char>) -> Seq<char> {
    trim_end_char(trim(url), '/')
}

/// A valid request in its stored form, or the first thing wrong with it. `uri`
/// is how the stored URL was read.
pub open spec fn checked_peer(
    request: UpsertFleetPeerModel,
    uri: ParsedUriModel,
) -> Result<UpsertFleetPeerModel, FleetPeerErrorModel> {
    let name = trim(request.name);
    let region = trim(request.region);
    let token_env = trim(request.token_env);
    if !(1 <= name.len() <= 80) {
        Err(FleetPeerErrorModel::InvalidName)
    } else if !(1 <= region.len() <= 80) {
        Err(FleetPeerErrorModel::InvalidRegion)
    } else if !(1 <= request.weight <= 10_000) {
        Err(FleetPeerErrorModel::InvalidWeight)
    } else if request.priority > 10_000 {
        Err(FleetPeerErrorModel::InvalidPriority)
    } else if !product_env(token_env) {
        Err(FleetPeerErrorModel::InvalidTokenEnv)
    } else {
        match uri {
            ParsedUriModel::Malformed(text) => Err(FleetPeerErrorModel::UrlSyntax(text)),
            ParsedUriModel::Parsed { scheme, has_authority } => if (scheme == Some("http"@)
                || scheme == Some("https"@)) && has_authority {
                Ok(
                    UpsertFleetPeerModel {
                        name,
                        region,
                        token_env,
                        url: stored_url(request.url),
                        ..request
                    },
                )
            } else {
                Err(FleetPeerErrorModel::InvalidUrl)
            },
        }
    }
}

/// Whether every character may stand in the name of an environment variable.
pub fn are_env_chars(s: &[char]) -> (r: bool)
    ensures
        r == forall|i: int| 0 <= i < s@.len() ==> env_char(#[trigger] s@[i]),
{
    let mut i: usize = 0;
    while i < s.len()
        invariant
            i <= s@.len(),
            forall|j: int| 0 <= j < i ==> env_char(#[trigger] s@[j]),
        decreases s@.len() - i,
    {
        if !(is_ascii_upper(s[i]) || is_ascii_digit(s[i]) || s[i] == '_') {
            assert(!env_char(s@[i as int]));
            return false;
        }
        i = i + 1;
    }
    true
}

/// Validates a request, given how its stored URL was read.
pub fn validate_parsed(request: UpsertFleetPeer, uri: ParsedUri) -> (r: Result<
    UpsertFleetPeer,
    FleetPeerError,
>)
    ensures
        match checked_peer(request@, uri@) {
            Ok(peer) => r is Ok && r->Ok_0@ == peer,
            Err(error) => r is Err && r->Err_0@ == error,
        },
{
    let name = trimmed(&chars_of(request.name.as_str()));
    let region = trimmed(&chars_of(request.region.as_str()));
    let token_env = trimmed(&chars_of(request.token_env.as_str()));
    let url = trimmed_end_char(&trimmed(&chars_of(request.url.as_str())), '/');
    if name.len() == 0 || name.len() > 80 {
        return Err(FleetPeerError::InvalidName);
    }
    if region.len() == 0 || region.len() > 80 {
        return Err(FleetPeerError::InvalidRegion);
    }
    if request.weight == 0 || request.weight > 10_000 {
        return Err(FleetPeerError::InvalidWeight);
    }
    if request.priority > 10_000 {
        return Err(FleetPeerError::InvalidPriority);
    }
    if !(has_prefix(&token_env, "LINKLAKE_") && are_env_chars(&token_env)) {
        return Err(FleetPeerError::InvalidTokenEnv);
    }
    match uri {
        ParsedUri::Malformed(text) => Err(FleetPeerError::UrlSyntax(text)),
        ParsedUri::Parsed { scheme, has_authority } => {
            if (optional_is(&scheme, "http") || optional_is(&scheme, "https")) && has_authority {
                Ok(
                    UpsertFleetPeer {
                        name: string_of(&name),
                        url: string_of(&url),
                        region: string_of(&region),
                        weight: request.weight,
                        priority: request.priority,
                        token_env: string_of(&token_env),
                        enabled: request.enabled,
                    },
                )
            } else {
                Err(FleetPeerError::InvalidUrl)
            }
        },
    }
}

/// Validates a request.
pub fn validate(request: UpsertFleetPeer) -> (r: Result<UpsertFleetPeer, FleetPeerError>)
    ensures
        match checked_peer(request@, uri_of(stored_url(request@.url))) {
            Ok(peer) => r is Ok && r->Ok_0@ == peer,
            Err(error) => r is Err && r->Err_0@ == error,
        },
{
    let url = string_of(&trimmed_end_char(&trimmed(&chars_of(request.url.as_str())), '/'));
    let uri = parse_uri(url.as_str());
    validate_parsed(request, uri)
}

// ---------------------------------------------------------------------------
// The directory
// ---------------------------------------------------------------------------

/// The views of a list of peers.
pub open spec fn peer_models(v: Seq<FleetPeer>) -> Seq<FleetPeerModel> {
    v.map_values(|x: FleetPeer| x@)
}

/// The identifiers of a list of peers.
pub open spec fn peer_ids(s: Seq<FleetPeerModel>) -> Seq<u128> {
    s.map_values(|x: FleetPeerModel| x.id)
}

/// The first peer with the identifier.
pub open spec fn find_peer(s: Seq<FleetPeerModel>, id: u128) -> Option<FleetPeerModel> {
    let i = first_id(peer_ids(s), id);
    if i < s.len() {
        Some(s[i])
    } else {
        None
    }
}

/// Peers are listed by priority, then by name.
pub open spec fn listed_before(a: FleetPeerModel, b: FleetPeerModel) -> bool {
    a.priority < b.priority || a.priority == b.priority && lex_less(a.name, b.name)
}

/// Where a peer goes: before the first peer that is listed after it.
pub open spec fn listing_position(s: Seq<FleetPeerModel>, peer: FleetPeerModel) -> int
    decreases s.len(),
{
    if s.len() == 0 || listed_before(peer, s[0]) {
        0
    } else {
        1 + listing_position(s.drop_first(), peer)
    }
}

/// Two peers cannot share an identifier, a name or a URL.
pub open spec fn same_slot(a: FleetPeerModel, b: FleetPeerModel) -> bool {
    a.id == b.id || a.name == b.name || a.url == b.url
}

/// The peers that can stand beside `peer`.
pub open spec fn beside(s: Seq<FleetPeerModel>, peer: FleetPeerModel) -> Seq<FleetPeerModel>
    decreases s.len(),
{
    if s.len() == 0 {
        s
    } else if same_slot(s.last(), peer) {
        beside(s.drop_last(), peer)
    } else {
        beside(s.drop_last(), peer).push(s.last())
    }
}

/// The directory after storing a peer: it takes the place of every peer that
/// shares its identifier, name or URL.
pub open spec fn stored(s: Seq<FleetPeerModel>, peer: FleetPeerModel) -> Seq<FleetPeerModel> {
    let rest = beside(s, peer);
    rest.insert(listing_position(rest, peer), peer)
}

/// The directory without the peers of an identifier.
pub open spec fn without_peer(s: Seq<FleetPeerModel>, id: u128) -> Seq<FleetPeerModel>
    decreases s.len(),
{
    if s.len() == 0 {
        s
    } else if s.last().id == id {
        without_peer(s.drop_last(), id)
    } else {
        without_peer(s.drop_last(), id).push(s.last())
    }
}

/// Whether the list is in listing order.
pub open spec fn in_listing_order(s: Seq<FleetPeerModel>) -> bool {
    forall|i: int, j: int| 0 <= i < j < s.len() ==> listed_before(#[trigger] s[i], #[trigger] s[j])
}

/// Whether no two peers share an identifier, a name or a URL.
pub open spec fn distinct_slots(s: Seq<FleetPeerModel>) -> bool {
    forall|i: int, j: int| 0 <= i < j < s.len() ==> !same_slot(#[trigger] s[i], #[trigger] s[j])
}

/// A stored peer from a valid request.
pub open spec fn peer_from(
    id: u128,
    request: UpsertFleetPeerModel,
    token_configured: bool,
    created: u64,
    updated: u64,
) -> FleetPeerModel {
    FleetPeerModel {
        id,
        name: request.name,
        url: request.url,
        region: request.region,
        weight: request.weight,
        priority: request.priority,
        token_env: request.token_env,
        token_configured,
        enabled: request.enabled,
        created_unix_seconds: created,
        updated_unix_seconds: updated,
    }
}

/// The position of the first peer with the identifier.
pub fn peer_position(v: &Vec<FleetPeer>, id: u128) -> (r: Option<usize>)
    ensures
        match r {
            Some(i) => i < v@.len() && i == first_id(peer_ids(peer_models(v@)), id) && v@[i as int].id
                == id,
            None => first_id(peer_ids(peer_models(v@)), id) == v@.len(),
        },
{
    let ghost ids = peer_ids(peer_models(v@));
    assert(ids.len() == v@.len());
    assert(forall|j: int| 0 <= j < v@.len() ==> ids[j] == v@[j].id);
    let mut i: usize = 0;
    while i < v.len()
        invariant
            i <= v@.len(),
            ids == peer_ids(peer_models(v@)),
            ids.len() == v@.len(),
            forall|j: int| 0 <= j < v@.len() ==> ids[j] == v@[j].id,
            forall|j: int| 0 <= j < i ==> ids[j] != id,
        decreases v@.len() - i,
    {
        if v[i].id == id {
            proof {
                lemma_first_id_unique(ids, id, i as int);
            }
            return Some(i);
        }
        i = i + 1;
    }
    proof {
        lemma_first_id_unique(ids, id, v@.len() as int);
    }
    None
}

/// The peers of a fleet, in listing order.
#[derive(Clone, Debug)]
pub struct FleetCatalog {
    pub peers: Vec<FleetPeer>,
}

impl View for FleetCatalog {
    type V = Seq<FleetPeerModel>;

    open spec fn view(&self) -> Seq<FleetPeerModel> {
        peer_models(self.peers@)
    }
}

impl FleetCatalog {
    /// An empty directory.
    pub fn new() -> (r: Self)
        ensures
            r@ == Seq::<FleetPeerModel>::empty(),
    {
        let r = FleetCatalog { peers: Vec::new() };
        assert(r@ =~= Seq::empty());
        r
    }

    /// The peers by priority and name.
    pub fn list(&self) -> (r: Vec<FleetPeer>)
        ensures
            peer_models(r@) == self@,
    {
        FleetPeer::duplicate_all(&self.peers)
    }

    /// The peer with an identifier.
    pub fn get(&self, id: u128) -> (r: Option<FleetPeer>)
        ensures
            match find_peer(self@, id) {
                Some(peer) => r is Some && r->0@ == peer,
                None => r is None,
            },
    {
        match peer_position(&self.peers, id) {
            Some(i) => Some(self.peers[i].duplicate()),
            None => None,
        }
    }

    fn persist(&mut self, peer: FleetPeer)
        ensures
            final(self)@ == stored(old(self)@, peer@),
    {
        let ghost all = self@;
        let mut rest: Vec<FleetPeer> = Vec::new();
        let mut i: usize = 0;
        assert(peer_models(rest@) =~= beside(all.take(0), peer@));
        while i < self.peers.len()
            invariant
                i <= self.peers@.len(),
                all == peer_models(self.peers@),
                peer_models(rest@) == beside(all.take(i as int), peer@),
            decreases self.peers@.len() - i,
        {
            let current = &self.peers[i];
            proof {
                assert(all.take(i + 1).drop_last() =~= all.take(i as int));
                assert(all.take(i + 1).last() == current@);
            }
            if !(current.id == peer.id || current.name == peer.name || current.url == peer.url) {
                let copy = current.duplicate();
                let ghost before = rest@;
                rest.push(copy);
                assert(peer_models(rest@) =~= peer_models(before).push(current@));
            }
            i = i + 1;
        }
        assert(all.take(all.len() as int) =~= all);
        let ghost models = peer_models(rest@);
        let mut at: usize = 0;
        assert(models.skip(0) =~= models);
        while at < rest.len() && !(peer.priority < rest[at].priority || (peer.priority
            == rest[at].priority && text_before(peer.name.as_str(), rest[at].name.as_str())))
            invariant
                at <= rest@.len(),
                models == peer_models(rest@),
                listing_position(models, peer@) == at + listing_position(
                    models.skip(at as int),
                    peer@,
                ),
            decreases rest@.len() - at,
        {
            assert(models.skip(at as int)[0] == rest@[at as int]@);
            assert(models.skip(at as int).drop_first() =~= models.skip(at + 1));
            at = at + 1;
        }
        proof {
            if at < rest@.len() {
                assert(models.skip(at as int)[0] == rest@[at as int]@);
            }
        }
        let ghost pm = peer@;
        let ghost before = rest@;
        rest.insert(at, peer);
        assert(peer_models(rest@) =~= peer_models(before).insert(at as int, pm));
        self.peers = rest;
    }

    /// Adds a peer under a new random identifier.
    pub fn create(
        &mut self,
        request: UpsertFleetPeer,
        token_configured: bool,
        now: u64,
    ) -> (r: Result<FleetPeer, FleetPeerError>)
        ensures
            match checked_peer(request@, uri_of(stored_url(request@.url))) {
                Ok(valid) => r is Ok && random_layout(r->Ok_0@.id) && r->Ok_0@ == peer_from(
                    r->Ok_0@.id,
                    valid,
                    token_configured,
                    now,
                    now,
                ) && final(self)@ == stored(old(self)@, r->Ok_0@),
                Err(error) => r is Err && r->Err_0@ == error && final(self)@ == old(self)@,
            },
    {
        let id = new_uuid();
        self.create_as(id, request, token_configured, now)
    }

    /// Adds a peer under the given identifier.
    pub fn create_as(
        &mut self,
        id: u128,
        request: UpsertFleetPeer,
        token_configured: bool,
        now: u64,
    ) -> (r: Result<FleetPeer, FleetPeerError>)
        ensures
            match checked_peer(request@, uri_of(stored_url(request@.url))) {
                Ok(valid) => {
                    let peer = peer_from(id, valid, token_configured, now, now);
                    r is Ok && r->Ok_0@ == peer && final(self)@ == stored(old(self)@, peer)
                },
                Err(error) => r is Err && r->Err_0@ == error && final(self)@ == old(self)@,
            },
    {
        match validate(request) {
            Ok(valid) => {
                let peer = FleetPeer {
                    id,
                    name: valid.name,
                    url: valid.url,
                    region: valid.region,
                    weight: valid.weight,
                    priority: valid.priority,
                    token_env: valid.token_env,
                    token_configured,
                    enabled: valid.enabled,
                    created_unix_seconds: now,
                    updated_unix_seconds: now,
                };
                let copy = peer.duplicate();
                self.persist(peer);
                Ok(copy)
            },
            Err(error) => Err(error),
        }
    }

    /// Replaces a peer; the time of its creation stays.
    pub fn update(
        &mut self,
        id: u128,
        request: UpsertFleetPeer,
        token_configured: bool,
        now: u64,
    ) -> (r: Result<Option<FleetPeer>, FleetPeerError>)
        ensures
            match checked_peer(request@, uri_of(stored_url(request@.url))) {
                Ok(valid) => match find_peer(old(self)@, id) {
                    Some(existing) => {
                        let peer = peer_from(
                            id,
                            valid,
                            token_configured,
                            existing.created_unix_seconds,
                            now,
                        );
                        r is Ok && r->Ok_0 is Some && r->Ok_0->0@ == peer && final(self)@ == stored(
                            old(self)@,
                            peer,
                        )
                    },
                    None => r is Ok && r->Ok_0 is None && final(self)@ == old(self)@,
                },
                Err(error) => r is Err && r->Err_0@ == error && final(self)@ == old(self)@,
            },
    {
        match validate(request) {
            Ok(valid) => match peer_position(&self.peers, id) {
                Some(i) => {
                    let peer = FleetPeer {
                        id,
                        name: valid.name,
                        url: valid.url,
                        region: valid.region,
                        weight: valid.weight,
                        priority: valid.priority,
                        token_env: valid.token_env,
                        token_configured,
                        enabled: valid.enabled,
                        created_unix_seconds: self.peers[i].created_unix_seconds,
                        updated_unix_seconds: now,
                    };
                    let copy = peer.duplicate();
                    self.persist(peer);
                    Ok(Some(copy))
                },
                None => Ok(None),
            },
            Err(error) => Err(error),
        }
    }

    /// Removes a peer; whether there was one.
    pub fn delete(&mut self, id: u128) -> (r: bool)
        ensures
            final(self)@ == without_peer(old(self)@, id),
            r == (find_peer(old(self)@, id) is Some),
    {
        let ghost all = self@;
        let found = peer_position(&self.peers, id).is_some();
        let mut rest: Vec<FleetPeer> = Vec::new();
        let mut i: usize = 0;
        assert(peer_models(rest@) =~= without_peer(all.take(0), id));
        while i < self.peers.len()
            invariant
                i <= self.peers@.len(),
                all == peer_models(self.peers@),
                peer_models(rest@) == without_peer(all.take(i as int), id),
            decreases self.peers@.len() - i,
        {
            let current = &self.peers[i];
            proof {
                assert(all.take(i + 1).drop_last() =~= all.take(i as int));
                assert(all.take(i + 1).last() == current@);
            }
            if current.id != id {
                let copy = current.duplicate();
                let ghost before = rest@;
                rest.push(copy);
                assert(peer_models(rest@) =~= peer_models(before).push(current@));
            }
            i = i + 1;
        }
        assert(all.take(all.len() as int) =~= all);
        self.peers = rest;
        found
    }
}

// ---------------------------------------------------------------------------
// Laws of the directory
// ---------------------------------------------------------------------------

proof fn lemma_beside(s: Seq<FleetPeerModel>, peer: FleetPeerModel)
    requires
        in_listing_order(s),
        distinct_slots(s),
    ensures
        in_listing_order(beside(s, peer)),
        distinct_slots(beside(s, peer)),
        forall|i: int|
            0 <= i < beside(s, peer).len() ==> !same_slot(#[trigger] beside(s, peer)[i], peer)
                && s.contains(beside(s, peer)[i]),
    decreases s.len(),
{
    if s.len() > 0 {
        let t = s.drop_last();
        assert(forall|i: int| 0 <= i < t.len() ==> t[i] == s[i]);
        assert(in_listing_order(t));
        assert(distinct_slots(t));
        lemma_beside(t, peer);
        let b = beside(t, peer);
        let r = beside(s, peer);
        assert forall|i: int| 0 <= i < r.len() implies s.contains(#[trigger] r[i]) by {
            if i < b.len() {
                assert(t.contains(b[i]));
                let k = choose|k: int| 0 <= k < t.len() && t[k] == b[i];
                assert(s[k] == r[i]);
            } else {
                assert(s[s.len() - 1] == r[i]);
            }
        }
        assert forall|i: int, j: int| 0 <= i < j < r.len() implies listed_before(
            #[trigger] r[i],
            #[trigger] r[j],
        ) && !same_slot(r[i], r[j]) by {
            if j == b.len() {
                assert(t.contains(b[i]));
                let k = choose|k: int| 0 <= k < t.len() && t[k] == b[i];
                assert(listed_before(s[k], s[s.len() - 1]));
                assert(!same_slot(s[k], s[s.len() - 1]));
            } else {
                assert(listed_before(b[i], b[j]));
            }
        }
    }
}

proof fn lemma_listing_position(s: Seq<FleetPeerModel>, peer: FleetPeerModel)
    requires
        in_listing_order(s),
        forall|i: int| 0 <= i < s.len() ==> !same_slot(#[trigger] s[i], peer),
    ensures
        0 <= listing_position(s, peer) <= s.len(),
        forall|i: int| 0 <= i < listing_position(s, peer) ==> listed_before(#[trigger] s[i], peer),
        forall|i: int| listing_position(s, peer) <= i < s.len() ==> listed_before(peer, #[trigger] s[i]),
    decreases s.len(),
{
    if s.len() == 0 {
    } else if listed_before(peer, s[0]) {
        assert forall|i: int| 0 <= i < s.len() implies listed_before(peer, #[trigger] s[i]) by {
            if i > 0 {
                assert(listed_before(s[0], s[i]));
                if peer.priority == s[0].priority && s[0].priority == s[i].priority {
                    crate::text::lemma_lex_transitive(peer.name, s[0].name, s[i].name);
                }
            }
        }
    } else {
        let t = s.drop_first();
        assert(forall|i: int| 0 <= i < t.len() ==> t[i] == s[i + 1]);
        assert(in_listing_order(t));
        assert forall|i: int| 0 <= i < t.len() implies !same_slot(#[trigger] t[i], peer) by {
            assert(!same_slot(s[i + 1], peer));
        }
        lemma_listing_position(t, peer);
        crate::text::lemma_lex_total(s[0].name, peer.name);
        assert(!same_slot(s[0], peer));
        assert forall|i: int| 0 <= i < listing_position(s, peer) implies listed_before(
            #[trigger] s[i],
            peer,
        ) by {
            if i > 0 {
                assert(listed_before(t[i - 1], peer));
            }
        }
        assert forall|i: int| listing_position(s, peer) <= i < s.len() implies listed_before(
            peer,
            #[trigger] s[i],
        ) by {
            assert(listed_before(peer, t[i - 1]));
        }
    }
}

/// Storing a peer keeps the directory in listing order and free of shared
/// identifiers, names and URLs.
pub proof fn law_stored_keeps_the_directory_ordered(s: Seq<FleetPeerModel>, peer: FleetPeerModel)
    requires
        in_listing_order(s),
        distinct_slots(s),
    ensures
        in_listing_order(stored(s, peer)),
        distinct_slots(stored(s, peer)),
        stored(s, peer).contains(peer),
{
    lemma_beside(s, peer);
    let rest = beside(s, peer);
    lemma_listing_position(rest, peer);
    let at = listing_position(rest, peer);
    let r = stored(s, peer);
    assert(r[at] == peer);
    assert forall|i: int, j: int| 0 <= i < j < r.len() implies listed_before(
        #[trigger] r[i],
        #[trigger] r[j],
    ) && !same_slot(r[i], r[j]) by {
        let a = if i < at {
            i
        } else {
            i - 1
        };
        let b = if j < at {
            j
        } else {
            j - 1
        };
        if i == at {
            assert(r[j] == rest[b]);
            assert(!same_slot(rest[b], peer));
        } else if j == at {
            assert(r[i] == rest[a]);
            assert(!same_slot(rest[a], peer));
        } else {
            assert(r[i] == rest[a]);
            assert(r[j] == rest[b]);
            assert(listed_before(rest[a], rest[b]));
        }
    }
}

/// Deleting drops the peers of that identifier and keeps all others in their order.
pub proof fn law_only_the_deleted_peer_leaves(a: Seq<FleetPeerModel>, b: Seq<FleetPeerModel>, x: FleetPeerModel, id: u128)
    ensures
        without_peer(a + b, id) == without_peer(a, id) + without_peer(b, id),
        x.id == id ==> without_peer(seq![x], id) == Seq::<FleetPeerModel>::empty(),
        !(x.id == id) ==> without_peer(seq![x], id) == seq![x],
    decreases b.len(),
{
    reveal_with_fuel(without_peer, 2);
    assert(seq![x].drop_last() =~= Seq::<FleetPeerModel>::empty());
    if b.len() == 0 {
        assert(a + b =~= a);
        assert(without_peer(b, id) =~= Seq::<FleetPeerModel>::empty());
    } else {
        law_only_the_deleted_peer_leaves(a, b.drop_last(), x, id);
        assert((a + b).drop_last() =~= a + b.drop_last());
        assert((a + b).last() == b.last());
        assert(without_peer(a + b, id) =~= without_peer(a, id) + without_peer(b, id));
    }
}


/// A stored peer pushes out those that share its identifier, its name or its URL, and
/// leaves all others in their order.
pub proof fn law_stored_peers_push_out_their_rivals(a: Seq<FleetPeerModel>, b: Seq<FleetPeerModel>, x: FleetPeerModel, peer: FleetPeerModel)
    ensures
        beside(a + b, peer) == beside(a, peer) + beside(b, peer),
        x.id == peer.id || x.name == peer.name || x.url == peer.url ==> beside(seq![x], peer) == Seq::<FleetPeerModel>::empty(),
        !(x.id == peer.id || x.name == peer.name || x.url == peer.url) ==> beside(seq![x], peer) == seq![x],
    decreases b.len(),
{
    reveal_with_fuel(beside, 2);
    assert(seq![x].drop_last() =~= Seq::<FleetPeerModel>::empty());
    if b.len() == 0 {
        assert(a + b =~= a);
        assert(beside(b, peer) =~= Seq::<FleetPeerModel>::empty());
    } else {
        law_stored_peers_push_out_their_rivals(a, b.drop_last(), x, peer);
        assert((a + b).drop_last() =~= a + b.drop_last());
        assert((a + b).last() == b.last());
        assert(beside(a + b, peer) =~= beside(a, peer) + beside(b, peer));
    }
}

/// Storing keeps the directory sorted by priority, the lowest first, and by name among
/// peers of the same priority.
pub proof fn law_peers_are_listed_by_priority_then_name(
    s: Seq<FleetPeerModel>,
    peer: FleetPeerModel,
)
    requires
        forall|i: int, j: int|
            0 <= i < j < s.len() ==> (#[trigger] s[i]).priority < (#[trigger] s[j]).priority
                || s[i].priority == s[j].priority && lex_less(s[i].name, s[j].name),
        distinct_slots(s),
    ensures
        forall|i: int, j: int|
            #![trigger stored(s, peer)[i], stored(s, peer)[j]]
            0 <= i < j < stored(s, peer).len() ==> stored(s, peer)[i].priority < stored(
                s,
                peer,
            )[j].priority || stored(s, peer)[i].priority == stored(s, peer)[j].priority && lex_less(
                stored(s, peer)[i].name,
                stored(s, peer)[j].name,
            ),
        forall|i: int, j: int|
            #![trigger stored(s, peer)[i], stored(s, peer)[j]]
            0 <= i < j < stored(s, peer).len() ==> stored(s, peer)[i].id != stored(s, peer)[j].id
                && stored(s, peer)[i].name != stored(s, peer)[j].name && stored(s, peer)[i].url
                != stored(s, peer)[j].url,
        stored(s, peer).contains(peer),
{
    assert forall|i: int, j: int| 0 <= i < j < s.len() implies listed_before(
        #[trigger] s[i],
        #[trigger] s[j],
    ) by {}
    law_stored_keeps_the_directory_ordered(s, peer);
    let t = stored(s, peer);
    assert forall|i: int, j: int| 0 <= i < j < t.len() implies (#[trigger] t[i]).priority < (
    #[trigger] t[j]).priority || t[i].priority == t[j].priority && lex_less(
        t[i].name,
        t[j].name,
    ) by {
        assert(listed_before(t[i], t[j]));
    }
    assert forall|i: int, j: int| 0 <= i < j < t.len() implies (#[trigger] t[i]).id != (
    #[trigger] t[j]).id && t[i].name != t[j].name && t[i].url != t[j].url by {
        assert(!same_slot(t[i], t[j]));
    }
}

/// A peer is found exactly if one of that identifier is listed, and what is found
/// bears the identifier.
pub proof fn law_listed_peers_are_found(s: Seq<FleetPeerModel>, id: u128)
    ensures
        find_peer(s, id) is Some <==> exists|i: int| 0 <= i < s.len() && (#[trigger] s[i]).id == id,
        find_peer(s, id) is Some ==> s.contains(find_peer(s, id)->0) && find_peer(s, id)->0.id
            == id,
{
    crate::ids::lemma_first_id(peer_ids(s), id);
    if exists|i: int| 0 <= i < s.len() && (#[trigger] s[i]).id == id {
        let i = choose|i: int| 0 <= i < s.len() && (#[trigger] s[i]).id == id;
        assert(peer_ids(s)[i] == id);
    }
    if find_peer(s, id) is Some {
        let i = first_id(peer_ids(s), id);
        assert(peer_ids(s)[i] == s[i].id);
    }
}

/// A peer is accepted exactly if its name and region have 1 to 80 characters, its
/// weight lies between 1 and 10000, its priority is at most 10000, its token variable
/// belongs to the product and is written in capitals, digits and underscores, and its
/// URL is one of HTTP with an authority.
pub proof fn law_peers_are_accepted_for_their_fields(
    request: UpsertFleetPeerModel,
    uri: ParsedUriModel,
)
    ensures
        checked_peer(request, uri) is Ok <==> {
            let token = trim(request.token_env);
            &&& 1 <= trim(request.name).len() <= 80
            &&& 1 <= trim(request.region).len() <= 80
            &&& 1 <= request.weight <= 10000
            &&& request.priority <= 10000
            &&& token.len() >= 9 && token.take(9) == "LINKLAKE_"@
            &&& forall|i: int|
                0 <= i < token.len() ==> 'A' <= (#[trigger] token[i]) <= 'Z' || '0' <= token[i]
                    <= '9' || token[i] == '_'
            &&& uri is Parsed && uri->has_authority
            &&& uri->scheme == Some("http"@) || uri->scheme == Some("https"@)
        },
        checked_peer(request, uri) is Ok ==> checked_peer(request, uri)->Ok_0 == (
        UpsertFleetPeerModel {
            name: trim(request.name),
            region: trim(request.region),
            token_env: trim(request.token_env),
            url: checked_peer(request, uri)->Ok_0.url,
            ..request
        }),
{
    reveal_strlit("LINKLAKE_");
    let token = trim(request.token_env);
    if product_env(token) {
        assert forall|i: int| 0 <= i < token.len() implies 'A' <= (#[trigger] token[i]) <= 'Z'
            || '0' <= token[i] <= '9' || token[i] == '_' by {
            assert(env_char(token[i]));
        }
        assert(token.take(9) =~= "LINKLAKE_"@);
    }
    if token.len() >= 9 && token.take(9) == "LINKLAKE_"@ && (forall|i: int|
        0 <= i < token.len() ==> 'A' <= (#[trigger] token[i]) <= 'Z' || '0' <= token[i] <= '9'
            || token[i] == '_') {
        assert forall|i: int| 0 <= i < token.len() implies env_char(#[trigger] token[i]) by {}
        assert(starts_with(token, "LINKLAKE_"@));
    }
}

/// What is wrong with a refused peer is told of the first field that is wrong.
pub proof fn law_refused_peers_name_the_field(request: UpsertFleetPeerModel, uri: ParsedUriModel)
    requires
        checked_peer(request, uri) is Err,
    ensures
        ({
            let e = checked_peer(request, uri)->Err_0;
            let name = 1 <= trim(request.name).len() <= 80;
            let region = 1 <= trim(request.region).len() <= 80;
            let weight = 1 <= request.weight <= 10000;
            let priority = request.priority <= 10000;
            &&& e is InvalidName <==> !name
            &&& e is InvalidRegion <==> name && !region
            &&& e is InvalidWeight <==> name && region && !weight
            &&& e is InvalidPriority <==> name && region && weight && !priority
            &&& e is UrlSyntax ==> uri is Malformed && uri->Malformed_0 == e->UrlSyntax_0
            &&& e is InvalidUrl ==> uri is Parsed
            &&& e is InvalidTokenEnv ==> name && region && weight && priority
            &&& e is UrlSyntax || e is InvalidUrl ==> {
                let token = trim(request.token_env);
                &&& name && region && weight && priority
                &&& token.len() >= 9 && token.take(9) == "LINKLAKE_"@
                &&& forall|i: int|
                    0 <= i < token.len() ==> 'A' <= (#[trigger] token[i]) <= 'Z' || '0' <= token[i]
                        <= '9' || token[i] == '_'
            }
        }),
{
    reveal_strlit("LINKLAKE_");
    let token = trim(request.token_env);
    if product_env(token) {
        assert forall|i: int| 0 <= i < token.len() implies 'A' <= (#[trigger] token[i]) <= 'Z'
            || '0' <= token[i] <= '9' || token[i] == '_' by {
            assert(env_char(token[i]));
        }
        assert(token.take(9) =~= "LINKLAKE_"@);
    }
}

/// The stored URL is the given one without the blanks around it and without the
/// slashes at its end.
pub proof fn law_stored_urls_end_in_no_slash(url: Seq<char>)
    ensures
        stored_url(url).len() <= trim(url).len(),
        stored_url(url) == trim(url).take(stored_url(url).len() as int),
        stored_url(url).len() > 0 ==> stored_url(url).last() != '/',
        forall|i: int|
            stored_url(url).len() <= i < trim(url).len() ==> (#[trigger] trim(url)[i]) == '/',
{
    lemma_trim_end_char(trim(url), '/');
}

proof fn lemma_trim_end_char(s: Seq<char>, c: char)
    ensures
        trim_end_char(s, c).len() <= s.len(),
        trim_end_char(s, c) == s.take(trim_end_char(s, c).len() as int),
        trim_end_char(s, c).len() > 0 ==> trim_end_char(s, c).last() != c,
        forall|i: int| trim_end_char(s, c).len() <= i < s.len() ==> (#[trigger] s[i]) == c,
    decreases s.len(),
{
    if s.len() > 0 && s.last() == c {
        lemma_trim_end_char(s.drop_last(), c);
        let n = trim_end_char(s, c).len() as int;
        assert(s.drop_last().take(n) =~= s.take(n));
        assert forall|i: int| n <= i < s.len() implies (#[trigger] s[i]) == c by {
            if i < s.len() - 1 {
                assert(s.drop_last()[i] == s[i]);
            }
        }
    } else {
        assert(s.take(s.len() as int) =~= s);
    }
}

/// A peer is recorded with what was asked for it.
pub proof fn law_peers_are_stored_as_asked(
    id: u128,
    request: UpsertFleetPeerModel,
    token_configured: bool,
    created: u64,
    updated: u64,
)
    ensures
        ({
            let p = peer_from(id, request, token_configured, created, updated);
            &&& p.id == id && p.name == request.name && p.url == request.url
            &&& p.region == request.region && p.weight == request.weight
            &&& p.priority == request.priority && p.token_env == request.token_env
            &&& p.token_configured == token_configured && p.enabled == request.enabled
            &&& p.created_unix_seconds == created && p.updated_unix_seconds == updated
        }),
{
}

/// A created peer is listed under its identifier with what was asked for it, as of now;
/// a refused request changes nothing.
pub proof fn law_created_peers_are_listed(
    catalog: &mut FleetCatalog,
    id: u128,
    request: UpsertFleetPeer,
    token_configured: bool,
    now: u64,
    r: Result<FleetPeer, FleetPeerError>,
)
    requires
        call_ensures(FleetCatalog::create_as, (catalog, id, request, token_configured, now), r),
    ensures
        ({
            let checked = checked_peer(request@, uri_of(stored_url(request@.url)));
            &&& r is Ok <==> checked is Ok
            &&& r is Err ==> final(catalog)@ == old(catalog)@ && r->Err_0@ == checked->Err_0
            &&& r is Ok ==> {
                let p = r->Ok_0@;
                &&& p.id == id && p.token_configured == token_configured
                &&& p.created_unix_seconds == now && p.updated_unix_seconds == now
                &&& p.name == checked->Ok_0.name && p.url == checked->Ok_0.url && p.region
                    == checked->Ok_0.region
                &&& p.weight == request@.weight && p.priority == request@.priority && p.enabled
                    == request@.enabled
                &&& final(catalog)@ == stored(old(catalog)@, p)
            }
        }),
{
}

/// An updated peer keeps its identifier and the time of its creation; an unknown one is
/// not created, and a refused request changes nothing.
pub proof fn law_updated_peers_keep_their_creation(
    catalog: &mut FleetCatalog,
    id: u128,
    request: UpsertFleetPeer,
    token_configured: bool,
    now: u64,
    r: Result<Option<FleetPeer>, FleetPeerError>,
)
    requires
        call_ensures(FleetCatalog::update, (catalog, id, request, token_configured, now), r),
    ensures
        ({
            let checked = checked_peer(request@, uri_of(stored_url(request@.url)));
            let known = find_peer(old(catalog)@, id);
            &&& r is Ok <==> checked is Ok
            &&& r is Err ==> final(catalog)@ == old(catalog)@ && r->Err_0@ == checked->Err_0
            &&& r is Ok && known is None ==> r->Ok_0 is None && final(catalog)@ == old(catalog)@
            &&& r is Ok && known is Some ==> {
                let p = r->Ok_0->0@;
                &&& r->Ok_0 is Some
                &&& p.id == id && p.token_configured == token_configured
                &&& p.created_unix_seconds == known->0.created_unix_seconds
                &&& p.updated_unix_seconds == now
                &&& p.name == checked->Ok_0.name && p.url == checked->Ok_0.url && p.region
                    == checked->Ok_0.region
                &&& p.weight == request@.weight && p.priority == request@.priority && p.enabled
                    == request@.enabled
                &&& final(catalog)@ == stored(old(catalog)@, p)
            }
        }),
{
}

/// A deleted peer is not found any more, and deleting tells whether it was there.
pub proof fn law_deleted_peers_are_not_found(catalog: &mut FleetCatalog, id: u128, r: bool)
    requires
        call_ensures(FleetCatalog::delete, (catalog, id), r),
    ensures
        r <==> exists|i: int| 0 <= i < old(catalog)@.len() && (#[trigger] old(catalog)@[i]).id == id,
        find_peer(final(catalog)@, id) is None,
        final(catalog)@ == without_peer(old(catalog)@, id),
{
    law_listed_peers_are_found(old(catalog)@, id);
    law_listed_peers_are_found(final(catalog)@, id);
    lemma_without_peer(old(catalog)@, id);
}

proof fn lemma_without_peer(s: Seq<FleetPeerModel>, id: u128)
    ensures
        forall|i: int|
            0 <= i < without_peer(s, id).len() ==> (#[trigger] without_peer(s, id)[i]).id != id,
    decreases s.len(),
{
    if s.len() > 0 {
        lemma_without_peer(s.drop_last(), id);
        let rest = without_peer(s.drop_last(), id);
        let r = without_peer(s, id);
        assert forall|i: int| 0 <= i < r.len() implies (#[trigger] r[i]).id != id by {
            if i < rest.len() {
                assert(r[i] == rest[i]);
            }
        }
    }
}

} // verus!
