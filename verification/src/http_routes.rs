//! HTTP routes: host names, route policies and their catalog.

use crate::grpc_backend_tls::{
    GrpcBackendRuntimeTransport, GrpcBackendTlsPolicy, GrpcBackendTrust, TransportModel, TrustModel,
};
use crate::host_name::{are_valid_labels, dns_name, valid_labels};
use crate::http_backend_pool::{
    canonical_authority, BackendProtocol, BackendSecurity, OriginKey, OriginKeyError, OriginModel,
    SecurityModel,
};
use crate::ids::{first_id, lemma_first_id, lemma_first_id_unique};
use crate::ip_address::{ip_address, parse_ip};
use crate::number::{parse_number, parsed_number};
use crate::text::{
    ascii_alphanumeric, chars_of, fits_utf8, has_char, is_white_space, last_index, lemma_last_index,
    lex_less, lower, lower_char, lowered, opt_view, rfind, same_text, slice_of, string_of, text_before, trim,
    trim_end_char, trim_text, trimmed, trimmed_end_char, utf8_len, white_space, copy_chars,
};
use crate::uuids::{new_uuid, parse_uuid, random_layout, uuid_error, uuid_of};
use vstd::prelude::*;
use vstd::string::*;

verus! {

/// The connection limit of a route that names none.
pub const DEFAULT_MAX_CONNECTIONS: u16 = 64;

/// A request to add or replace a route policy.
#[derive(Clone, Debug, PartialEq, Eq)]
pub struct CreateHttpRoutePolicy {
    pub client_id: u128,
    pub name: String,
    pub hostname: String,
    pub target_addr: String,
    pub max_connections: Option<u16>,
}

/// What a [`CreateHttpRoutePolicy`] says.
pub struct CreateHttpRoutePolicyModel {
    pub client_id: u128,
    pub name: Seq<char>,
    pub hostname: Seq<char>,
    pub target_addr: Seq<char>,
    pub max_connections: Option<u16>,
}

impl View for CreateHttpRoutePolicy {
    type V = CreateHttpRoutePolicyModel;

    open spec fn view(&self) -> CreateHttpRoutePolicyModel {
        CreateHttpRoutePolicyModel {
            client_id: self.client_id,
            name: self.name@,
            hostname: self.hostname@,
            target_addr: self.target_addr@,
            max_connections: self.max_connections,
        }
    }
}

impl CreateHttpRoutePolicy {
    /// A copy of the value.
    pub fn duplicate(&self) -> (r: Self)
        ensures
            r@ == self@,
    {
        let r = CreateHttpRoutePolicy {
            client_id: self.client_id,
            name: self.name.clone(),
            hostname: self.hostname.clone(),
            target_addr: self.target_addr.clone(),
            max_connections: self.max_connections,
        };
        r
    }
}

/// A route: which client serves a host name.
#[derive(Clone, Debug, PartialEq, Eq)]
pub struct HttpRoutePolicy {
    pub id: u128,
    pub client_id: u128,
    pub name: String,
    pub hostname: String,
    pub target_addr: String,
    pub max_connections: u16,
    pub enabled: bool,
}

/// What a [`HttpRoutePolicy`] says.
pub struct HttpRoutePolicyModel {
    pub id: u128,
    pub client_id: u128,
    pub name: Seq<char>,
    pub hostname: Seq<char>,
    pub target_addr: Seq<char>,
    pub max_connections: u16,
    pub enabled: bool,
}

impl View for HttpRoutePolicy {
    type V = HttpRoutePolicyModel;

    open spec fn view(&self) -> HttpRoutePolicyModel {
        HttpRoutePolicyModel {
            id: self.id,
            client_id: self.client_id,
            name: self.name@,
            hostname: self.hostname@,
            target_addr: self.target_addr@,
            max_connections: self.max_connections,
            enabled: self.enabled,
        }
    }
}

impl HttpRoutePolicy {
    /// A copy of the value.
    pub fn duplicate(&self) -> (r: Self)
        ensures
            r@ == self@,
    {
        let r = HttpRoutePolicy {
            id: self.id,
            client_id: self.client_id,
            name: self.name.clone(),
            hostname: self.hostname.clone(),
            target_addr: self.target_addr.clone(),
            max_connections: self.max_connections,
            enabled: self.enabled,
        };
        r
    }

    /// Copies of a list of values.
    pub fn duplicate_all(v: &Vec<Self>) -> (r: Vec<Self>)
        ensures
            r@.map_values(|x: Self| x@) == v@.map_values(|x: Self| x@),
    {
        let mut out: Vec<Self> = Vec::new();
        let mut i: usize = 0;
        while i < v.len()
            invariant
                i <= v@.len(),
                out@.len() == i,
                forall|j: int| 0 <= j < i ==> (#[trigger] out@[j])@ == v@[j]@,
            decreases v@.len() - i,
        {
            out.push(v[i].duplicate());
            i = i + 1;
        }
        assert(out@.map_values(|x: Self| x@) =~= v@.map_values(|x: Self| x@));
        out
    }
}

/// What a registered route is granted.
#[derive(Clone, Copy, Debug, PartialEq, Eq, Structural)]
pub struct HttpRouteRuntimePolicy {
    pub policy_id: u128,
    pub max_connections: usize,
}

/// Why a route policy was refused.
#[derive(Clone, Copy, Debug, PartialEq, Eq, Structural)]
pub enum CreateHttpRouteError {
    InvalidName,
    InvalidHostname,
    DuplicateHostname,
    InvalidTarget,
    InvalidConnectionLimit,
}

impl CreateHttpRouteError {
    /// The text shown to operators.
    pub fn message(self) -> (r: &'static str)
        ensures
            r@ == match self {
                CreateHttpRouteError::InvalidName => "route name is invalid"@,
                CreateHttpRouteError::InvalidHostname => "hostname is invalid"@,
                CreateHttpRouteError::DuplicateHostname => {
                    "hostname is already assigned to another route"@
                },
                CreateHttpRouteError::InvalidTarget => "target address is invalid"@,
                CreateHttpRouteError::InvalidConnectionLimit => "connection limit is invalid"@,
            },
    {
        match self {
            CreateHttpRouteError::InvalidName => "route name is invalid",
            CreateHttpRouteError::InvalidHostname => "hostname is invalid",
            CreateHttpRouteError::DuplicateHostname => {
                "hostname is already assigned to another route"
            },
            CreateHttpRouteError::InvalidTarget => "target address is invalid",
            CreateHttpRouteError::InvalidConnectionLimit => "connection limit is invalid",
        }
    }
}

// ---------------------------------------------------------------------------
// Host names
// ---------------------------------------------------------------------------

pub open spec fn hostname_breaker(c: char) -> bool {
    c == '/' || c == '@' || white_space(c)
}

/// The text in front of a port, where the text ends in one.
pub open spec fn without_port(s: Seq<char>) -> Seq<char> {
    let colon = last_index(s, ':');
    if colon >= 0 && !s.take(colon).contains(':') && parsed_number(s.skip(colon + 1), 10, 65535)
        is Some && parsed_number(s.skip(colon + 1), 10, 65535)->0 != 0 {
        s.take(colon)
    } else {
        s
    }
}

/// The host name that a text denotes: in lower case, without a port and
/// trailing dots, with at least two labels, and no IP address.
pub open spec fn hostname_of(value: Seq<char>) -> Option<Seq<char>> {
    let s = lower(trim(value));
    let name = trim_end_char(without_port(s), '.');
    if s.len() == 0 || utf8_len(s) > 253 || exists|i: int|
        0 <= i < s.len() && hostname_breaker(#[trigger] s[i]) {
        None
    } else if name.contains('.') && ip_address(name) is None && valid_labels(name) {
        Some(name)
    } else {
        None
    }
}

fn breaks_hostname(s: &[char]) -> (r: bool)
    ensures
        r == exists|i: int| 0 <= i < s@.len() && hostname_breaker(#[trigger] s@[i]),
{
    let mut i: usize = 0;
    while i < s.len()
        invariant
            i <= s@.len(),
            forall|j: int| 0 <= j < i ==> !hostname_breaker(#[trigger] s@[j]),
        decreases s@.len() - i,
    {
        if s[i] == '/' || s[i] == '@' || is_white_space(s[i]) {
            assert(hostname_breaker(s@[i as int]));
            return true;
        }
        i = i + 1;
    }
    false
}

fn strip_port(s: &[char]) -> (r: Vec<char>)
    ensures
        r@ == without_port(s@),
{
    if let Some(colon) = rfind(s, ':') {
        let host = slice_of(s, 0, colon);
        let digits = slice_of(s, colon + 1, s.len());
        assert(host@ =~= s@.take(colon as int));
        assert(digits@ =~= s@.skip(colon + 1));
        if !has_char(&host, ':') {
            if let Some(port) = parse_number(&digits, 10, 65535) {
                if port != 0 {
                    return host;
                }
            }
        }
    }
    copy_chars(s)
}

/// The host name that a text denotes.
pub fn normalize_hostname(value: &str) -> (r: Option<String>)
    ensures
        match r {
            Some(name) => hostname_of(value@) == Some(name@),
            None => hostname_of(value@) is None,
        },
{
    let s = lowered(&trimmed(&chars_of(value)));
    if s.len() == 0 || !fits_utf8(&s, 253) || breaks_hostname(&s) {
        return None;
    }
    let name = trimmed_end_char(&strip_port(&s), '.');
    if has_char(&name, '.') && parse_ip(&name).is_none() && are_valid_labels(&name) {
        Some(string_of(&name))
    } else {
        None
    }
}

// ---------------------------------------------------------------------------
// Policies
// ---------------------------------------------------------------------------

/// The connection limit that a request asks for.
pub open spec fn wanted_limit(limit: Option<u16>) -> u16 {
    match limit {
        Some(n) => n,
        None => DEFAULT_MAX_CONNECTIONS,
    }
}

/// A valid policy, or the first thing wrong with the request. `target_valid`
/// says whether the trimmed target denotes a pool of targets.
pub open spec fn policy_of(
    id: u128,
    enabled: bool,
    request: CreateHttpRoutePolicyModel,
    target_valid: bool,
) -> Result<HttpRoutePolicyModel, CreateHttpRouteError> {
    match hostname_of(request.hostname) {
        None => Err(CreateHttpRouteError::InvalidHostname),
        Some(hostname) => if trim(request.name).len() == 0 || utf8_len(request.name) > 80 {
            Err(CreateHttpRouteError::InvalidName)
        } else if !target_valid || utf8_len(request.target_addr) > 4096 {
            Err(CreateHttpRouteError::InvalidTarget)
        } else if !(1 <= wanted_limit(request.max_connections) <= 1024) {
            Err(CreateHttpRouteError::InvalidConnectionLimit)
        } else {
            Ok(
                HttpRoutePolicyModel {
                    id,
                    client_id: request.client_id,
                    name: trim(request.name),
                    hostname,
                    target_addr: trim(request.target_addr),
                    max_connections: wanted_limit(request.max_connections),
                    enabled,
                },
            )
        },
    }
}

/// A valid policy from a request.
pub fn requested_policy(
    id: u128,
    enabled: bool,
    request: &CreateHttpRoutePolicy,
    target_valid: bool,
) -> (r: Result<HttpRoutePolicy, CreateHttpRouteError>)
    ensures
        match policy_of(id, enabled, request@, target_valid) {
            Ok(policy) => r is Ok && r->Ok_0@ == policy,
            Err(error) => r is Err && r->Err_0 == error,
        },
{
    let hostname = match normalize_hostname(request.hostname.as_str()) {
        Some(hostname) => hostname,
        None => {
            return Err(CreateHttpRouteError::InvalidHostname);
        },
    };
    let name = trim_text(request.name.as_str());
    if name.as_str().is_empty() || !fits_utf8(&chars_of(request.name.as_str()), 80) {
        return Err(CreateHttpRouteError::InvalidName);
    }
    if !target_valid || !fits_utf8(&chars_of(request.target_addr.as_str()), 4096) {
        return Err(CreateHttpRouteError::InvalidTarget);
    }
    let max_connections: u16 = match request.max_connections {
        Some(n) => n,
        None => DEFAULT_MAX_CONNECTIONS,
    };
    if max_connections < 1 || max_connections > 1024 {
        return Err(CreateHttpRouteError::InvalidConnectionLimit);
    }
    Ok(
        HttpRoutePolicy {
            id,
            client_id: request.client_id,
            name,
            hostname,
            target_addr: trim_text(request.target_addr.as_str()),
            max_connections,
            enabled,
        },
    )
}

// ---------------------------------------------------------------------------
// The catalog
// ---------------------------------------------------------------------------

pub open spec fn policy_models(v: Seq<HttpRoutePolicy>) -> Seq<HttpRoutePolicyModel> {
    v.map_values(|x: HttpRoutePolicy| x@)
}

pub open spec fn policy_ids(s: Seq<HttpRoutePolicyModel>) -> Seq<u128> {
    s.map_values(|x: HttpRoutePolicyModel| x.id)
}

pub open spec fn find_policy(s: Seq<HttpRoutePolicyModel>, id: u128) -> Option<
    HttpRoutePolicyModel,
> {
    let i = first_id(policy_ids(s), id);
    if i < s.len() {
        Some(s[i])
    } else {
        None
    }
}

/// Whether another policy has the host name.
pub open spec fn hostname_taken(s: Seq<HttpRoutePolicyModel>, hostname: Seq<char>, id: u128) -> bool {
    exists|i: int| 0 <= i < s.len() && (#[trigger] s[i]).hostname == hostname && s[i].id != id
}

/// Where a policy goes: before the first one with a greater host name.
pub open spec fn hostname_position(s: Seq<HttpRoutePolicyModel>, hostname: Seq<char>) -> int
    decreases s.len(),
{
    if s.len() == 0 || lex_less(hostname, s[0].hostname) {
        0
    } else {
        1 + hostname_position(s.drop_first(), hostname)
    }
}

/// The list with a policy in its place.
pub open spec fn with_policy(s: Seq<HttpRoutePolicyModel>, policy: HttpRoutePolicyModel) -> Seq<
    HttpRoutePolicyModel,
> {
    s.insert(hostname_position(s, policy.hostname), policy)
}

/// Adding a policy.
pub open spec fn policy_created(
    s: Seq<HttpRoutePolicyModel>,
    id: u128,
    request: CreateHttpRoutePolicyModel,
    target_valid: bool,
) -> Result<(Seq<HttpRoutePolicyModel>, HttpRoutePolicyModel), CreateHttpRouteError> {
    match policy_of(id, true, request, target_valid) {
        Err(error) => Err(error),
        Ok(policy) => if exists|i: int|
            0 <= i < s.len() && (#[trigger] s[i]).hostname == policy.hostname {
            Err(CreateHttpRouteError::DuplicateHostname)
        } else {
            Ok((with_policy(s, policy), policy))
        },
    }
}

/// Replacing a policy; its identifier and whether it is enabled stay.
pub open spec fn policy_updated(
    s: Seq<HttpRoutePolicyModel>,
    id: u128,
    request: CreateHttpRoutePolicyModel,
    target_valid: bool,
) -> Result<(Seq<HttpRoutePolicyModel>, Option<HttpRoutePolicyModel>), CreateHttpRouteError> {
    match policy_of(id, true, request, target_valid) {
        Err(error) => Err(error),
        Ok(valid) => {
            let i = first_id(policy_ids(s), id);
            if i >= s.len() {
                Ok((s, None))
            } else if hostname_taken(s, valid.hostname, id) {
                Err(CreateHttpRouteError::DuplicateHostname)
            } else {
                let policy = HttpRoutePolicyModel { enabled: s[i].enabled, ..valid };
                Ok((with_policy(s.remove(i), policy), Some(policy)))
            }
        },
    }
}

/// What a registration is granted: the enabled policy that names the client,
/// the route, the host name and the target exactly.
pub open spec fn granted(
    s: Seq<HttpRoutePolicyModel>,
    client_id: u128,
    name: Seq<char>,
    hostname: Seq<char>,
    target_addr: Seq<char>,
) -> Option<HttpRouteRuntimePolicy>
    decreases s.len(),
{
    if s.len() == 0 {
        None
    } else if s[0].client_id == client_id && s[0].name == name && s[0].hostname == hostname
        && s[0].target_addr == target_addr && s[0].enabled {
        Some(
            HttpRouteRuntimePolicy {
                policy_id: s[0].id,
                max_connections: s[0].max_connections as usize,
            },
        )
    } else {
        granted(s.drop_first(), client_id, name, hostname, target_addr)
    }
}

/// Whether an enabled policy has a host name.
pub open spec fn host_in_use(s: Seq<HttpRoutePolicyModel>, hostname: Seq<char>) -> bool {
    exists|i: int| 0 <= i < s.len() && (#[trigger] s[i]).hostname == hostname && s[i].enabled
}

fn policy_position(v: &Vec<HttpRoutePolicy>, id: u128) -> (r: Option<usize>)
    ensures
        match r {
            Some(i) => i < v@.len() && i == first_id(policy_ids(policy_models(v@)), id)
                && v@[i as int].id == id,
            None => first_id(policy_ids(policy_models(v@)), id) == v@.len(),
        },
{
    let ghost ids = policy_ids(policy_models(v@));
    assert(ids.len() == v@.len());
    assert(forall|j: int| 0 <= j < v@.len() ==> ids[j] == v@[j].id);
    let mut i: usize = 0;
    while i < v.len()
        invariant
            i <= v@.len(),
            ids == policy_ids(policy_models(v@)),
            ids.len() == v@.len(),
            forall|j: int| 0 <= j < v@.len() ==> ids[j] == v@[j].id,
            forall|j: int| 0 <= j < i ==> ids[j] != id,
        decreases v@.len() - i,
    {
        if v[i].id == id {
            proof {
                lemma_first_id_unique(ids, id, i as int);
            }
            return Some(i);
        }
        i = i + 1;
    }
    proof {
        lemma_first_id_unique(ids, id, v@.len() as int);
    }
    None
}

fn place_policy(v: &mut Vec<HttpRoutePolicy>, policy: HttpRoutePolicy)
    ensures
        policy_models(final(v)@) == with_policy(policy_models(old(v)@), policy@),
{
    let ghost models = policy_models(v@);
    let ghost pm = policy@;
    let mut at: usize = 0;
    assert(models.skip(0) =~= models);
    while at < v.len() && !text_before(policy.hostname.as_str(), v[at].hostname.as_str())
        invariant
            at <= v@.len(),
            v@ == old(v)@,
            models == policy_models(v@),
            pm == policy@,
            hostname_position(models, pm.hostname) == at + hostname_position(
                models.skip(at as int),
                pm.hostname,
            ),
        decreases v@.len() - at,
    {
        assert(models.skip(at as int)[0] == v@[at as int]@);
        assert(models.skip(at as int).drop_first() =~= models.skip(at + 1));
        at = at + 1;
    }
    proof {
        if at < v@.len() {
            assert(models.skip(at as int)[0] == v@[at as int]@);
        }
    }
    v.insert(at, policy);
    assert(policy_models(v@) =~= models.insert(at as int, pm));
}

/// The route policies, in the order of their host names.
#[derive(Debug)]
pub struct HttpRouteCatalog {
    pub policies: Vec<HttpRoutePolicy>,
}

impl View for HttpRouteCatalog {
    type V = Seq<HttpRoutePolicyModel>;

    open spec fn view(&self) -> Seq<HttpRoutePolicyModel> {
        policy_models(self.policies@)
    }
}

impl HttpRouteCatalog {
    /// An empty catalog.
    pub fn new() -> (r: Self)
        ensures
            r@ == Seq::<HttpRoutePolicyModel>::empty(),
    {
        let r = HttpRouteCatalog { policies: Vec::new() };
        assert(r@ =~= Seq::empty());
        r
    }

    /// Adds a policy under a new random identifier.
    pub fn create(&mut self, request: &CreateHttpRoutePolicy, target_valid: bool) -> (r: Result<
        HttpRoutePolicy,
        CreateHttpRouteError,
    >)
        ensures
            exists|id: u128| #[trigger]
                random_layout(id) && match policy_created(
                    old(self)@,
                    id,
                    request@,
                    target_valid,
                ) {
                    Ok((after, policy)) => r is Ok && r->Ok_0@ == policy && final(self)@ == after,
                    Err(error) => r is Err && r->Err_0 == error && final(self)@ == old(self)@,
                },
    {
        let id = new_uuid();
        self.create_as(id, request, target_valid)
    }

    /// Adds a policy under the given identifier.
    pub fn create_as(&mut self, id: u128, request: &CreateHttpRoutePolicy, target_valid: bool) -> (r:
        Result<HttpRoutePolicy, CreateHttpRouteError>)
        ensures
            match policy_created(old(self)@, id, request@, target_valid) {
                Ok((after, policy)) => r is Ok && r->Ok_0@ == policy && final(self)@ == after,
                Err(error) => r is Err && r->Err_0 == error && final(self)@ == old(self)@,
            },
    {
        let policy = match requested_policy(id, true, request, target_valid) {
            Ok(policy) => policy,
            Err(error) => {
                return Err(error);
            },
        };
        let ghost s = self@;
        let mut i: usize = 0;
        while i < self.policies.len()
            invariant
                i <= self.policies@.len(),
                s == self@,
                self@ == old(self)@,
                policy_of(id, true, request@, target_valid) == Ok::<
                    HttpRoutePolicyModel,
                    CreateHttpRouteError,
                >(policy@),
                forall|j: int| 0 <= j < i ==> (#[trigger] s[j]).hostname != policy@.hostname,
            decreases self.policies@.len() - i,
        {
            assert(s[i as int] == self.policies@[i as int]@);
            if self.policies[i].hostname == policy.hostname {
                return Err(CreateHttpRouteError::DuplicateHostname);
            }
            i = i + 1;
        }
        let copy = policy.duplicate();
        place_policy(&mut self.policies, policy);
        Ok(copy)
    }

    /// The policies by host name.
    pub fn list(&self) -> (r: Vec<HttpRoutePolicy>)
        ensures
            policy_models(r@) == self@,
    {
        HttpRoutePolicy::duplicate_all(&self.policies)
    }

    /// The policy with an identifier.
    pub fn policy_by_id(&self, id: u128) -> (r: Option<HttpRoutePolicy>)
        ensures
            match find_policy(self@, id) {
                Some(policy) => r is Some && r->0@ == policy,
                None => r is None,
            },
    {
        match policy_position(&self.policies, id) {
            Some(i) => {
                assert(self@[i as int] == self.policies@[i as int]@);
                Some(self.policies[i].duplicate())
            },
            None => None,
        }
    }

    /// Replaces a policy.
    pub fn update(&mut self, id: u128, request: &CreateHttpRoutePolicy, target_valid: bool) -> (r:
        Result<Option<HttpRoutePolicy>, CreateHttpRouteError>)
        ensures
            match policy_updated(old(self)@, id, request@, target_valid) {
                Ok((after, policy)) => r is Ok && final(self)@ == after && match r->Ok_0 {
                    Some(x) => policy == Some(x@),
                    None => policy is None,
                },
                Err(error) => r is Err && r->Err_0 == error && final(self)@ == old(self)@,
            },
    {
        let mut policy = match requested_policy(id, true, request, target_valid) {
            Ok(policy) => policy,
            Err(error) => {
                return Err(error);
            },
        };
        let at: usize = match policy_position(&self.policies, id) {
            Some(at) => at,
            None => {
                return Ok(None);
            },
        };
        let ghost s = self@;
        assert(s[at as int] == self.policies@[at as int]@);
        let mut i: usize = 0;
        while i < self.policies.len()
            invariant
                i <= self.policies@.len(),
                s == self@,
                self@ == old(self)@,
                at < self.policies@.len(),
                at == first_id(policy_ids(s), id),
                policy_of(id, true, request@, target_valid) == Ok::<
                    HttpRoutePolicyModel,
                    CreateHttpRouteError,
                >(policy@),
                forall|j: int|
                    0 <= j < i ==> !((#[trigger] s[j]).hostname == policy@.hostname && s[j].id
                        != id),
            decreases self.policies@.len() - i,
        {
            assert(s[i as int] == self.policies@[i as int]@);
            if self.policies[i].hostname == policy.hostname && self.policies[i].id != id {
                return Err(CreateHttpRouteError::DuplicateHostname);
            }
            i = i + 1;
        }
        policy.enabled = self.policies[at].enabled;
        let copy = policy.duplicate();
        let ghost before = self.policies@;
        self.policies.remove(at);
        assert(policy_models(self.policies@) =~= policy_models(before).remove(at as int));
        place_policy(&mut self.policies, policy);
        Ok(Some(copy))
    }

    /// Enables or disables a policy; whether there is one.
    pub fn set_enabled(&mut self, id: u128, enabled: bool) -> (r: bool)
        ensures
            ({
                let i = first_id(policy_ids(old(self)@), id);
                if i < old(self)@.len() {
                    r && final(self)@ == old(self)@.update(
                        i,
                        (HttpRoutePolicyModel { enabled, ..old(self)@[i] }),
                    )
                } else {
                    !r && final(self)@ == old(self)@
                }
            }),
    {
        match policy_position(&self.policies, id) {
            Some(i) => {
                let mut policy = self.policies[i].duplicate();
                policy.enabled = enabled;
                let ghost pm = policy@;
                let ghost before = self.policies@;
                assert(policy_models(before)[i as int] == before[i as int]@);
                self.policies.set(i, policy);
                assert(policy_models(self.policies@) =~= policy_models(before).update(
                    i as int,
                    pm,
                ));
                true
            },
            None => false,
        }
    }

    /// Removes a policy; whether there was one.
    pub fn delete(&mut self, id: u128) -> (r: bool)
        ensures
            ({
                let i = first_id(policy_ids(old(self)@), id);
                if i < old(self)@.len() {
                    r && final(self)@ == old(self)@.remove(i)
                } else {
                    !r && final(self)@ == old(self)@
                }
            }),
    {
        match policy_position(&self.policies, id) {
            Some(i) => {
                let ghost before = self.policies@;
                self.policies.remove(i);
                assert(policy_models(self.policies@) =~= policy_models(before).remove(i as int));
                true
            },
            None => false,
        }
    }

    /// The host name of a policy.
    pub fn hostname_for_id(&self, id: u128) -> (r: Option<String>)
        ensures
            match find_policy(self@, id) {
                Some(policy) => r is Some && r->0@ == policy.hostname,
                None => r is None,
            },
    {
        match policy_position(&self.policies, id) {
            Some(i) => {
                assert(self@[i as int] == self.policies@[i as int]@);
                Some(self.policies[i].hostname.clone())
            },
            None => None,
        }
    }

    /// Whether an enabled policy has the host name; none for an invalid one.
    pub fn enabled_hostname_exists(&self, hostname: &str) -> (r: Option<bool>)
        ensures
            match hostname_of(hostname@) {
                Some(name) => r == Some(host_in_use(self@, name)),
                None => r is None,
            },
    {
        let name = match normalize_hostname(hostname) {
            Some(name) => name,
            None => {
                return None;
            },
        };
        let ghost s = self@;
        let mut i: usize = 0;
        while i < self.policies.len()
            invariant
                i <= self.policies@.len(),
                s == self@,
                hostname_of(hostname@) == Some(name@),
                forall|j: int|
                    0 <= j < i ==> !((#[trigger] s[j]).hostname == name@ && s[j].enabled),
            decreases self.policies@.len() - i,
        {
            assert(s[i as int] == self.policies@[i as int]@);
            if self.policies[i].hostname == name && self.policies[i].enabled {
                return Some(true);
            }
            i = i + 1;
        }
        Some(false)
    }

    /// What a registration is granted; an invalid host name is an error.
    pub fn runtime_policy(&self, client_id: u128, name: &str, hostname: &str, target_addr: &str) -> (r:
        Result<Option<HttpRouteRuntimePolicy>, CreateHttpRouteError>)
        ensures
            match hostname_of(hostname@) {
                Some(host) => r is Ok && r->Ok_0 == granted(
                    self@,
                    client_id,
                    name@,
                    host,
                    target_addr@,
                ),
                None => r is Err && r->Err_0 == CreateHttpRouteError::InvalidHostname,
            },
    {
        let host = match normalize_hostname(hostname) {
            Some(host) => host,
            None => {
                return Err(CreateHttpRouteError::InvalidHostname);
            },
        };
        let ghost s = self@;
        let mut i: usize = 0;
        assert(s.skip(0) =~= s);
        while i < self.policies.len()
            invariant
                i <= self.policies@.len(),
                s == self@,
                hostname_of(hostname@) == Some(host@),
                granted(s, client_id, name@, host@, target_addr@) == granted(
                    s.skip(i as int),
                    client_id,
                    name@,
                    host@,
                    target_addr@,
                ),
            decreases self.policies@.len() - i,
        {
            let policy = &self.policies[i];
            assert(s.skip(i as int)[0] == policy@);
            assert(s.skip(i as int).drop_first() =~= s.skip(i + 1));
            if policy.client_id == client_id && same_text(policy.name.as_str(), name)
                && policy.hostname == host && same_text(policy.target_addr.as_str(), target_addr)
                && policy.enabled {
                return Ok(
                    Some(
                        HttpRouteRuntimePolicy {
                            policy_id: policy.id,
                            max_connections: policy.max_connections as usize,
                        },
                    ),
                );
            }
            i = i + 1;
        }
        Ok(None)
    }
}

// ---------------------------------------------------------------------------
// Shared rows
// ---------------------------------------------------------------------------

/// What gRPC backends of a route are spoken to with.
#[derive(Clone, Copy, Debug, PartialEq, Eq, Structural)]
pub enum GrpcBackendTransport {
    H2c,
    Tls,
}

/// A policy as a shared row holds it, with how its gRPC backends are reached.
#[derive(Clone, Debug, PartialEq, Eq)]
pub struct SharedRoutePolicy {
    pub policy: HttpRoutePolicy,
    pub grpc_backend_transport: GrpcBackendTransport,
    pub grpc_backend_server_name: Option<String>,
    pub grpc_backend_trust_profile: Option<String>,
}

/// What a [`SharedRoutePolicy`] says.
pub struct SharedRoutePolicyModel {
    pub policy: HttpRoutePolicyModel,
    pub grpc_backend_transport: GrpcBackendTransport,
    pub grpc_backend_server_name: Option<Seq<char>>,
    pub grpc_backend_trust_profile: Option<Seq<char>>,
}

impl View for SharedRoutePolicy {
    type V = SharedRoutePolicyModel;

    open spec fn view(&self) -> SharedRoutePolicyModel {
        SharedRoutePolicyModel {
            policy: self.policy@,
            grpc_backend_transport: self.grpc_backend_transport,
            grpc_backend_server_name: opt_view(self.grpc_backend_server_name),
            grpc_backend_trust_profile: opt_view(self.grpc_backend_trust_profile),
        }
    }
}

/// A policy with the revision of its row.
pub struct HttpRouteSnapshot {
    pub policy: SharedRoutePolicy,
    pub revision: u128,
}

/// What a route from a shared row is granted.
#[derive(Clone, Debug, PartialEq, Eq)]
pub struct SharedRouteRuntimePolicy {
    pub policy: HttpRouteRuntimePolicy,
    pub grpc_backend: GrpcBackendRuntimeTransport,
}

/// How gRPC backends are reached. TLS needs the name of the server; without a
/// profile the system is trusted.
pub open spec fn grpc_transport_of(
    transport: GrpcBackendTransport,
    server_name: Option<Seq<char>>,
    trust_profile: Option<Seq<char>>,
) -> Option<TransportModel> {
    match transport {
        GrpcBackendTransport::H2c => Some(TransportModel::H2c),
        GrpcBackendTransport::Tls => match server_name {
            None => None,
            Some(server_name) => Some(
                TransportModel::Tls {
                    server_name,
                    trust: match trust_profile {
                        None => TrustModel::System,
                        Some(profile) => TrustModel::Profile(profile),
                    },
                },
            ),
        },
    }
}

/// How gRPC backends are reached, if that can be said.
pub fn grpc_backend_runtime(
    transport: GrpcBackendTransport,
    server_name: &Option<String>,
    trust_profile: &Option<String>,
) -> (r: Option<GrpcBackendRuntimeTransport>)
    ensures
        match grpc_transport_of(transport, opt_view(*server_name), opt_view(*trust_profile)) {
            None => r is None,
            Some(x) => r is Some && r->0@ == x,
        },
{
    match transport {
        GrpcBackendTransport::H2c => Some(GrpcBackendRuntimeTransport::H2c),
        GrpcBackendTransport::Tls => match server_name {
            None => None,
            Some(name) => {
                let trust = match trust_profile {
                    None => GrpcBackendTrust::System,
                    Some(profile) => GrpcBackendTrust::Profile(profile.clone()),
                };
                Some(
                    GrpcBackendRuntimeTransport::Tls(
                        GrpcBackendTlsPolicy { server_name: name.clone(), trust },
                    ),
                )
            },
        },
    }
}

/// Why a shared row was refused.
#[derive(Clone, Debug, PartialEq, Eq)]
pub enum RouteRowError {
    /// The identifier or the revision is none, and what the parser said of it.
    Identifier(String),
    IdentityMismatch,
    Invalid(CreateHttpRouteError),
    /// TLS towards gRPC backends without the name of a server.
    MissingServerName,
    NotCanonical,
}

/// What a [`RouteRowError`] says.
pub enum RouteRowErrorModel {
    Identifier(Seq<char>),
    IdentityMismatch,
    Invalid(CreateHttpRouteError),
    /// TLS towards gRPC backends without the name of a server.
    MissingServerName,
    NotCanonical,
}

impl View for RouteRowError {
    type V = RouteRowErrorModel;

    open spec fn view(&self) -> RouteRowErrorModel {
        match *self {
            RouteRowError::Identifier(text) => RouteRowErrorModel::Identifier(text@),
            RouteRowError::IdentityMismatch => RouteRowErrorModel::IdentityMismatch,
            RouteRowError::Invalid(error) => RouteRowErrorModel::Invalid(error),
            RouteRowError::MissingServerName => RouteRowErrorModel::MissingServerName,
            RouteRowError::NotCanonical => RouteRowErrorModel::NotCanonical,
        }
    }
}

impl RouteRowError {
    /// The text shown to operators.
    pub fn message(&self) -> (r: String)
        ensures
            r@ == match self@ {
                RouteRowErrorModel::Identifier(text) => text,
                RouteRowErrorModel::IdentityMismatch => "HTTP route row identity mismatch"@,
                RouteRowErrorModel::Invalid(CreateHttpRouteError::InvalidName) => {
                    "route name is invalid"@
                },
                RouteRowErrorModel::Invalid(CreateHttpRouteError::InvalidHostname) => {
                    "hostname is invalid"@
                },
                RouteRowErrorModel::Invalid(CreateHttpRouteError::DuplicateHostname) => {
                    "hostname is already assigned to another route"@
                },
                RouteRowErrorModel::Invalid(CreateHttpRouteError::InvalidTarget) => {
                    "target address is invalid"@
                },
                RouteRowErrorModel::Invalid(CreateHttpRouteError::InvalidConnectionLimit) => {
                    "connection limit is invalid"@
                },
                RouteRowErrorModel::MissingServerName => {
                    "gRPC backend TLS server name is invalid"@
                },
                RouteRowErrorModel::NotCanonical => "HTTP route row is not canonical"@,
            },
    {
        match self {
            RouteRowError::Identifier(text) => text.clone(),
            RouteRowError::IdentityMismatch => "HTTP route row identity mismatch".to_owned(),
            RouteRowError::Invalid(error) => error.message().to_owned(),
            RouteRowError::MissingServerName => {
                "gRPC backend TLS server name is invalid".to_owned()
            },
            RouteRowError::NotCanonical => "HTTP route row is not canonical".to_owned(),
        }
    }
}

/// A stored policy as a request for itself.
pub open spec fn request_for(p: HttpRoutePolicyModel) -> CreateHttpRoutePolicyModel {
    CreateHttpRoutePolicyModel {
        client_id: p.client_id,
        name: p.name,
        hostname: p.hostname,
        target_addr: p.target_addr,
        max_connections: Some(p.max_connections),
    }
}

/// What is wrong with a shared row. The identifier and the host name of the row
/// are those of the policy, the policy is the one that a request for it would
/// give, TLS towards gRPC backends names a server, and the revision is an
/// identifier.
pub open spec fn row_error(
    id: Seq<char>,
    hostname: Seq<char>,
    revision: Seq<char>,
    shared: SharedRoutePolicyModel,
    target_valid: bool,
) -> Option<RouteRowErrorModel> {
    let policy = shared.policy;
    match uuid_of(id) {
        None => Some(RouteRowErrorModel::Identifier(uuid_error(id))),
        Some(row_id) => if policy.id != row_id || policy.hostname != hostname {
            Some(RouteRowErrorModel::IdentityMismatch)
        } else {
            match policy_of(row_id, policy.enabled, request_for(policy), target_valid) {
                Err(error) => Some(RouteRowErrorModel::Invalid(error)),
                Ok(normalized) => if shared_transport(shared) is None {
                    Some(RouteRowErrorModel::MissingServerName)
                } else if normalized != policy {
                    Some(RouteRowErrorModel::NotCanonical)
                } else if uuid_of(revision) is None {
                    Some(RouteRowErrorModel::Identifier(uuid_error(revision)))
                } else {
                    None
                },
            }
        },
    }
}

/// How the gRPC backends of a shared policy are reached.
pub open spec fn shared_transport(shared: SharedRoutePolicyModel) -> Option<TransportModel> {
    grpc_transport_of(
        shared.grpc_backend_transport,
        shared.grpc_backend_server_name,
        shared.grpc_backend_trust_profile,
    )
}

/// A policy from a shared row, given the policy that the row holds.
pub fn decode_snapshot(
    id: &str,
    hostname: &str,
    revision: &str,
    shared: SharedRoutePolicy,
    target_valid: bool,
) -> (r: Result<HttpRouteSnapshot, RouteRowError>)
    ensures
        match row_error(id@, hostname@, revision@, shared@, target_valid) {
            Some(error) => r is Err && r->Err_0@ == error,
            None => r is Ok && r->Ok_0.policy@ == shared@ && uuid_of(revision@) == Some(
                r->Ok_0.revision,
            ),
        },
{
    let policy = &shared.policy;
    let row_id: u128 = match parse_uuid(id) {
        Ok(row_id) => row_id,
        Err(text) => {
            return Err(RouteRowError::Identifier(text));
        },
    };
    if policy.id != row_id || !same_text(policy.hostname.as_str(), hostname) {
        return Err(RouteRowError::IdentityMismatch);
    }
    let request = CreateHttpRoutePolicy {
        client_id: policy.client_id,
        name: policy.name.clone(),
        hostname: policy.hostname.clone(),
        target_addr: policy.target_addr.clone(),
        max_connections: Some(policy.max_connections),
    };
    let normalized = match requested_policy(row_id, policy.enabled, &request, target_valid) {
        Ok(normalized) => normalized,
        Err(error) => {
            return Err(RouteRowError::Invalid(error));
        },
    };
    let transport = grpc_backend_runtime(
        shared.grpc_backend_transport,
        &shared.grpc_backend_server_name,
        &shared.grpc_backend_trust_profile,
    );
    if transport.is_none() {
        return Err(RouteRowError::MissingServerName);
    }
    if !(normalized.client_id == policy.client_id && normalized.name == policy.name
        && normalized.hostname == policy.hostname && normalized.target_addr == policy.target_addr
        && normalized.max_connections == policy.max_connections) {
        return Err(RouteRowError::NotCanonical);
    }
    match parse_uuid(revision) {
        Ok(revision) => Ok(HttpRouteSnapshot { policy: shared, revision }),
        Err(text) => Err(RouteRowError::Identifier(text)),
    }
}

/// Whether a registration is the one that an enabled policy allows. The policy is
/// the one of the host name.
pub open spec fn registration_matches(
    p: HttpRoutePolicyModel,
    client_id: u128,
    name: Seq<char>,
    target_addr: Seq<char>,
) -> bool {
    p.enabled && p.client_id == client_id && p.name == name && p.target_addr == target_addr
}

impl HttpRouteSnapshot {
    /// What a registration for the host name of this policy is granted.
    pub fn runtime_policy(&self, client_id: u128, name: &str, target_addr: &str) -> (r: Result<
        Option<SharedRouteRuntimePolicy>,
        RouteRowError,
    >)
        ensures
            if !registration_matches(self.policy@.policy, client_id, name@, target_addr@) {
                r is Ok && r->Ok_0 is None
            } else {
                match shared_transport(self.policy@) {
                    None => r is Err && r->Err_0@ == RouteRowErrorModel::MissingServerName,
                    Some(transport) => r is Ok && r->Ok_0 is Some && r->Ok_0->0.policy == (
                    HttpRouteRuntimePolicy {
                        policy_id: self.policy@.policy.id,
                        max_connections: self.policy@.policy.max_connections as usize,
                    }) && r->Ok_0->0.grpc_backend@ == transport,
                }
            },
    {
        let policy = &self.policy.policy;
        if !policy.enabled || policy.client_id != client_id || !same_text(
            policy.name.as_str(),
            name,
        ) || !same_text(policy.target_addr.as_str(), target_addr) {
            return Ok(None);
        }
        let granted = HttpRouteRuntimePolicy {
            policy_id: policy.id,
            max_connections: policy.max_connections as usize,
        };
        match grpc_backend_runtime(
            self.policy.grpc_backend_transport,
            &self.policy.grpc_backend_server_name,
            &self.policy.grpc_backend_trust_profile,
        ) {
            Some(grpc_backend) => Ok(
                Some(SharedRouteRuntimePolicy { policy: granted, grpc_backend }),
            ),
            None => Err(RouteRowError::MissingServerName),
        }
    }
}

// ---------------------------------------------------------------------------
// The origin of a route
// ---------------------------------------------------------------------------

/// The authority under which the backend connections of a route are pooled.
pub open spec fn route_authority(hostname: Seq<char>) -> Seq<char> {
    hostname + ":80"@
}

/// The origin under which the gRPC connections of a route are pooled.
pub fn route_origin(policy_id: u128, hostname: &str) -> (r: Result<OriginKey, OriginKeyError>)
    ensures
        match canonical_authority(route_authority(hostname@)) {
            Some(authority) => r is Ok && r->Ok_0@ == (OriginModel {
                policy_id,
                authority,
                protocol: BackendProtocol::Http2,
                security: SecurityModel::Plaintext,
            }),
            None => r == Err::<OriginKey, OriginKeyError>(OriginKeyError::InvalidAuthority),
        },
{
    let mut authority = hostname.to_owned();
    authority.append(":80");
    OriginKey::new(policy_id, authority.as_str(), BackendProtocol::Http2, BackendSecurity::Plaintext)
}

// ---------------------------------------------------------------------------
// Laws
// ---------------------------------------------------------------------------

proof fn lemma_without_port(s: Seq<char>)
    ensures
        without_port(s).len() <= s.len(),
        without_port(s) == s.take(without_port(s).len() as int),
{
    lemma_last_index(s, ':');
    assert(s.take(s.len() as int) =~= s);
}

/// What a host name is made of.
proof fn lemma_hostname_shape(value: Seq<char>)
    requires
        hostname_of(value) is Some,
    ensures
        ({
            let h = hostname_of(value)->0;
            &&& 0 < h.len() <= 253
            &&& valid_labels(h)
            &&& ip_address(h) is None
            &&& h.contains('.')
            &&& h.last() != '.'
            &&& crate::text::all_ascii(h)
            &&& forall|i: int|
                0 <= i < h.len() ==> {
                    &&& ascii_alphanumeric(#[trigger] h[i]) || h[i] == '-' || h[i] == '.'
                    &&& lower_char(h[i]) == h[i]
                }
        }),
{
    let s = lower(trim(value));
    let w = without_port(s);
    let h = trim_end_char(w, '.');
    lemma_without_port(s);
    crate::text::lemma_trim_end_char(w, '.');
    assert(h =~= s.take(h.len() as int));
    crate::text::lemma_utf8_len_mono(s, h.len() as int);
    crate::text::lemma_utf8_len_bounds(h);
    crate::host_name::lemma_label_chars(h);
    assert forall|i: int| 0 <= i < h.len() implies {
        &&& ascii_alphanumeric(#[trigger] h[i]) || h[i] == '-' || h[i] == '.'
        &&& lower_char(h[i]) == h[i]
    } by {
        assert(h[i] == s[i]);
        assert(s[i] == lower_char(trim(value)[i]));
    }
}

/// Normalizing a host name again changes nothing.
pub proof fn law_hostname_normalization_is_idempotent(value: Seq<char>)
    requires
        hostname_of(value) is Some,
    ensures
        hostname_of(hostname_of(value)->0) == hostname_of(value),
{
    let h = hostname_of(value)->0;
    lemma_hostname_shape(value);
    assert(!white_space(h[0]) && !white_space(h.last()));
    crate::text::lemma_trim_fixed(h);
    assert(lower(h) =~= h);
    crate::text::lemma_utf8_len_ascii(h);
    lemma_last_index(h, ':');
    assert(without_port(h) == h);
    assert(trim_end_char(h, '.') == h);
    assert forall|i: int| 0 <= i < h.len() implies !hostname_breaker(#[trigger] h[i]) by {
        assert(ascii_alphanumeric(h[i]) || h[i] == '-' || h[i] == '.');
    }
}

/// The text that two routes are told apart by does not depend on its case, a
/// port or a trailing dot: equal normal forms are what duplicates are found by.
pub proof fn law_equal_host_names_are_duplicates(
    s: Seq<HttpRoutePolicyModel>,
    id: u128,
    request: CreateHttpRoutePolicyModel,
    target_valid: bool,
    i: int,
)
    requires
        0 <= i < s.len(),
        hostname_of(request.hostname) == Some(s[i].hostname),
    ensures
        policy_created(s, id, request, target_valid) is Err,
{
    if policy_of(id, true, request, target_valid) is Ok {
        assert(s[i].hostname == policy_of(id, true, request, target_valid)->Ok_0.hostname);
    }
}

proof fn lemma_eighty()
    ensures
        ":80"@ =~= seq![':'] + crate::number::decimal(80),
        parsed_number(seq!['8', '0'], 10, 65535) == Some(80nat),
{
    reveal_strlit(":80");
    reveal_with_fuel(crate::number::numeral, 3);
    crate::number::law_decimal_reads_back(80, 65535);
    assert(crate::number::decimal(80) =~= seq!['8', '0']);
    assert(seq![':'] + crate::number::decimal(80) =~= ":80"@);
}

/// A normalized host name of at most 252 characters forms a backend origin, and
/// its authority is the host name with port 80.
pub proof fn law_host_names_form_backend_origins(value: Seq<char>)
    requires
        hostname_of(value) is Some,
        hostname_of(value)->0.len() <= 252,
    ensures
        canonical_authority(route_authority(hostname_of(value)->0)) == Some(
            route_authority(hostname_of(value)->0),
        ),
{
    let h = hostname_of(value)->0;
    lemma_hostname_shape(value);
    lemma_eighty();
    let s = route_authority(h);
    reveal_strlit(":80");
    assert(s.len() == h.len() + 3);
    assert(s[h.len() as int] == ':');
    assert(s[h.len() as int + 1] == '8');
    assert(s[h.len() as int + 2] == '0');
    assert(forall|i: int| 0 <= i < h.len() ==> s[i] == h[i]);
    assert(!white_space(s[0]) && !white_space(s.last()));
    crate::text::lemma_trim_fixed(s);
    assert(crate::text::all_ascii(s));
    crate::text::lemma_utf8_len_ascii(s);
    assert forall|i: int| 0 <= i < s.len() implies !crate::http_backend_pool::authority_breaker(
        #[trigger] s[i],
    ) by {
        if i < h.len() {
            assert(ascii_alphanumeric(h[i]) || h[i] == '-' || h[i] == '.');
        }
    }
    crate::text::lemma_last_index_unique(s, ':', h.len() as int);
    assert(s.take(h.len() as int) =~= h);
    assert(s.skip(h.len() as int + 1) =~= seq!['8', '0']);
    assert(!h.contains(':'));
    assert(crate::ip_address::socket_v4(s) is None);
    assert(s[0] != '[');
    assert(crate::ip_address::socket_v6(s) is None);
    assert(trim_end_char(h, '.') == h);
    assert(lower(h) =~= h);
    assert(dns_name(h) == Some(h));
    assert(h + seq![':'] + crate::number::decimal(80) =~= s);
}

/// A policy that a request gave is the policy that a request for it gives: what
/// is stored is canonical.
pub proof fn law_stored_policies_are_canonical(
    id: u128,
    enabled: bool,
    request: CreateHttpRoutePolicyModel,
)
    requires
        policy_of(id, enabled, request, true) is Ok,
    ensures
        ({
            let policy = policy_of(id, enabled, request, true)->Ok_0;
            policy_of(id, enabled, request_for(policy), true) == Ok::<
                HttpRoutePolicyModel,
                CreateHttpRouteError,
            >(policy)
        }),
{
    law_hostname_normalization_is_idempotent(request.hostname);
    crate::text::lemma_trim_idempotent(request.name);
    crate::text::lemma_trim_idempotent(request.target_addr);
    crate::text::lemma_utf8_len_trim(request.name);
    crate::text::lemma_utf8_len_trim(request.target_addr);
}

/// A shared row that was written for a policy is accepted: the row reads back
/// the policy and its revision.
pub proof fn law_written_rows_are_accepted(
    id: u128,
    enabled: bool,
    request: CreateHttpRoutePolicyModel,
    shared: SharedRoutePolicyModel,
    revision: u128,
)
    requires
        policy_of(id, enabled, request, true) == Ok::<HttpRoutePolicyModel, CreateHttpRouteError>(
            shared.policy,
        ),
        shared_transport(shared) is Some,
    ensures
        row_error(
            crate::uuids::hyphenated(id),
            shared.policy.hostname,
            crate::uuids::hyphenated(revision),
            shared,
            true,
        ) is None,
{
    crate::uuids::law_written_identifier_reads_back(id);
    crate::uuids::law_written_identifier_reads_back(revision);
    law_stored_policies_are_canonical(id, enabled, request);
}

/// No accepted row has TLS towards gRPC backends without the name of a server, so
/// a registration that a row allows is granted a transport.
pub proof fn law_accepted_rows_have_a_transport(
    id: Seq<char>,
    hostname: Seq<char>,
    revision: Seq<char>,
    shared: SharedRoutePolicyModel,
    target_valid: bool,
)
    requires
        row_error(id, hostname, revision, shared, target_valid) is None,
    ensures
        shared_transport(shared) is Some,
        shared.grpc_backend_transport is Tls ==> shared.grpc_backend_server_name is Some,
{
}

/// Whether no two policies share a host name and the policies are in the order
/// of their host names.
pub open spec fn in_hostname_order(s: Seq<HttpRoutePolicyModel>) -> bool {
    forall|i: int, j: int|
        0 <= i < j < s.len() ==> lex_less((#[trigger] s[i]).hostname, (#[trigger] s[j]).hostname)
}

proof fn lemma_hostname_position(s: Seq<HttpRoutePolicyModel>, hostname: Seq<char>)
    requires
        in_hostname_order(s),
        forall|i: int| 0 <= i < s.len() ==> (#[trigger] s[i]).hostname != hostname,
    ensures
        0 <= hostname_position(s, hostname) <= s.len(),
        forall|i: int|
            0 <= i < hostname_position(s, hostname) ==> lex_less(
                (#[trigger] s[i]).hostname,
                hostname,
            ),
        forall|i: int|
            hostname_position(s, hostname) <= i < s.len() ==> lex_less(
                hostname,
                (#[trigger] s[i]).hostname,
            ),
    decreases s.len(),
{
    if s.len() == 0 {
    } else if lex_less(hostname, s[0].hostname) {
        assert forall|i: int| 0 <= i < s.len() implies lex_less(
            hostname,
            (#[trigger] s[i]).hostname,
        ) by {
            if i > 0 {
                crate::text::lemma_lex_transitive(hostname, s[0].hostname, s[i].hostname);
            }
        }
    } else {
        let t = s.drop_first();
        assert(forall|i: int| 0 <= i < t.len() ==> t[i] == s[i + 1]);
        assert(in_hostname_order(t));
        assert forall|i: int| 0 <= i < t.len() implies (#[trigger] t[i]).hostname != hostname by {
            assert(s[i + 1].hostname != hostname);
        }
        lemma_hostname_position(t, hostname);
        crate::text::lemma_lex_total(s[0].hostname, hostname);
        assert(s[0].hostname != hostname);
        assert forall|i: int| 0 <= i < hostname_position(s, hostname) implies lex_less(
            (#[trigger] s[i]).hostname,
            hostname,
        ) by {
            if i > 0 {
                assert(lex_less(t[i - 1].hostname, hostname));
            }
        }
        assert forall|i: int| hostname_position(s, hostname) <= i < s.len() implies lex_less(
            hostname,
            (#[trigger] s[i]).hostname,
        ) by {
            assert(lex_less(hostname, t[i - 1].hostname));
        }
    }
}

proof fn lemma_with_policy_order(s: Seq<HttpRoutePolicyModel>, policy: HttpRoutePolicyModel)
    requires
        in_hostname_order(s),
        forall|i: int| 0 <= i < s.len() ==> (#[trigger] s[i]).hostname != policy.hostname,
    ensures
        in_hostname_order(with_policy(s, policy)),
{
    lemma_hostname_position(s, policy.hostname);
    let at = hostname_position(s, policy.hostname);
    let r = with_policy(s, policy);
    assert forall|i: int, j: int| 0 <= i < j < r.len() implies lex_less(
        (#[trigger] r[i]).hostname,
        (#[trigger] r[j]).hostname,
    ) by {
        let a = if i < at {
            i
        } else {
            i - 1
        };
        let b = if j < at {
            j
        } else {
            j - 1
        };
        if i != at {
            assert(r[i] == s[a]);
        }
        if j != at {
            assert(r[j] == s[b]);
        }
    }
}

/// Adding and replacing policies keeps them in the order of their host names,
/// each host name once.
pub proof fn law_the_catalog_stays_in_order(
    s: Seq<HttpRoutePolicyModel>,
    id: u128,
    request: CreateHttpRoutePolicyModel,
    target_valid: bool,
)
    requires
        in_hostname_order(s),
        forall|i: int, j: int| 0 <= i < j < s.len() ==> (#[trigger] s[i]).id != (#[trigger] s[j]).id,
    ensures
        policy_created(s, id, request, target_valid) matches Ok((after, _)) ==> in_hostname_order(
            after,
        ),
        policy_updated(s, id, request, target_valid) matches Ok((after, _)) ==> in_hostname_order(
            after,
        ),
{
    if policy_of(id, true, request, target_valid) is Ok {
        let valid = policy_of(id, true, request, target_valid)->Ok_0;
        if policy_created(s, id, request, target_valid) is Ok {
            lemma_with_policy_order(s, valid);
        }
        let i = first_id(policy_ids(s), id);
        lemma_first_id(policy_ids(s), id);
        if i < s.len() && !hostname_taken(s, valid.hostname, id) {
            let rest = s.remove(i);
            let policy = HttpRoutePolicyModel { enabled: s[i].enabled, ..valid };
            assert forall|a: int, b: int| 0 <= a < b < rest.len() implies lex_less(
                (#[trigger] rest[a]).hostname,
                (#[trigger] rest[b]).hostname,
            ) by {
                let x = if a < i {
                    a
                } else {
                    a + 1
                };
                let y = if b < i {
                    b
                } else {
                    b + 1
                };
                assert(lex_less(s[x].hostname, s[y].hostname));
            }
            assert forall|a: int| 0 <= a < rest.len() implies (#[trigger] rest[a]).hostname
                != policy.hostname by {
                let x = if a < i {
                    a
                } else {
                    a + 1
                };
                assert(rest[a] == s[x]);
                assert(policy_ids(s)[i] == id);
                assert(s[x].id != s[i].id);
            }
            lemma_with_policy_order(rest, policy);
        }
    }
}

/// A registration is granted something exactly if a policy anywhere in the catalog
/// is enabled and has its client, its name, its host name and its target, and what
/// it is granted is the identifier and the limit of such a policy.
pub proof fn law_registrations_are_granted_by_their_policy(
    s: Seq<HttpRoutePolicyModel>,
    client_id: u128,
    name: Seq<char>,
    hostname: Seq<char>,
    target_addr: Seq<char>,
)
    ensures
        granted(s, client_id, name, hostname, target_addr) is Some <==> exists|i: int|
            0 <= i < s.len() && (#[trigger] s[i]).enabled && s[i].client_id == client_id
                && s[i].name == name && s[i].hostname == hostname && s[i].target_addr
                == target_addr,
        granted(s, client_id, name, hostname, target_addr) is Some ==> exists|i: int|
            0 <= i < s.len() && (#[trigger] s[i]).enabled && s[i].client_id == client_id
                && s[i].name == name && s[i].hostname == hostname && s[i].target_addr
                == target_addr && granted(s, client_id, name, hostname, target_addr)->0.policy_id
                == s[i].id && granted(
                s,
                client_id,
                name,
                hostname,
                target_addr,
            )->0.max_connections == s[i].max_connections,
    decreases s.len(),
{
    if s.len() > 0 {
        let t = s.drop_first();
        law_registrations_are_granted_by_their_policy(t, client_id, name, hostname, target_addr);
        if s[0].client_id == client_id && s[0].name == name && s[0].hostname == hostname
            && s[0].target_addr == target_addr && s[0].enabled {
            assert(s[0].enabled);
        } else {
            assert(forall|i: int| 0 <= i < t.len() ==> t[i] == s[i + 1]);
            assert forall|i: int|
                0 <= i < s.len() && (#[trigger] s[i]).enabled && s[i].client_id == client_id
                    && s[i].name == name && s[i].hostname == hostname && s[i].target_addr
                    == target_addr implies granted(t, client_id, name, hostname, target_addr) is Some by {
                assert(t[i - 1].enabled);
            }
            if granted(t, client_id, name, hostname, target_addr) is Some {
                let g = granted(t, client_id, name, hostname, target_addr)->0;
                let i = choose|i: int|
                    0 <= i < t.len() && (#[trigger] t[i]).enabled && t[i].client_id == client_id
                        && t[i].name == name && t[i].hostname == hostname && t[i].target_addr
                        == target_addr && g.policy_id == t[i].id && g.max_connections
                        == t[i].max_connections;
                assert(s[i + 1].enabled);
            }
        }
    }
}

/// A request gives a policy exactly if its host name is valid, its name has 1 to 80
/// bytes and is not blank, its target is valid and short, and its limit, 64 where
/// it names none, is between 1 and 1024. The policy says what was asked for.
pub proof fn law_valid_requests_give_their_policy(
    id: u128,
    enabled: bool,
    request: CreateHttpRoutePolicyModel,
    target_valid: bool,
)
    ensures
        ({
            let limit = match request.max_connections {
                Some(n) => n as int,
                None => 64,
            };
            let r = policy_of(id, enabled, request, target_valid);
            &&& r is Ok <==> {
                &&& hostname_of(request.hostname) is Some
                &&& trim(request.name).len() > 0
                &&& utf8_len(request.name) <= 80
                &&& target_valid
                &&& utf8_len(request.target_addr) <= 4096
                &&& 1 <= limit <= 1024
            }
            &&& r is Ok ==> {
                let p = r->Ok_0;
                &&& p.id == id
                &&& p.client_id == request.client_id
                &&& p.name == trim(request.name)
                &&& hostname_of(request.hostname) == Some(p.hostname)
                &&& p.target_addr == trim(request.target_addr)
                &&& p.max_connections == limit
                &&& p.enabled == enabled
            }
            &&& hostname_of(request.hostname) is None <==> r == Err::<
                HttpRoutePolicyModel,
                CreateHttpRouteError,
            >(CreateHttpRouteError::InvalidHostname)
            &&& r == Err::<HttpRoutePolicyModel, CreateHttpRouteError>(
                CreateHttpRouteError::InvalidName,
            ) ==> trim(request.name).len() == 0 || utf8_len(request.name) > 80
            &&& r == Err::<HttpRoutePolicyModel, CreateHttpRouteError>(
                CreateHttpRouteError::InvalidTarget,
            ) ==> !target_valid || utf8_len(request.target_addr) > 4096
            &&& r == Err::<HttpRoutePolicyModel, CreateHttpRouteError>(
                CreateHttpRouteError::InvalidConnectionLimit,
            ) ==> !(1 <= limit <= 1024)
            &&& r != Err::<HttpRoutePolicyModel, CreateHttpRouteError>(
                CreateHttpRouteError::DuplicateHostname,
            )
        }),
{
}

proof fn lemma_hostname_position_bounds(s: Seq<HttpRoutePolicyModel>, hostname: Seq<char>)
    ensures
        0 <= hostname_position(s, hostname) <= s.len(),
    decreases s.len(),
{
    if s.len() > 0 && !lex_less(hostname, s[0].hostname) {
        lemma_hostname_position_bounds(s.drop_first(), hostname);
    }
}

proof fn lemma_with_policy(s: Seq<HttpRoutePolicyModel>, p: HttpRoutePolicyModel)
    ensures
        with_policy(s, p).len() == s.len() + 1,
        with_policy(s, p).contains(p),
        forall|i: int| 0 <= i < s.len() ==> with_policy(s, p).contains(#[trigger] s[i]),
        forall|i: int|
            0 <= i < with_policy(s, p).len() ==> #[trigger] with_policy(s, p)[i] == p
                || s.contains(with_policy(s, p)[i]),
{
    lemma_hostname_position_bounds(s, p.hostname);
    let at = hostname_position(s, p.hostname);
    let r = with_policy(s, p);
    assert(r[at] == p);
    assert forall|i: int| 0 <= i < s.len() implies r.contains(#[trigger] s[i]) by {
        let k = if i < at {
            i
        } else {
            i + 1
        };
        assert(r[k] == s[i]);
    }
    assert forall|i: int| 0 <= i < r.len() implies #[trigger] r[i] == p || s.contains(r[i]) by {
        if i != at {
            let k = if i < at {
                i
            } else {
                i - 1
            };
            assert(s[k] == r[i]);
        }
    }
}

/// A policy is added exactly if the request is valid and no policy has its host
/// name. It is enabled, and no other policy changes.
pub proof fn law_policies_are_added_beside_the_others(
    s: Seq<HttpRoutePolicyModel>,
    id: u128,
    request: CreateHttpRoutePolicyModel,
    target_valid: bool,
)
    ensures
        ({
            let asked = policy_of(id, true, request, target_valid);
            let r = policy_created(s, id, request, target_valid);
            let taken = asked is Ok && exists|i: int|
                0 <= i < s.len() && (#[trigger] s[i]).hostname == asked->Ok_0.hostname;
            &&& r is Ok <==> asked is Ok && !taken
            &&& taken ==> r->Err_0 == CreateHttpRouteError::DuplicateHostname
            &&& asked is Err ==> r is Err && r->Err_0 == asked->Err_0
            &&& r is Ok ==> {
                let (after, policy) = r->Ok_0;
                &&& policy == asked->Ok_0
                &&& policy.enabled
                &&& after.len() == s.len() + 1
                &&& after.contains(policy)
                &&& forall|i: int| 0 <= i < s.len() ==> after.contains(#[trigger] s[i])
                &&& forall|i: int|
                    0 <= i < after.len() ==> #[trigger] after[i] == policy || s.contains(after[i])
            }
        }),
{
    let asked = policy_of(id, true, request, target_valid);
    if asked is Ok {
        lemma_with_policy(s, asked->Ok_0);
    }
}

/// Replacing a policy changes that policy only. It keeps its identifier and whether
/// it is enabled; without a policy nothing happens, and a host name of another one
/// is refused.
pub proof fn law_policies_are_replaced_in_place(
    s: Seq<HttpRoutePolicyModel>,
    id: u128,
    request: CreateHttpRoutePolicyModel,
    target_valid: bool,
    at: int,
)
    requires
        0 <= at < s.len(),
        forall|i: int| 0 <= i < s.len() ==> ((#[trigger] s[i]).id == id <==> i == at),
    ensures
        ({
            let asked = policy_of(id, true, request, target_valid);
            let r = policy_updated(s, id, request, target_valid);
            let taken = asked is Ok && exists|i: int|
                0 <= i < s.len() && i != at && (#[trigger] s[i]).hostname
                    == asked->Ok_0.hostname;
            &&& r is Ok <==> asked is Ok && !taken
            &&& taken ==> r->Err_0 == CreateHttpRouteError::DuplicateHostname
            &&& asked is Err ==> r is Err && r->Err_0 == asked->Err_0
            &&& r is Ok ==> {
                let (after, policy) = r->Ok_0;
                &&& policy is Some
                &&& policy->0.id == id
                &&& policy->0.enabled == s[at].enabled
                &&& policy->0.client_id == request.client_id
                &&& policy->0.name == trim(request.name)
                &&& hostname_of(request.hostname) == Some(policy->0.hostname)
                &&& policy->0.target_addr == trim(request.target_addr)
                &&& policy->0.max_connections == asked->Ok_0.max_connections
                &&& after.len() == s.len()
                &&& after.contains(policy->0)
                &&& forall|i: int| 0 <= i < s.len() && i != at ==> after.contains(#[trigger] s[i])
                &&& forall|i: int|
                    0 <= i < after.len() ==> #[trigger] after[i] == policy->0 || s.contains(
                        after[i],
                    )
            }
        }),
{
    let ids = policy_ids(s);
    assert forall|j: int| 0 <= j < at implies ids[j] != id by {
        assert(ids[j] == s[j].id);
    }
    assert(ids[at] == s[at].id);
    lemma_first_id_unique(ids, id, at);
    let asked = policy_of(id, true, request, target_valid);
    if asked is Ok {
        let valid = asked->Ok_0;
        let policy = HttpRoutePolicyModel { enabled: s[at].enabled, ..valid };
        let rest = s.remove(at);
        lemma_with_policy(rest, policy);
        let after = with_policy(rest, policy);
        if hostname_taken(s, valid.hostname, id) {
            let i = choose|i: int|
                0 <= i < s.len() && (#[trigger] s[i]).hostname == valid.hostname && s[i].id != id;
            assert(i != at);
        }
        assert forall|i: int| 0 <= i < s.len() && i != at implies after.contains(#[trigger] s[i]) by {
            let k = if i < at {
                i
            } else {
                i - 1
            };
            assert(rest[k] == s[i]);
        }
        assert forall|i: int| 0 <= i < after.len() implies #[trigger] after[i] == policy
            || s.contains(after[i]) by {
            if after[i] != policy {
                let k = choose|k: int| 0 <= k < rest.len() && rest[k] == after[i];
                assert(s[if k < at {
                    k
                } else {
                    k + 1
                }] == after[i]);
            }
        }
    }
}

/// A valid update of a policy that is not there changes nothing.
pub proof fn law_missing_policies_are_not_replaced(
    s: Seq<HttpRoutePolicyModel>,
    id: u128,
    request: CreateHttpRoutePolicyModel,
    target_valid: bool,
)
    requires
        forall|i: int| 0 <= i < s.len() ==> (#[trigger] s[i]).id != id,
    ensures
        find_policy(s, id) is None,
        policy_of(id, true, request, target_valid) is Ok ==> policy_updated(
            s,
            id,
            request,
            target_valid,
        ) == Ok::<
            (Seq<HttpRoutePolicyModel>, Option<HttpRoutePolicyModel>),
            CreateHttpRouteError,
        >((s, None)),
{
    let ids = policy_ids(s);
    assert forall|j: int| 0 <= j < s.len() implies ids[j] != id by {
        assert(ids[j] == s[j].id);
    }
    lemma_first_id_unique(ids, id, s.len() as int);
}

/// A policy is found by its identifier wherever it stands.
pub proof fn law_policies_are_found_by_identifier(s: Seq<HttpRoutePolicyModel>, at: int)
    requires
        0 <= at < s.len(),
        forall|i: int| 0 <= i < at ==> (#[trigger] s[i]).id != s[at].id,
    ensures
        find_policy(s, s[at].id) == Some(s[at]),
{
    let ids = policy_ids(s);
    assert forall|j: int| 0 <= j < at implies ids[j] != s[at].id by {
        assert(ids[j] == s[j].id);
    }
    lemma_first_id_unique(ids, s[at].id, at);
}

/// The policy that was just added grants the registration that it names; disabled
/// it grants nothing, and neither does a catalog without it.
pub proof fn law_added_policies_grant_their_registration(
    s: Seq<HttpRoutePolicyModel>,
    id: u128,
    request: CreateHttpRoutePolicyModel,
    target_valid: bool,
)
    requires
        policy_created(s, id, request, target_valid) is Ok,
    ensures
        ({
            let (after, p) = policy_created(s, id, request, target_valid)->Ok_0;
            &&& granted(after, p.client_id, p.name, p.hostname, p.target_addr) == Some(
                HttpRouteRuntimePolicy {
                    policy_id: id,
                    max_connections: p.max_connections as usize,
                },
            )
            &&& granted(s, p.client_id, p.name, p.hostname, p.target_addr) is None
        }),
{
    let (after, p) = policy_created(s, id, request, target_valid)->Ok_0;
    law_registrations_are_granted_by_their_policy(
        after,
        p.client_id,
        p.name,
        p.hostname,
        p.target_addr,
    );
    law_registrations_are_granted_by_their_policy(s, p.client_id, p.name, p.hostname, p.target_addr);
    lemma_with_policy(s, p);
    let k = choose|k: int| 0 <= k < after.len() && after[k] == p;
    assert(after[k].enabled);
    let g = granted(after, p.client_id, p.name, p.hostname, p.target_addr)->0;
    let i = choose|i: int|
        0 <= i < after.len() && (#[trigger] after[i]).enabled && after[i].client_id == p.client_id
            && after[i].name == p.name && after[i].hostname == p.hostname && after[i].target_addr
            == p.target_addr && g.policy_id == after[i].id && g.max_connections
            == after[i].max_connections;
    if after[i] != p {
        assert(s.contains(after[i]));
        let j = choose|j: int| 0 <= j < s.len() && s[j] == after[i];
        assert(s[j].hostname == p.hostname);
    }
}

/// A normal host name has labels of letters, digits and inner hyphens in lower case,
/// at least two of them, at most 253 characters, no port, and is no IP address.
pub proof fn law_host_names_are_normal(value: Seq<char>)
    requires
        hostname_of(value) is Some,
    ensures
        ({
            let h = hostname_of(value)->0;
            &&& 3 <= h.len() <= 253
            &&& valid_labels(h)
            &&& ip_address(h) is None
            &&& h.contains('.')
            &&& h[0] != '.' && h.last() != '.'
            &&& forall|i: int|
                0 <= i < h.len() ==> 'a' <= (#[trigger] h[i]) <= 'z' || '0' <= h[i] <= '9' || h[i]
                    == '-' || h[i] == '.'
        }),
{
    let h = hostname_of(value)->0;
    lemma_hostname_shape(value);
    crate::host_name::lemma_label_chars(h);
    let k = choose|k: int| 0 <= k < h.len() && h[k] == '.';
    assert(k != 0 && k != h.len() - 1);
    assert forall|i: int| 0 <= i < h.len() implies 'a' <= (#[trigger] h[i]) <= 'z' || '0' <= h[i]
        <= '9' || h[i] == '-' || h[i] == '.' by {
        assert(ascii_alphanumeric(h[i]) || h[i] == '-' || h[i] == '.');
        assert(lower_char(h[i]) == h[i]);
    }
}

proof fn lemma_normal_chars(h: Seq<char>)
    requires
        valid_labels(h),
        forall|i: int|
            0 <= i < h.len() ==> 'a' <= (#[trigger] h[i]) <= 'z' || '0' <= h[i] <= '9' || h[i]
                == '-' || h[i] == '.',
    ensures
        h.len() > 0,
        lower(h) == h,
        !h.contains(':'),
        h.last() != '.',
        crate::text::all_ascii(h),
        forall|i: int|
            0 <= i < h.len() ==> !hostname_breaker(#[trigger] h[i]) && !white_space(h[i]),
{
    crate::host_name::lemma_label_chars(h);
    assert forall|i: int| 0 <= i < h.len() implies !hostname_breaker(#[trigger] h[i])
        && !white_space(h[i]) && lower_char(h[i]) == h[i] && h[i] <= '\u{7f}' by {
        assert('a' <= h[i] <= 'z' || '0' <= h[i] <= '9' || h[i] == '-' || h[i] == '.');
    }
    assert(lower(h) =~= h);
}

/// A name in normal form denotes itself, also with a trailing dot, and also with a
/// port behind it, as long as the text is no longer than 253 characters.
pub proof fn law_normal_host_names_denote_themselves(h: Seq<char>, port: nat)
    requires
        valid_labels(h),
        h.len() <= 253,
        h.contains('.'),
        ip_address(h) is None,
        forall|i: int|
            0 <= i < h.len() ==> 'a' <= (#[trigger] h[i]) <= 'z' || '0' <= h[i] <= '9' || h[i]
                == '-' || h[i] == '.',
        1 <= port <= 65535,
    ensures
        hostname_of(h) == Some(h),
        h.len() < 253 ==> hostname_of(h.push('.')) == Some(h),
        (h + seq![':'] + crate::number::decimal(port)).len() <= 253 ==> hostname_of(
            h + seq![':'] + crate::number::decimal(port),
        ) == Some(h),
{
    lemma_normal_chars(h);
    crate::text::lemma_trim_fixed(h);
    crate::text::lemma_utf8_len_ascii(h);
    lemma_last_index(h, ':');
    assert(without_port(h) == h);
    assert(trim_end_char(h, '.') == h);
    let d = h.push('.');
    if h.len() < 253 {
        assert(d[0] == h[0]);
        crate::text::lemma_trim_fixed(d);
        assert forall|i: int| 0 <= i < d.len() implies lower_char(#[trigger] d[i]) == d[i] && d[i]
            <= '\u{7f}' && !hostname_breaker(d[i]) && d[i] != ':' by {
            if i < h.len() {
                assert(d[i] == h[i]);
                assert('a' <= h[i] <= 'z' || '0' <= h[i] <= '9' || h[i] == '-' || h[i] == '.');
            }
        }
        assert(lower(d) =~= d);
        crate::text::lemma_utf8_len_ascii(d);
        lemma_last_index(d, ':');
        assert(without_port(d) == d);
        assert(d.drop_last() =~= h);
        assert(trim_end_char(d, '.') == h);
    }
    let n = crate::number::decimal(port);
    let p = h + seq![':'] + n;
    crate::number::lemma_numeral(port, 10);
    crate::number::law_decimal_reads_back(port, 65535);
    if p.len() <= 253 {
        assert forall|i: int| 0 <= i < p.len() implies lower_char(#[trigger] p[i]) == p[i] && p[i]
            <= '\u{7f}' && !hostname_breaker(p[i]) && !white_space(p[i]) && (p[i] == ':' <==> i
            == h.len()) by {
            if i < h.len() {
                assert(p[i] == h[i]);
                assert('a' <= h[i] <= 'z' || '0' <= h[i] <= '9' || h[i] == '-' || h[i] == '.');
            } else if i > h.len() {
                assert(p[i] == n[i - h.len() - 1]);
                assert(crate::number::digit_value(n[i - h.len() - 1]) < 10);
            }
        }
        assert(lower(p) =~= p);
        crate::text::lemma_trim_fixed(p);
        crate::text::lemma_utf8_len_ascii(p);
        crate::text::lemma_last_index_unique(p, ':', h.len() as int);
        assert(p.take(h.len() as int) =~= h);
        assert(p.skip(h.len() as int + 1) =~= n);
        assert(without_port(p) == h);
    }
}

/// The case of letters and white space around a host name do not matter.
pub proof fn law_host_names_ignore_case(value: Seq<char>)
    ensures
        hostname_of(trim(value)) == hostname_of(value),
        hostname_of(lower(trim(value))) == hostname_of(value),
{
    let t = trim(value);
    crate::text::lemma_trim_idempotent(value);
    crate::text::lemma_trim_shape(value);
    crate::text::lemma_lower_idempotent(t);
    let l = lower(t);
    if l.len() > 0 {
        assert(l[0] == lower_char(t[0]));
        assert(l.last() == lower_char(t.last()));
        assert(white_space(lower_char(t[0])) ==> white_space(t[0]));
        assert(white_space(lower_char(t.last())) ==> white_space(t.last()));
    }
    crate::text::lemma_trim_fixed(l);
}

/// An accepted row holds the policy of its identifier and host name, in the form in
/// which a request would be stored, with a transport and a revision; and every such
/// row is accepted.
pub proof fn law_rows_are_accepted_for_what_they_say(
    id: Seq<char>,
    hostname: Seq<char>,
    revision: Seq<char>,
    shared: SharedRoutePolicyModel,
    target_valid: bool,
)
    ensures
        row_error(id, hostname, revision, shared, target_valid) is None <==> ({
            let p = shared.policy;
            &&& uuid_of(id) == Some(p.id)
            &&& p.hostname == hostname
            &&& hostname_of(p.hostname) == Some(p.hostname)
            &&& trim(p.name) == p.name
            &&& 0 < p.name.len()
            &&& utf8_len(p.name) <= 80
            &&& target_valid
            &&& trim(p.target_addr) == p.target_addr
            &&& utf8_len(p.target_addr) <= 4096
            &&& 1 <= p.max_connections <= 1024
            &&& shared.grpc_backend_transport is Tls ==> shared.grpc_backend_server_name is Some
            &&& uuid_of(revision) is Some
        }),
        uuid_of(id) is Some && (uuid_of(id) != Some(shared.policy.id) || shared.policy.hostname
            != hostname) <==> row_error(id, hostname, revision, shared, target_valid)
            == Some(RouteRowErrorModel::IdentityMismatch),
{
}

/// Clear text needs nothing; TLS needs the name of the server, and trusts the
/// profile that is named, or the system where none is.
pub proof fn law_transports_follow_the_row(
    transport: GrpcBackendTransport,
    server_name: Option<Seq<char>>,
    trust_profile: Option<Seq<char>>,
)
    ensures
        transport is H2c ==> grpc_transport_of(transport, server_name, trust_profile) == Some(
            TransportModel::H2c,
        ),
        transport is Tls ==> (grpc_transport_of(transport, server_name, trust_profile) is Some
            <==> server_name is Some),
        transport is Tls && server_name is Some && trust_profile is None ==> grpc_transport_of(
            transport,
            server_name,
            trust_profile,
        ) == Some(TransportModel::Tls { server_name: server_name->0, trust: TrustModel::System }),
        transport is Tls && server_name is Some && trust_profile is Some ==> grpc_transport_of(
            transport,
            server_name,
            trust_profile,
        ) == Some(
            TransportModel::Tls {
                server_name: server_name->0,
                trust: TrustModel::Profile(trust_profile->0),
            },
        ),
{
}

/// A row grants a registration exactly if its policy is enabled and has its client,
/// its name and its target.
pub proof fn law_rows_grant_the_registration_they_name(
    p: HttpRoutePolicyModel,
    client_id: u128,
    name: Seq<char>,
    target_addr: Seq<char>,
)
    ensures
        registration_matches(p, client_id, name, target_addr) <==> granted(
            seq![p],
            client_id,
            name,
            p.hostname,
            target_addr,
        ) is Some,
        registration_matches(p, client_id, name, target_addr) ==> p.enabled && p.client_id
            == client_id && p.name == name && p.target_addr == target_addr,
{
    law_registrations_are_granted_by_their_policy(
        seq![p],
        client_id,
        name,
        p.hostname,
        target_addr,
    );
    if registration_matches(p, client_id, name, target_addr) {
        assert(seq![p][0].enabled);
    }
}

/// The connections of a route are pooled under its host name and port 80.
pub proof fn law_routes_are_pooled_under_port_80(hostname: Seq<char>)
    ensures
        route_authority(hostname).len() == hostname.len() + 3,
        route_authority(hostname).take(hostname.len() as int) == hostname,
        route_authority(hostname).skip(hostname.len() as int) == seq![':', '8', '0'],
{
    reveal_strlit(":80");
    assert(route_authority(hostname).take(hostname.len() as int) =~= hostname);
    assert(route_authority(hostname).skip(hostname.len() as int) =~= seq![':', '8', '0']);
}

/// A policy is switched on or off by identifier; nothing else of it changes, and no
/// other policy does.
pub proof fn law_policies_are_switched_by_identifier(
    catalog: &mut HttpRouteCatalog,
    id: u128,
    enabled: bool,
    r: bool,
)
    requires
        call_ensures(HttpRouteCatalog::set_enabled, (catalog, id, enabled), r),
    ensures
        ({
            let s = old(catalog)@;
            let t = final(catalog)@;
            let at = first_id(policy_ids(s), id);
            &&& r <==> exists|i: int| 0 <= i < s.len() && (#[trigger] s[i]).id == id
            &&& !r ==> t == s
            &&& r ==> t.len() == s.len() && 0 <= at < s.len() && s[at].id == id && t[at].enabled
                == enabled && t[at] == (HttpRoutePolicyModel { enabled: t[at].enabled, ..s[at] })
            &&& r ==> forall|i: int|
                0 <= i < s.len() && i != at ==> (#[trigger] t[i]) == s[i]
        }),
{
    let s = old(catalog)@;
    lemma_policy_there(s, id);
}

proof fn lemma_policy_there(s: Seq<HttpRoutePolicyModel>, id: u128)
    ensures
        0 <= first_id(policy_ids(s), id) <= s.len(),
        first_id(policy_ids(s), id) < s.len() ==> s[first_id(policy_ids(s), id)].id == id,
        first_id(policy_ids(s), id) < s.len() <==> exists|i: int|
            0 <= i < s.len() && (#[trigger] s[i]).id == id,
{
    crate::ids::lemma_first_id(policy_ids(s), id);
    let at = first_id(policy_ids(s), id);
    if at < s.len() {
        assert(policy_ids(s)[at] == s[at].id);
    }
    if exists|i: int| 0 <= i < s.len() && (#[trigger] s[i]).id == id {
        let i = choose|i: int| 0 <= i < s.len() && (#[trigger] s[i]).id == id;
        assert(policy_ids(s)[i] == id);
    }
}

/// A deleted policy leaves all others in their order.
pub proof fn law_deleted_policies_leave_the_others(
    catalog: &mut HttpRouteCatalog,
    id: u128,
    r: bool,
)
    requires
        call_ensures(HttpRouteCatalog::delete, (catalog, id), r),
    ensures
        ({
            let s = old(catalog)@;
            let t = final(catalog)@;
            &&& r <==> exists|i: int| 0 <= i < s.len() && (#[trigger] s[i]).id == id
            &&& !r ==> t == s
            &&& r ==> t.len() == s.len() - 1
            &&& forall|i: int|
                0 <= i < s.len() && (#[trigger] s[i]).id != id ==> t.contains(s[i])
        }),
{
    let s = old(catalog)@;
    let t = final(catalog)@;
    lemma_policy_there(s, id);
    let at = first_id(policy_ids(s), id);
    assert forall|i: int| 0 <= i < s.len() && (#[trigger] s[i]).id != id implies t.contains(
        s[i],
    ) by {
        if at >= s.len() {
            assert(t[i] == s[i]);
        } else if i < at {
            assert(t[i] == s[i]);
        } else {
            assert(t[i - 1] == s[i]);
        }
    }
}

/// A host name is in use exactly if an enabled policy bears it.
pub proof fn law_host_names_of_enabled_policies_exist(
    catalog: HttpRouteCatalog,
    hostname: &str,
    r: Option<bool>,
)
    requires
        call_ensures(HttpRouteCatalog::enabled_hostname_exists, (&catalog, hostname), r),
    ensures
        r is None <==> hostname_of(hostname@) is None,
        r is Some ==> (r->0 <==> exists|i: int|
            0 <= i < catalog@.len() && (#[trigger] catalog@[i]).enabled && catalog@[i].hostname
                == hostname_of(hostname@)->0),
{
    if hostname_of(hostname@) is Some {
        let name = hostname_of(hostname@)->0;
        let s = catalog@;
        if host_in_use(s, name) {
            let i = choose|i: int|
                0 <= i < s.len() && (#[trigger] s[i]).hostname == name && s[i].enabled;
            assert(s[i].enabled && s[i].hostname == name);
        }
    }
}

/// Looking a registration up in a catalog answers what its policies grant, under the
/// normal form of the host name.
pub proof fn law_lookups_answer_what_is_granted(
    catalog: HttpRouteCatalog,
    client_id: u128,
    name: &str,
    hostname: &str,
    target_addr: &str,
    r: Result<Option<HttpRouteRuntimePolicy>, CreateHttpRouteError>,
)
    requires
        call_ensures(
            HttpRouteCatalog::runtime_policy,
            (&catalog, client_id, name, hostname, target_addr),
            r,
        ),
    ensures
        ({
            let host = hostname_of(hostname@);
            let matches = |p: HttpRoutePolicyModel|
                p.enabled && p.client_id == client_id && p.name == name@ && p.hostname == host->0
                    && p.target_addr == target_addr@;
            &&& r is Err <==> host is None
            &&& r is Err ==> r->Err_0 is InvalidHostname
            &&& r is Ok ==> (r->Ok_0 is Some <==> exists|i: int|
                0 <= i < catalog@.len() && matches(#[trigger] catalog@[i]))
            &&& r is Ok && r->Ok_0 is Some ==> exists|i: int|
                0 <= i < catalog@.len() && matches(#[trigger] catalog@[i]) && r->Ok_0->0.policy_id
                    == catalog@[i].id && r->Ok_0->0.max_connections == catalog@[i].max_connections
        }),
{
    if hostname_of(hostname@) is Some {
        lemma_granted_by(catalog@, client_id, name@, hostname_of(hostname@)->0, target_addr@);
    }
}

proof fn lemma_granted_by(
    s: Seq<HttpRoutePolicyModel>,
    client_id: u128,
    name: Seq<char>,
    host: Seq<char>,
    target_addr: Seq<char>,
)
    ensures
        ({
            let matches = |p: HttpRoutePolicyModel|
                p.enabled && p.client_id == client_id && p.name == name && p.hostname == host
                    && p.target_addr == target_addr;
            let r = granted(s, client_id, name, host, target_addr);
            &&& r is None ==> forall|i: int| 0 <= i < s.len() ==> !matches(#[trigger] s[i])
            &&& r is Some ==> exists|i: int|
                0 <= i < s.len() && matches(#[trigger] s[i]) && r->0.policy_id == s[i].id
                    && r->0.max_connections == s[i].max_connections
        }),
    decreases s.len(),
{
    let matches = |p: HttpRoutePolicyModel|
        p.enabled && p.client_id == client_id && p.name == name && p.hostname == host
            && p.target_addr == target_addr;
    if s.len() > 0 {
        let t = s.drop_first();
        if matches(s[0]) {
            assert(matches(s[0]));
        } else {
            lemma_granted_by(t, client_id, name, host, target_addr);
            let r = granted(t, client_id, name, host, target_addr);
            if r is None {
                assert forall|i: int| 0 <= i < s.len() implies !matches(#[trigger] s[i]) by {
                    if i > 0 {
                        assert(t[i - 1] == s[i]);
                    }
                }
            } else {
                let i = choose|i: int|
                    0 <= i < t.len() && matches(#[trigger] t[i]) && r->0.policy_id == t[i].id
                        && r->0.max_connections == t[i].max_connections;
                assert(s[i + 1] == t[i]);
            }
        }
    }
}

/// A registration is granted by its own row exactly if the row is enabled and names the
/// client, the name and the target; it then has the identifier and limit of the row.
pub proof fn law_shared_rows_grant_their_registration(
    snapshot: HttpRouteSnapshot,
    client_id: u128,
    name: &str,
    target_addr: &str,
    r: Result<Option<SharedRouteRuntimePolicy>, RouteRowError>,
)
    requires
        call_ensures(
            HttpRouteSnapshot::runtime_policy,
            (&snapshot, client_id, name, target_addr),
            r,
        ),
    ensures
        ({
            let p = snapshot.policy@.policy;
            let named = p.enabled && p.client_id == client_id && p.name == name@ && p.target_addr
                == target_addr@;
            let transport = shared_transport(snapshot.policy@);
            &&& !named ==> r is Ok && r->Ok_0 is None
            &&& named ==> (r is Ok <==> transport is Some)
            &&& named && r is Ok ==> r->Ok_0 is Some && r->Ok_0->0.policy.policy_id == p.id
                && r->Ok_0->0.policy.max_connections == p.max_connections
                && r->Ok_0->0.grpc_backend@ == transport->0
        }),
{
}

/// A port other than zero is taken off a host name; a text without a colon, one whose
/// port is zero and one with another colon before it are left as they are.
pub proof fn law_ports_are_taken_off_host_names(host: Seq<char>, port: Seq<char>)
    requires
        !port.contains(':'),
    ensures
        ({
            let s = host + seq![':'] + port;
            let n = parsed_number(port, 10, 65535);
            &&& !host.contains(':') && n is Some && n->0 > 0 ==> without_port(s) == host
            &&& n is None || n == Some(0nat) || host.contains(':') ==> without_port(s) == s
            &&& without_port(port) == port
        }),
{
    let s = host + seq![':'] + port;
    let k = host.len() as int;
    assert forall|j: int| k < j < s.len() implies s[j] != ':' by {
        assert(s[j] == port[j - k - 1]);
        if s[j] == ':' {
            assert(port.contains(':'));
        }
    }
    crate::text::lemma_last_index_unique(s, ':', k);
    assert(s.take(k) =~= host);
    assert(s.skip(k + 1) =~= port);
    crate::text::lemma_last_index(port, ':');
}

} // verus!
