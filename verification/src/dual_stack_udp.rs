//! Public UDP ports on separate IPv4 and IPv6 sockets: how they are bound, when
//! IPv4 alone will do, and through which socket a reply goes.

use crate::http_proxy_session::wrap_add;
use crate::ip_address::{SocketAddress, SocketModel, socket_text, socket_to_text};
use crate::number::{decimal, push_decimal};
use crate::text::{chars_are, chars_of, lower, lowered, opt_view, trim, trimmed};
use vstd::prelude::*;
use vstd::string::*;

verus! {

/// Which sockets a public port needs.
#[derive(Clone, Copy, Debug, PartialEq, Eq, Structural)]
pub enum PublicUdpBindMode {
    /// IPv6 where the host has it.
    Auto,
    Ipv4Only,
    DualStackRequired,
}

pub open spec fn mode_name(mode: PublicUdpBindMode) -> Seq<char> {
    match mode {
        PublicUdpBindMode::Auto => "auto"@,
        PublicUdpBindMode::Ipv4Only => "ipv4_only"@,
        PublicUdpBindMode::DualStackRequired => "dual_stack_required"@,
    }
}

/// The mode that a setting names, in any case and with spaces around it.
pub open spec fn mode_of(value: Seq<char>) -> Option<PublicUdpBindMode> {
    let s = lower(trim(value));
    if s == "auto"@ {
        Some(PublicUdpBindMode::Auto)
    } else if s == "ipv4_only"@ || s == "ipv4-only"@ || s == "ipv4"@ {
        Some(PublicUdpBindMode::Ipv4Only)
    } else if s == "dual_stack_required"@ || s == "dual-stack-required"@ || s == "required"@ {
        Some(PublicUdpBindMode::DualStackRequired)
    } else {
        None
    }
}

/// A setting that names no mode.
#[derive(Clone, Copy, Debug, PartialEq, Eq, Structural)]
pub struct ParsePublicUdpBindModeError;

impl ParsePublicUdpBindModeError {
    pub fn message(self) -> (r: &'static str)
        ensures
            r@ == "UDP public bind mode must be auto, ipv4_only, or dual_stack_required"@,
    {
        "UDP public bind mode must be auto, ipv4_only, or dual_stack_required"
    }
}

impl Default for PublicUdpBindMode {
    fn default() -> (r: Self)
        ensures
            r == PublicUdpBindMode::Auto,
    {
        PublicUdpBindMode::Auto
    }
}

impl PublicUdpBindMode {
    pub fn as_str(self) -> (r: &'static str)
        ensures
            r@ == mode_name(self),
    {
        match self {
            PublicUdpBindMode::Auto => "auto",
            PublicUdpBindMode::Ipv4Only => "ipv4_only",
            PublicUdpBindMode::DualStackRequired => "dual_stack_required",
        }
    }

    /// The mode that a setting names.
    pub fn parse(value: &str) -> (r: Result<Self, ParsePublicUdpBindModeError>)
        ensures
            match mode_of(value@) {
                Some(mode) => r == Ok::<Self, ParsePublicUdpBindModeError>(mode),
                None => r is Err,
            },
    {
        let s = lowered(&trimmed(&chars_of(value)));
        if chars_are(&s, "auto") {
            Ok(PublicUdpBindMode::Auto)
        } else if chars_are(&s, "ipv4_only") || chars_are(&s, "ipv4-only") || chars_are(
            &s,
            "ipv4",
        ) {
            Ok(PublicUdpBindMode::Ipv4Only)
        } else if chars_are(&s, "dual_stack_required") || chars_are(&s, "dual-stack-required")
            || chars_are(&s, "required") {
            Ok(PublicUdpBindMode::DualStackRequired)
        } else {
            Err(ParsePublicUdpBindModeError)
        }
    }
}

/// The name of a mode denotes that mode.
pub proof fn law_mode_names_read_back(mode: PublicUdpBindMode)
    ensures
        mode_of(mode_name(mode)) == Some(mode),
{
    reveal_strlit("auto");
    reveal_strlit("ipv4_only");
    reveal_strlit("ipv4-only");
    reveal_strlit("ipv4");
    reveal_strlit("dual_stack_required");
    reveal_strlit("dual-stack-required");
    reveal_strlit("required");
    let s = mode_name(mode);
    assert(s.len() > 0 && s[0] != ' ' && s[s.len() - 1] != ' ');
    crate::text::lemma_trim_fixed(s);
    assert(lower(s) =~= s);
    assert("ipv4_only"@.len() == 9 && "auto"@.len() == 4 && "dual_stack_required"@.len() == 19
        && "ipv4-only"@.len() == 9 && "ipv4"@.len() == 4 && "dual-stack-required"@.len() == 19
        && "required"@.len() == 8);
}

/// The family of an address.
#[derive(Clone, Copy, Debug, PartialEq, Eq, Hash, Structural)]
pub enum UdpAddressFamily {
    Ipv4,
    Ipv6,
}

pub open spec fn family_name(family: UdpAddressFamily) -> Seq<char> {
    match family {
        UdpAddressFamily::Ipv4 => "ipv4"@,
        UdpAddressFamily::Ipv6 => "ipv6"@,
    }
}

impl UdpAddressFamily {
    pub fn as_str(self) -> (r: &'static str)
        ensures
            r@ == family_name(self),
    {
        match self {
            UdpAddressFamily::Ipv4 => "ipv4",
            UdpAddressFamily::Ipv6 => "ipv6",
        }
    }
}

pub open spec fn family_of(a: SocketModel) -> UdpAddressFamily {
    match a {
        SocketModel::V4 { .. } => UdpAddressFamily::Ipv4,
        SocketModel::V6 { .. } => UdpAddressFamily::Ipv6,
    }
}

pub fn address_family(address: &SocketAddress) -> (r: UdpAddressFamily)
    ensures
        r == family_of(address@),
{
    match address {
        SocketAddress::V4 { .. } => UdpAddressFamily::Ipv4,
        SocketAddress::V6 { .. } => UdpAddressFamily::Ipv6,
    }
}

/// The kinds of socket errors that decide something.
#[derive(Clone, Copy, Debug, PartialEq, Eq, Structural)]
pub enum UdpErrorKind {
    AddrNotAvailable,
    Unsupported,
    InvalidInput,
    AddrInUse,
    PermissionDenied,
    Other,
}

/// An error of a socket.
#[derive(Debug)]
pub struct UdpError {
    pub kind: UdpErrorKind,
    /// The number that the operating system gave, where there is one.
    pub raw_os_error: Option<i32>,
    pub message: String,
}

/// The operating systems whose error numbers are known.
#[derive(Clone, Copy, Debug, PartialEq, Eq, Structural)]
pub enum UdpPlatform {
    Windows,
    Linux,
    MacOs,
    Other,
}

/// Whether an error number says that the host has no IPv6: the protocol option,
/// the protocol or the address family is not supported.
pub open spec fn means_no_ipv6(platform: UdpPlatform, code: Option<i32>) -> bool {
    code is Some && match platform {
        UdpPlatform::Windows => code->0 == 10042 || code->0 == 10043 || code->0 == 10046 || code->0
            == 10047,
        UdpPlatform::Linux => code->0 == 92 || code->0 == 93 || code->0 == 97,
        UdpPlatform::MacOs => code->0 == 42 || code->0 == 43 || code->0 == 47,
        UdpPlatform::Other => false,
    }
}

pub fn raw_error_means_ipv6_is_unsupported(platform: UdpPlatform, code: Option<i32>) -> (r: bool)
    ensures
        r == means_no_ipv6(platform, code),
{
    match code {
        None => false,
        Some(code) => match platform {
            UdpPlatform::Windows => code == 10042 || code == 10043 || code == 10046 || code
                == 10047,
            UdpPlatform::Linux => code == 92 || code == 93 || code == 97,
            UdpPlatform::MacOs => code == 42 || code == 43 || code == 47,
            UdpPlatform::Other => false,
        },
    }
}

/// Whether IPv4 alone will do after an error: only where the host has no IPv6,
/// not where the port is taken or forbidden.
pub open spec fn ipv4_will_do(platform: UdpPlatform, kind: UdpErrorKind, code: Option<i32>) -> bool {
    kind == UdpErrorKind::AddrNotAvailable || kind == UdpErrorKind::Unsupported || means_no_ipv6(
        platform,
        code,
    )
}

pub fn can_fallback_to_ipv4(platform: UdpPlatform, error: &UdpError) -> (r: bool)
    ensures
        r == ipv4_will_do(platform, error.kind, error.raw_os_error),
{
    error.kind == UdpErrorKind::AddrNotAvailable || error.kind == UdpErrorKind::Unsupported
        || raw_error_means_ipv6_is_unsupported(platform, error.raw_os_error)
}

/// An address together with the family of the socket it was seen on.
#[derive(Clone, Copy, Debug, PartialEq, Eq, Hash)]
pub struct PublicUdpEndpoint {
    address: SocketAddress,
    family: UdpAddressFamily,
}

impl PublicUdpEndpoint {
    pub closed spec fn spec_address(&self) -> SocketModel {
        self.address@
    }

    pub closed spec fn spec_family(&self) -> UdpAddressFamily {
        self.family
    }

    /// The endpoint of a datagram that a socket of a family received.
    pub fn new(address: SocketAddress, family: UdpAddressFamily) -> (r: Result<Self, UdpError>)
        ensures
            if family_of(address@) == family {
                r is Ok && r->Ok_0.spec_address() == address@ && r->Ok_0.spec_family() == family
            } else {
                r is Err && r->Err_0.kind == UdpErrorKind::InvalidInput
                    && r->Err_0.raw_os_error is None && r->Err_0.message@
                    == "UDP endpoint address family does not match its receiving socket"@
            },
    {
        if address_family(&address) != family {
            return Err(
                UdpError {
                    kind: UdpErrorKind::InvalidInput,
                    raw_os_error: None,
                    message:
                        "UDP endpoint address family does not match its receiving socket".to_owned(),
                },
            );
        }
        Ok(PublicUdpEndpoint { address, family })
    }

    /// The endpoint of an address.
    pub fn from_address(address: SocketAddress) -> (r: Self)
        ensures
            r.spec_address() == address@,
            r.spec_family() == family_of(address@),
    {
        let family = address_family(&address);
        PublicUdpEndpoint { address, family }
    }

    pub fn address(self) -> (r: SocketAddress)
        ensures
            r@ == self.spec_address(),
    {
        self.address
    }

    pub fn family(self) -> (r: UdpAddressFamily)
        ensures
            r == self.spec_family(),
    {
        self.family
    }

    /// The address with its family in brackets.
    pub fn text(&self) -> (r: String)
        ensures
            r@ == socket_text(self.spec_address()) + " ("@ + family_name(self.spec_family())
                + ")"@,
    {
        let mut out = socket_to_text(&self.address);
        out.append(" (");
        out.append(self.family.as_str());
        out.append(")");
        out
    }
}

/// A bound public port.
#[derive(Debug)]
pub struct DualStackUdpBinding {
    pub mode: PublicUdpBindMode,
    pub ipv6_enabled: bool,
    /// Why there is no IPv6 socket, where one was tried for.
    pub ipv6_fallback_error: Option<String>,
    pub local_port: u16,
}

pub struct BindingModel {
    pub mode: PublicUdpBindMode,
    pub ipv6_enabled: bool,
    pub ipv6_fallback_error: Option<Seq<char>>,
    pub local_port: u16,
}

impl View for DualStackUdpBinding {
    type V = BindingModel;

    open spec fn view(&self) -> BindingModel {
        BindingModel {
            mode: self.mode,
            ipv6_enabled: self.ipv6_enabled,
            ipv6_fallback_error: opt_view(self.ipv6_fallback_error),
            local_port: self.local_port,
        }
    }
}

/// What to do once the IPv4 socket is bound.
#[derive(Debug)]
pub enum BindStep {
    Bound(DualStackUdpBinding),
    /// An IPv6 socket is bound to the same port next.
    BindIpv6(u16),
}

/// What to do once the IPv4 socket is bound to a port.
pub fn begin_bind(local_port: u16, mode: PublicUdpBindMode) -> (r: BindStep)
    ensures
        if mode == PublicUdpBindMode::Ipv4Only {
            r is Bound && r->Bound_0@ == (BindingModel {
                mode,
                ipv6_enabled: false,
                ipv6_fallback_error: None,
                local_port,
            })
        } else {
            r == BindStep::BindIpv6(local_port)
        },
{
    if mode == PublicUdpBindMode::Ipv4Only {
        BindStep::Bound(
            DualStackUdpBinding {
                mode,
                ipv6_enabled: false,
                ipv6_fallback_error: None,
                local_port,
            },
        )
    } else {
        BindStep::BindIpv6(local_port)
    }
}

/// How binding ends once the IPv6 socket was tried for. Automatic mode makes do
/// with IPv4 where the host has no IPv6, and every other error is passed on.
pub fn finish_bind(
    local_port: u16,
    mode: PublicUdpBindMode,
    platform: UdpPlatform,
    ipv6: Result<(), UdpError>,
) -> (r: Result<DualStackUdpBinding, UdpError>)
    ensures
        match ipv6 {
            Ok(_) => r is Ok && r->Ok_0@ == (BindingModel {
                mode,
                ipv6_enabled: true,
                ipv6_fallback_error: None,
                local_port,
            }),
            Err(error) => if mode == PublicUdpBindMode::Auto && ipv4_will_do(
                platform,
                error.kind,
                error.raw_os_error,
            ) {
                r is Ok && r->Ok_0@ == (BindingModel {
                    mode,
                    ipv6_enabled: false,
                    ipv6_fallback_error: Some(error.message@),
                    local_port,
                })
            } else {
                r is Err && r->Err_0.kind == error.kind && r->Err_0.raw_os_error is None
                    && r->Err_0.message@ == "IPv6 UDP bind failed on port "@ + decimal(
                    local_port as nat,
                ) + ": "@ + error.message@
            },
        },
{
    match ipv6 {
        Ok(()) => Ok(
            DualStackUdpBinding { mode, ipv6_enabled: true, ipv6_fallback_error: None, local_port },
        ),
        Err(error) => {
            if mode == PublicUdpBindMode::Auto && can_fallback_to_ipv4(platform, &error) {
                return Ok(
                    DualStackUdpBinding {
                        mode,
                        ipv6_enabled: false,
                        ipv6_fallback_error: Some(error.message),
                        local_port,
                    },
                );
            }
            let mut message = "IPv6 UDP bind failed on port ".to_owned();
            push_decimal(&mut message, local_port as u64);
            message.append(": ");
            message.append(error.message.as_str());
            Err(UdpError { kind: error.kind, raw_os_error: None, message })
        },
    }
}

/// The family of the socket that a reply to an endpoint goes through.
pub fn reply_family(ipv6_enabled: bool, endpoint: &PublicUdpEndpoint) -> (r: Result<
    UdpAddressFamily,
    UdpError,
>)
    ensures
        if endpoint.spec_family() != family_of(endpoint.spec_address()) {
            r is Err && r->Err_0.kind == UdpErrorKind::InvalidInput && r->Err_0.message@
                == "UDP endpoint address family changed before reply"@
        } else if endpoint.spec_family() == UdpAddressFamily::Ipv6 && !ipv6_enabled {
            r is Err && r->Err_0.kind == UdpErrorKind::AddrNotAvailable && r->Err_0.message@
                == "cannot reply to IPv6 because the IPv6 UDP socket is unavailable"@
        } else {
            r == Ok::<UdpAddressFamily, UdpError>(endpoint.spec_family())
        },
{
    if endpoint.family != address_family(&endpoint.address) {
        return Err(
            UdpError {
                kind: UdpErrorKind::InvalidInput,
                raw_os_error: None,
                message: "UDP endpoint address family changed before reply".to_owned(),
            },
        );
    }
    if endpoint.family == UdpAddressFamily::Ipv6 && !ipv6_enabled {
        return Err(
            UdpError {
                kind: UdpErrorKind::AddrNotAvailable,
                raw_os_error: None,
                message:
                    "cannot reply to IPv6 because the IPv6 UDP socket is unavailable".to_owned(),
            },
        );
    }
    Ok(endpoint.family)
}

/// Counters of bound ports.
#[derive(Clone, Copy, Debug, PartialEq, Eq, Structural)]
pub struct UdpBindCounters {
    pub failures_total: u64,
    pub ipv4_successes_total: u64,
    pub ipv6_successes_total: u64,
    pub ipv6_fallbacks_total: u64,
}

/// The counters after an attempt to bind a port.
pub open spec fn counted(c: UdpBindCounters, bound: Option<BindingModel>) -> UdpBindCounters {
    match bound {
        None => UdpBindCounters { failures_total: wrap_add(c.failures_total, 1), ..c },
        Some(b) => UdpBindCounters {
            ipv4_successes_total: wrap_add(c.ipv4_successes_total, 1),
            ipv6_successes_total: if b.ipv6_enabled {
                wrap_add(c.ipv6_successes_total, 1)
            } else {
                c.ipv6_successes_total
            },
            ipv6_fallbacks_total: if !b.ipv6_enabled && b.ipv6_fallback_error is Some {
                wrap_add(c.ipv6_fallbacks_total, 1)
            } else {
                c.ipv6_fallbacks_total
            },
            ..c
        },
    }
}

impl UdpBindCounters {
    /// Counts an attempt to bind a port.
    pub fn record(&mut self, outcome: &Result<DualStackUdpBinding, UdpError>)
        ensures
            *final(self) == counted(
                *old(self),
                match *outcome {
                    Ok(b) => Some(b@),
                    Err(_) => None,
                },
            ),
    {
        match outcome {
            Err(_) => {
                self.failures_total = self.failures_total.wrapping_add(1);
            },
            Ok(b) => {
                self.ipv4_successes_total = self.ipv4_successes_total.wrapping_add(1);
                if b.ipv6_enabled {
                    self.ipv6_successes_total = self.ipv6_successes_total.wrapping_add(1);
                } else if b.ipv6_fallback_error.is_some() {
                    self.ipv6_fallbacks_total = self.ipv6_fallbacks_total.wrapping_add(1);
                }
            },
        }
    }
}

/// A mode is read in any case, without the blanks around it, under each of its names
/// and under no other.
pub proof fn law_modes_are_read_by_name(value: Seq<char>)
    ensures
        ({
            let s = lower(trim(value));
            let r = mode_of(value);
            &&& r == Some(PublicUdpBindMode::Auto) <==> s == "auto"@
            &&& r == Some(PublicUdpBindMode::Ipv4Only) <==> s == "ipv4_only"@ || s == "ipv4-only"@
                || s == "ipv4"@
            &&& r == Some(PublicUdpBindMode::DualStackRequired) <==> s == "dual_stack_required"@
                || s == "dual-stack-required"@ || s == "required"@
        }),
{
    reveal_strlit("auto");
    reveal_strlit("ipv4_only");
    reveal_strlit("ipv4-only");
    reveal_strlit("ipv4");
    reveal_strlit("dual_stack_required");
    reveal_strlit("dual-stack-required");
    reveal_strlit("required");
    assert("auto"@.len() == 4 && "ipv4"@.len() == 4 && "required"@.len() == 8 && "ipv4_only"@.len()
        == 9 && "ipv4-only"@.len() == 9 && "dual_stack_required"@.len() == 19
        && "dual-stack-required"@.len() == 19);
    assert("auto"@[0] == 'a' && "ipv4"@[0] == 'i');
}

/// Without IPv6, IPv4 alone will do exactly where the host has no address or no support
/// for it, as the kind of error or the number of the operating system says.
pub proof fn law_ipv4_will_do_where_there_is_no_ipv6(
    platform: UdpPlatform,
    kind: UdpErrorKind,
    code: Option<i32>,
)
    ensures
        kind is AddrNotAvailable || kind is Unsupported ==> ipv4_will_do(platform, kind, code),
        !(kind is AddrNotAvailable) && !(kind is Unsupported) ==> {
            &&& code is None ==> !ipv4_will_do(platform, kind, code)
            &&& code is Some ==> (ipv4_will_do(platform, kind, code) <==> match platform {
                UdpPlatform::Windows => code->0 == 10042 || code->0 == 10043 || 10046 <= code->0
                    <= 10047,
                UdpPlatform::Linux => code->0 == 92 || code->0 == 93 || code->0 == 97,
                UdpPlatform::MacOs => code->0 == 42 || code->0 == 43 || code->0 == 47,
                UdpPlatform::Other => false,
            })
        },
{
}

/// An IPv6 socket is tried for unless only IPv4 is wanted.
pub proof fn law_ipv6_is_tried_for(local_port: u16, mode: PublicUdpBindMode, r: BindStep)
    requires
        call_ensures(begin_bind, (local_port, mode), r),
    ensures
        r is BindIpv6 <==> !(mode is Ipv4Only),
        r is BindIpv6 ==> r->BindIpv6_0 == local_port,
        r is Bound ==> r->Bound_0@.local_port == local_port && !r->Bound_0@.ipv6_enabled
            && r->Bound_0@.ipv6_fallback_error is None && r->Bound_0@.mode == mode,
{
}

/// A failed IPv6 socket is put up with only where the mode leaves the choice and the
/// host has no IPv6; that it failed is remembered.
pub proof fn law_ipv6_failures_are_put_up_with(
    local_port: u16,
    mode: PublicUdpBindMode,
    platform: UdpPlatform,
    ipv6: Result<(), UdpError>,
    r: Result<DualStackUdpBinding, UdpError>,
)
    requires
        call_ensures(finish_bind, (local_port, mode, platform, ipv6), r),
    ensures
        ({
            let e = ipv6->Err_0;
            &&& ipv6 is Ok ==> r is Ok && r->Ok_0@.ipv6_enabled
                && r->Ok_0@.ipv6_fallback_error is None
            &&& ipv6 is Err ==> (r is Ok <==> mode is Auto && ipv4_will_do(
                platform,
                e.kind,
                e.raw_os_error,
            ))
            &&& ipv6 is Err && r is Ok ==> !r->Ok_0@.ipv6_enabled
                && r->Ok_0@.ipv6_fallback_error == Some(e.message@)
            &&& r is Ok ==> r->Ok_0@.local_port == local_port && r->Ok_0@.mode == mode
            &&& r is Err ==> r->Err_0.kind == e.kind
        }),
{
}

/// A reply goes out in the family of its endpoint, and not over IPv6 where there is no
/// socket for it.
pub proof fn law_replies_stay_in_their_family(
    ipv6_enabled: bool,
    endpoint: PublicUdpEndpoint,
    r: Result<UdpAddressFamily, UdpError>,
)
    requires
        call_ensures(reply_family, (ipv6_enabled, &endpoint), r),
    ensures
        r is Ok <==> endpoint.spec_family() == family_of(endpoint.spec_address()) && (
        endpoint.spec_family() is Ipv6 ==> ipv6_enabled),
        r is Ok ==> r->Ok_0 == endpoint.spec_family(),
        r is Err ==> (r->Err_0.kind is AddrNotAvailable <==> endpoint.spec_family() == family_of(
            endpoint.spec_address(),
        )),
{
}

/// The family of an address is the one that it is written in.
pub proof fn law_families_follow_the_address(a: SocketModel)
    ensures
        family_of(a) is Ipv4 <==> a is V4,
        family_of(a) is Ipv6 <==> a is V6,
        family_name(family_of(a)) == if a is V4 {
            "ipv4"@
        } else {
            "ipv6"@
        },
{
}

/// A binding counts as one of IPv4, and as one of IPv6 if it has that, or as a fallback
/// if it was tried for in vain; a failure counts as a failure alone.
pub proof fn law_bindings_are_counted(c: UdpBindCounters, bound: Option<BindingModel>)
    ensures
        ({
            let n = counted(c, bound);
            let b = bound->0;
            let six = bound is Some && b.ipv6_enabled;
            let fell = bound is Some && !b.ipv6_enabled && b.ipv6_fallback_error is Some;
            let up = |before: u64, after: u64|
                after == before + 1 || before == 0xffff_ffff_ffff_ffff && after == 0;
            &&& bound is None ==> up(c.failures_total, n.failures_total)
            &&& bound is Some ==> n.failures_total == c.failures_total && up(
                c.ipv4_successes_total,
                n.ipv4_successes_total,
            )
            &&& bound is None ==> n.ipv4_successes_total == c.ipv4_successes_total
            &&& six ==> up(c.ipv6_successes_total, n.ipv6_successes_total)
            &&& !six ==> n.ipv6_successes_total == c.ipv6_successes_total
            &&& fell ==> up(c.ipv6_fallbacks_total, n.ipv6_fallbacks_total)
            &&& !fell ==> n.ipv6_fallbacks_total == c.ipv6_fallbacks_total
        }),
{
}

} // verus!
