//! What is asked of Cloudflare when a DNS record changes, and what its answer
//! means.

use crate::fleet_dns::{FleetDnsChangePlan, FleetDnsChangePlanModel, record_type_name};
use crate::fleet_health::{error_summary, summarize_error};
use crate::number::{decimal, push_decimal};
use crate::text::{chars_of, opt_view, trim, trimmed};
use vstd::prelude::*;
use vstd::string::*;

verus! {

/// A request to write a record.
#[derive(Debug)]
pub struct DnsUpdate {
    pub endpoint: String,
    pub token: String,
    pub record_type: String,
    pub name: String,
    pub content: String,
    pub ttl: u32,
    pub proxied: bool,
}

pub struct DnsUpdateModel {
    pub endpoint: Seq<char>,
    pub token: Seq<char>,
    pub record_type: Seq<char>,
    pub name: Seq<char>,
    pub content: Seq<char>,
    pub ttl: u32,
    pub proxied: bool,
}

impl View for DnsUpdate {
    type V = DnsUpdateModel;

    open spec fn view(&self) -> DnsUpdateModel {
        DnsUpdateModel {
            endpoint: self.endpoint@,
            token: self.token@,
            record_type: self.record_type@,
            name: self.name@,
            content: self.content@,
            ttl: self.ttl,
            proxied: self.proxied,
        }
    }
}

pub open spec fn record_endpoint(plan: FleetDnsChangePlanModel) -> Seq<char> {
    "https://api.cloudflare.com/client/v4/zones/"@ + plan.zone_id + "/dns_records/"@
        + plan.record_id
}

/// The request of a planned change. `token` is what the environment holds under
/// the name of the token.
pub open spec fn update_of(plan: FleetDnsChangePlanModel, token: Option<Seq<char>>) -> Result<
    DnsUpdateModel,
    Seq<char>,
> {
    if token is None || trim(token->0).len() == 0 {
        Err(plan.token_env + " is not configured"@)
    } else {
        Ok(
            DnsUpdateModel {
                endpoint: record_endpoint(plan),
                token: token->0,
                record_type: record_type_name(plan.record_type),
                name: plan.hostname,
                content: plan.target,
                ttl: plan.ttl,
                proxied: plan.proxied,
            },
        )
    }
}

/// The request of a planned change.
pub fn dns_update(plan: &FleetDnsChangePlan, token: Option<String>) -> (r: Result<
    DnsUpdate,
    String,
>)
    ensures
        match update_of(plan@, opt_view(token)) {
            Ok(update) => r is Ok && r->Ok_0@ == update,
            Err(error) => r is Err && r->Err_0@ == error,
        },
{
    let token = match token {
        Some(token) => token,
        None => {
            return Err(not_configured(plan));
        },
    };
    if trimmed(&chars_of(token.as_str())).len() == 0 {
        return Err(not_configured(plan));
    }
    let mut endpoint = "https://api.cloudflare.com/client/v4/zones/".to_owned();
    endpoint.append(plan.zone_id.as_str());
    endpoint.append("/dns_records/");
    endpoint.append(plan.record_id.as_str());
    Ok(
        DnsUpdate {
            endpoint,
            token,
            record_type: plan.record_type.as_str().to_owned(),
            name: plan.hostname.clone(),
            content: plan.target.clone(),
            ttl: plan.ttl,
            proxied: plan.proxied,
        },
    )
}

fn not_configured(plan: &FleetDnsChangePlan) -> (r: String)
    ensures
        r@ == plan@.token_env + " is not configured"@,
{
    let mut out = plan.token_env.clone();
    out.append(" is not configured");
    out
}

/// An error that Cloudflare reports.
#[derive(Debug)]
pub struct CloudflareError {
    pub code: u64,
    pub message: String,
}

/// An answer of Cloudflare.
#[derive(Debug)]
pub struct CloudflareResponse {
    pub success: bool,
    pub errors: Vec<CloudflareError>,
}

/// The first error of an answer in brackets.
pub open spec fn suffix_of(errors: Seq<CloudflareError>) -> Seq<char> {
    if errors.len() == 0 {
        ""@
    } else {
        " ("@ + decimal(errors[0].code as nat) + ": "@ + error_summary(errors[0].message@) + ")"@
    }
}

impl CloudflareResponse {
    pub fn error_suffix(&self) -> (r: String)
        ensures
            r@ == suffix_of(self.errors@),
    {
        if self.errors.len() == 0 {
            return "".to_owned();
        }
        let mut out = " (".to_owned();
        push_decimal(&mut out, self.errors[0].code);
        out.append(": ");
        out.append(summarize_error(self.errors[0].message.as_str()).as_str());
        out.append(")");
        out
    }

    /// Whether an answer with an HTTP status says that the record was written.
    pub fn check(&self, status: u16) -> (r: Result<(), String>)
        ensures
            if 200 <= status < 300 && self.success {
                r is Ok
            } else {
                r is Err && r->Err_0@ == "Cloudflare DNS update failed with HTTP "@ + decimal(
                    status as nat,
                ) + suffix_of(self.errors@)
            },
    {
        if 200 <= status && status < 300 && self.success {
            return Ok(());
        }
        let mut out = "Cloudflare DNS update failed with HTTP ".to_owned();
        push_decimal(&mut out, status as u64);
        out.append(self.error_suffix().as_str());
        Err(out)
    }
}

/// A record is updated exactly if its token is set and not blank, at the provider's
/// address for that zone and record, with what the plan says.
pub proof fn law_records_are_updated_as_planned(
    plan: FleetDnsChangePlanModel,
    token: Option<Seq<char>>,
)
    ensures
        ({
            let r = update_of(plan, token);
            &&& r is Ok <==> token is Some && trim(token->0).len() > 0
            &&& r is Err ==> r->Err_0 == plan.token_env + " is not configured"@
            &&& r is Ok ==> {
                let u = r->Ok_0;
                &&& u.endpoint == "https://api.cloudflare.com/client/v4/zones/"@ + plan.zone_id
                    + "/dns_records/"@ + plan.record_id
                &&& u.token == token->0
                &&& u.record_type == record_type_name(plan.record_type)
                &&& u.name == plan.hostname && u.content == plan.target
                &&& u.ttl == plan.ttl && u.proxied == plan.proxied
            }
        }),
{
}

/// An update succeeded exactly if both the status and the answer say so; otherwise the
/// first error of the answer is told.
pub proof fn law_updates_succeed_where_both_say_so(
    response: CloudflareResponse,
    status: u16,
    r: Result<(), String>,
)
    requires
        call_ensures(CloudflareResponse::check, (&response, status), r),
    ensures
        r is Ok <==> 200 <= status <= 299 && response.success,
        r is Err && response.errors@.len() == 0 ==> r->Err_0@
            == "Cloudflare DNS update failed with HTTP "@ + decimal(status as nat),
        r is Err && response.errors@.len() > 0 ==> r->Err_0@
            == "Cloudflare DNS update failed with HTTP "@ + decimal(status as nat) + (" ("@
            + decimal(response.errors@[0].code as nat) + ": "@ + error_summary(
            response.errors@[0].message@,
        ) + ")"@),
{
    reveal_strlit("");
    if r is Err && response.errors@.len() == 0 {
        let t = "Cloudflare DNS update failed with HTTP "@ + decimal(status as nat);
        assert(t + ""@ =~= t);
    }
}

} // verus!
