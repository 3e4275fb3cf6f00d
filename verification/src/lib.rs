//! Control-plane logic of a tunnelling reverse proxy.

pub mod address_laws;
pub mod bytes_text;
pub mod cloudflare;
pub mod dns01;
pub mod dual_stack_udp;
pub mod fleet;
pub mod fleet_coordination;
pub mod fleet_dns;
pub mod fleet_health;
pub mod fleet_health_catalog;
pub mod fleet_health_postgres;
pub mod fleet_policies;
pub mod grpc_backend_tls;
pub mod ha_coordination;
pub mod ha_management;
pub mod ha_runtime;
pub mod host_name;
pub mod http1_pool;
pub mod http2_pool;
pub mod http_backend_pool;
pub mod http_headers;
pub mod http_proxy;
pub mod http_proxy_relay;
pub mod http_proxy_session;
pub mod http_routes;
pub mod http_tunnel;
pub mod ids;
pub mod ip_address;
pub mod job_leases;
pub mod number;
pub mod registrations;
pub mod stored_numbers;
pub mod stored_rows;
pub mod text;
pub mod uuids;
