# linklake_server

Control-plane logic of a tunnelling reverse proxy, verified with Verus.

`src/` is the verified library. It decides what happens to requests, connections,
leases, probes and DNS records; it reads no clock, socket, file or database of its
own. Its modules:

- `text`, `bytes_text`, `number`, `ids`, `uuids`, `host_name`, `ip_address`,
  `address_laws`, `stored_numbers`, `stored_rows`: texts, numbers, identifiers,
  addresses, and how values are written into database rows and read back.
- `http_backend_pool`, `http1_pool`, `http2_pool`: connections to backends.
- `http_proxy`, `http_proxy_relay`, `http_proxy_session`: the forward proxy.
- `http_routes`, `http_headers`, `http_tunnel`: public HTTP routes.
- `registrations`: how agents register routes and proxies.
- `dual_stack_udp`, `grpc_backend_tls`: sockets and TLS towards backends.
- `fleet`, `fleet_policies`, `fleet_health`, `fleet_dns`, `fleet_health_catalog`,
  `fleet_health_postgres`, `fleet_coordination`, `cloudflare`: peers, their health,
  DNS failover, and what they tell each other.
- `ha_coordination`, `ha_runtime`, `ha_management`, `job_leases`, `dns01`: leases,
  leadership, fencing and the journal of certificate challenges.

Public proof functions named `law_..` state what holds across functions. Calls
into other crates stand behind small wrappers whose contracts are trusted; each
says which function it calls.

`app/` is ordinary Rust around the library: sockets, databases, HTTP connections
and JSON. `tests/` runs the library on concrete values.
