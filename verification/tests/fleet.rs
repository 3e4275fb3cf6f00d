use linklake_server::fleet::{
    default_priority, default_true, default_weight, validate, FleetCatalog, FleetPeerError,
    UpsertFleetPeer,
};
use linklake_server::fleet_policies::{
    export_policy_bundle, find_client, plan_import, preview_import, wanted_policies, FleetClient,
    FleetImportResult, FleetPolicyBundle, FleetTcpPolicy, FleetUdpPolicy, PolicyImport,
    PortReservation, TunnelKind, TunnelPolicy, TunnelRequest,
};
use linklake_server::stored_rows::FleetPeerRow;

fn upsert() -> UpsertFleetPeer {
    UpsertFleetPeer {
        name: "Singapore".into(),
        url: "https://sg.example.com/".into(),
        region: "ap-southeast".into(),
        weight: 100,
        priority: 10,
        token_env: "LINKLAKE_FLEET_SG_TOKEN".into(),
        enabled: true,
    }
}

#[test]
fn peers_are_validated_and_persisted() {
    let mut catalog = FleetCatalog::new();
    let peer = catalog.create(upsert(), false, 1).unwrap();
    let id = peer.id;
    assert_eq!(peer.url, "https://sg.example.com");
    let rows: Vec<FleetPeerRow> = catalog.list().iter().map(FleetPeerRow::write).collect();
    let mut reopened = FleetCatalog::new();
    reopened.peers = rows.iter().map(|row| row.read(false).unwrap()).collect();
    assert_eq!(reopened.list()[0].id, id);
    assert_eq!(reopened.get(id), Some(peer));
}

#[test]
fn identifiers_of_new_peers_are_random() {
    let mut catalog = FleetCatalog::new();
    let first = catalog.create(upsert(), false, 1).unwrap();
    let second = catalog.create(upsert(), false, 1).unwrap();
    assert_ne!(first.id, second.id);
    // A peer with the name of another takes its place.
    assert_eq!(catalog.list().len(), 1);
    assert_eq!((first.id >> 76) & 0xf, 4);
    assert_eq!((first.id >> 62) & 0x3, 2);
}

#[test]
fn peer_requests_are_checked() {
    let with = |change: &dyn Fn(&mut UpsertFleetPeer)| {
        let mut request = upsert();
        change(&mut request);
        validate(request)
    };
    assert!(with(&|_| ()).is_ok());
    assert_eq!(with(&|r| r.name = " ".into()), Err(FleetPeerError::InvalidName));
    assert_eq!(with(&|r| r.region = "".into()), Err(FleetPeerError::InvalidRegion));
    assert_eq!(with(&|r| r.weight = 0), Err(FleetPeerError::InvalidWeight));
    assert_eq!(with(&|r| r.priority = 10_001), Err(FleetPeerError::InvalidPriority));
    assert_eq!(with(&|r| r.token_env = "PATH".into()), Err(FleetPeerError::InvalidTokenEnv));
    assert_eq!(
        with(&|r| r.url = "ftp://sg.example.com".into()),
        Err(FleetPeerError::InvalidUrl)
    );
    assert!(matches!(
        with(&|r| r.url = "https://sg example.com".into()),
        Err(FleetPeerError::UrlSyntax(_))
    ));
    assert_eq!(default_weight(), 100);
    assert_eq!(default_priority(), 100);
    assert!(default_true());
}

#[test]
fn peers_are_listed_by_priority_and_name() {
    let mut catalog = FleetCatalog::new();
    for (id, name, priority) in [(1, "b", 20), (2, "a", 20), (3, "z", 10)] {
        let request = UpsertFleetPeer {
            name: name.into(),
            url: format!("https://{name}.example.com"),
            priority,
            ..upsert()
        };
        catalog.create_as(id, request, false, 1).unwrap();
    }
    let ids: Vec<u128> = catalog.list().iter().map(|peer| peer.id).collect();
    assert_eq!(ids, vec![3, 2, 1]);
    let updated = catalog
        .update(1, UpsertFleetPeer { priority: 5, ..upsert() }, true, 9)
        .unwrap()
        .unwrap();
    assert_eq!(updated.created_unix_seconds, 1);
    assert_eq!(updated.updated_unix_seconds, 9);
    assert!(updated.token_configured);
    assert_eq!(catalog.list()[0].id, 1);
    assert_eq!(catalog.update(99, upsert(), true, 9), Ok(None));
    assert!(catalog.delete(1));
    assert!(!catalog.delete(1));
}

fn client(id: u128, name: &str) -> FleetClient {
    FleetClient { client_id: id, name: name.to_owned(), enabled: true }
}

fn bundle() -> FleetPolicyBundle {
    FleetPolicyBundle {
        tcp: vec![FleetTcpPolicy {
            client_name: "edge".into(),
            name: "game".into(),
            public_port: 32010,
            target_addr: "127.0.0.1:2333@2,127.0.0.1:2444@1".into(),
            max_connections: 64,
            bandwidth_limit_bps: None,
            enabled: true,
        }],
        udp: vec![FleetUdpPolicy {
            client_name: "edge".into(),
            name: "voice".into(),
            public_port: 32011,
            target_addr: "127.0.0.1:2334".into(),
            max_sessions: 256,
            session_idle_timeout_seconds: 120,
            bandwidth_limit_bps: None,
            enabled: true,
        }],
    }
}

/// The policies of a member, created one after another.
struct Tunnels {
    policies: Vec<TunnelPolicy>,
}

impl Tunnels {
    fn create(&mut self, request: &TunnelRequest) -> Result<TunnelPolicy, String> {
        let wanted = &request.policy;
        if self.policies.iter().any(|p| p.public_port == wanted.public_port) {
            return Err("public port is already assigned".to_owned());
        }
        let policy = made(request.client_id, self.policies.len() as u128 + 1, wanted);
        self.policies.push(made(request.client_id, policy.id, wanted));
        Ok(policy)
    }
}

fn made(
    client_id: u128,
    id: u128,
    wanted: &linklake_server::fleet_policies::WantedPolicy,
) -> TunnelPolicy {
    TunnelPolicy {
        id,
        kind: wanted.kind,
        client_id,
        name: wanted.name.clone(),
        public_port: wanted.public_port,
        target_addr: wanted.target_addr.clone(),
        limit: wanted.limit,
        session_idle_timeout_seconds: wanted.session_idle_timeout_seconds,
        bandwidth_limit_bps: wanted.bandwidth_limit_bps,
        enabled: true,
        reservations: vec![PortReservation { kind: wanted.kind, port: wanted.public_port }],
    }
}

fn import_policy_bundle(
    bundle: &FleetPolicyBundle,
    clients: &Vec<FleetClient>,
    tunnels: &mut Tunnels,
    dry_run: bool,
) -> FleetImportResult {
    let mut import = PolicyImport::begin(bundle, clients, &tunnels.policies, dry_run);
    while let Some(request) = import.advance() {
        let outcome = tunnels.create(&request);
        import.answer(outcome);
    }
    import.finish()
}

#[test]
fn policy_import_previews_creates_and_reports_conflicts_without_overwriting() {
    let clients = vec![client(7, "edge")];
    let mut catalog = Tunnels { policies: vec![] };
    let bundle = bundle();
    let preview = import_policy_bundle(&bundle, &clients, &mut catalog, true);
    assert_eq!(preview.created, 2);
    assert!(catalog.policies.is_empty());
    assert_eq!(preview, preview_import(&bundle, &clients, &catalog.policies));

    let applied = import_policy_bundle(&bundle, &clients, &mut catalog, false);
    assert_eq!(applied.created, 2);
    assert!(applied.conflicts.is_empty());
    let repeated = import_policy_bundle(&bundle, &clients, &mut catalog, false);
    assert_eq!(repeated.unchanged, 2);
    assert_eq!(repeated.created, 0);

    let mut conflicting = bundle.clone();
    conflicting.tcp[0].public_port = 32012;
    let result = import_policy_bundle(&conflicting, &clients, &mut catalog, false);
    assert_eq!(result.conflicts.len(), 1);
    assert_eq!(
        result.conflicts[0],
        "TCP game: an incompatible policy with the same name exists"
    );
    assert_eq!(catalog.policies[0].public_port, 32010);
}

#[test]
fn imports_name_their_conflicts() {
    let mut catalog = Tunnels { policies: vec![] };
    let missing = import_policy_bundle(&bundle(), &vec![client(7, "other")], &mut catalog, false);
    assert_eq!(
        missing.conflicts,
        vec!["TCP game: client 'edge' is missing", "UDP voice: client 'edge' is missing"]
    );
    let twice = vec![client(7, "edge"), client(8, "edge")];
    let ambiguous = import_policy_bundle(&bundle(), &twice, &mut catalog, false);
    assert_eq!(ambiguous.conflicts[0], "TCP game: client name 'edge' is ambiguous");
    let mut same_port = bundle();
    same_port.udp[0].public_port = 32010;
    let refused = import_policy_bundle(&same_port, &vec![client(7, "edge")], &mut catalog, false);
    assert_eq!(refused.created, 1);
    assert_eq!(refused.conflicts, vec!["UDP voice: public port is already assigned"]);
}

#[test]
fn exported_policies_import_unchanged() {
    let clients = vec![client(7, "edge")];
    let mut catalog = Tunnels { policies: vec![] };
    import_policy_bundle(&bundle(), &clients, &mut catalog, false);
    let exported = export_policy_bundle(&clients, &catalog.policies);
    assert_eq!(exported, bundle());
    assert_eq!(preview_import(&exported, &clients, &catalog.policies).unchanged, 2);
    let nobody = export_policy_bundle(&vec![], &catalog.policies);
    assert!(nobody.tcp.is_empty() && nobody.udp.is_empty());
}

#[test]
fn planned_imports_keep_ports_apart() {
    let clients = vec![client(7, "edge")];
    let mut wanted = wanted_policies(&bundle());
    wanted.extend(wanted_policies(&bundle()));
    wanted[2].name = "second".into();
    wanted[3].client_name = "nobody".into();
    let requested: Vec<Option<TunnelPolicy>> = wanted
        .iter()
        .enumerate()
        .map(|(i, w)| Some(made(7, i as u128, w)))
        .collect();
    let plan = plan_import(&wanted, &clients, &requested, &vec![]);
    assert_eq!(plan.result.created, 2);
    assert_eq!(plan.planned.len(), 2);
    assert!(plan.planned.iter().all(|policy| policy.client_id == 7));
    assert_eq!(find_client(&clients, "edge"), Some(7));
    assert_eq!(find_client(&clients, "nobody"), None);
    assert_eq!(
        plan.result.conflicts,
        vec![
            "second: public port is already assigned",
            "voice: client 'nobody' is missing or ambiguous",
        ]
    );
    let again = plan_import(&wanted_policies(&bundle()), &clients, &requested_first(&requested), &plan.existing);
    assert_eq!(again.result.unchanged, 2);
    let invalid = plan_import(&wanted_policies(&bundle()), &clients, &vec![None, None], &vec![]);
    assert_eq!(
        invalid.result.conflicts,
        vec!["TCP game: invalid policy", "UDP voice: invalid policy"]
    );
    let mut other = requested_first(&requested);
    other[0].as_mut().unwrap().limit = 1;
    let conflict = plan_import(&wanted_policies(&bundle()), &clients, &other, &plan.existing);
    assert_eq!(
        conflict.result.conflicts,
        vec!["game: incompatible policy with the same name"]
    );
    assert_eq!(TunnelKind::Udp.as_str(), "UDP");
}

fn requested_first(requested: &[Option<TunnelPolicy>]) -> Vec<Option<TunnelPolicy>> {
    requested[..2]
        .iter()
        .map(|p| p.as_ref().map(TunnelPolicy::duplicate))
        .collect()
}
