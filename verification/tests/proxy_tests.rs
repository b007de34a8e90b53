use node_proxy::admission::{AdmissionDecision, RejectReason, UpstreamConfig};
use node_proxy::forward::Duplex;
use node_proxy::ports::{CardanoNodePort, CardanoNodePortSpec, CardanoNodePortStatus};
use node_proxy::registry::{Consumer, Tier, TierRate};
use node_proxy::state::State;
use node_proxy::token::build_api_key;
use node_proxy::watch::PortEvent;

fn cfg() -> UpstreamConfig {
    UpstreamConfig {
        node_dns: "node.example".to_string(),
        node_port: 3000,
        proxy_namespace: "proxyns".to_string(),
    }
}

fn make_port(token: &str) -> CardanoNodePort {
    CardanoNodePort {
        namespace: "prj-tenant".to_string(),
        name: "port1".to_string(),
        spec: CardanoNodePortSpec {
            network: "mainnet".to_string(),
            version: "10".to_string(),
            throughput_tier: "free".to_string(),
        },
        status: Some(CardanoNodePortStatus {
            authenticated_endpoint: String::new(),
            auth_token: token.to_string(),
        }),
    }
}

fn free_tier(max_connections: usize) -> Tier {
    Tier {
        name: "free".to_string(),
        rates: vec![TierRate { limit: 1000, interval_secs: 1 }],
        max_connections,
    }
}

/// A state holding one consumer under tier `free`, and its token.
fn state_with_consumer(max_connections: usize) -> (State, String) {
    let token = build_api_key("port1", "prj-tenant", "cardano-node-salt").unwrap();
    let mut state = State::new();
    state.apply_event(PortEvent::Applied(make_port(&token)));
    state.replace_tiers(vec![free_tier(max_connections)]);
    (state, token)
}

fn key_of(token: &str) -> Vec<u8> {
    Consumer::new(&make_port(token)).unwrap().key
}

fn sni_for(token: &str) -> String {
    format!("{}.mainnet-10.proxy.example", token)
}

fn expected_metrics(bytes: u64, connections: u64, denied: u64) -> String {
    let labels = "{consumer=\"prj-tenant.port1\",namespace=\"proxyns\",instance=\"node-mainnet-10.node.example:3000\",tier=\"free\"}";
    format!(
        "node_proxy_total_packages_bytes{labels} {bytes}\nnode_proxy_total_connections{labels} {connections}\nnode_proxy_total_connections_denied{labels} {denied}\n"
    )
}

#[test]
fn happy_path_counts_bytes_and_connections() {
    let (mut state, token) = state_with_consumer(5);
    let key = key_of(&token);
    let decision = state.decide_admission(&sni_for(&token), &cfg());
    let ctx = match decision {
        AdmissionDecision::Admit(ctx) => ctx,
        AdmissionDecision::Reject(r) => panic!("rejected: {:?}", r),
    };
    assert_eq!(ctx.instance, "node-mainnet-10.node.example:3000");
    assert_eq!(ctx.namespace, "proxyns");

    let mut duplex = Duplex::open(ctx, &mut state);
    assert_eq!(state.consumers.get_active_connections(&key), 1);

    let to_upstream = duplex.on_client_read(&mut state, b"PING");
    assert_eq!(to_upstream, b"PING");
    let buckets = state.prepare_limiter(&key).unwrap();
    assert_eq!(buckets.len(), 1);
    let to_client = duplex.on_instance_read(&mut state, b"PONG");
    assert_eq!(to_client, b"PONG");

    duplex.close(&mut state);
    assert_eq!(state.consumers.get_active_connections(&key), 0);
    assert_eq!(state.metrics.render(), expected_metrics(8, 0, 0));
}

#[test]
fn malformed_sni_rejected_without_metrics() {
    let (mut state, _token) = state_with_consumer(5);
    let d = state.decide_admission("no-prefix.example", &cfg());
    assert!(matches!(d, AdmissionDecision::Reject(RejectReason::InvalidHostname)));
    assert_eq!(state.metrics.render(), "");
}

#[test]
fn unknown_consumer_rejected_without_metrics() {
    let (mut state, _token) = state_with_consumer(5);
    let other = build_api_key("other", "prj-tenant", "cardano-node-salt").unwrap();
    let d = state.decide_admission(&sni_for(&other), &cfg());
    assert!(matches!(d, AdmissionDecision::Reject(RejectReason::UnknownConsumer)));
    assert_eq!(state.metrics.render(), "");
}

#[test]
fn unresolved_tier_rejected_and_counted() {
    let token = build_api_key("port1", "prj-tenant", "cardano-node-salt").unwrap();
    let mut state = State::new();
    state.apply_event(PortEvent::Applied(make_port(&token)));
    let d = state.decide_admission(&sni_for(&token), &cfg());
    assert!(matches!(d, AdmissionDecision::Reject(RejectReason::UnresolvedTier)));
    assert_eq!(state.metrics.render(), expected_metrics(0, 0, 1));
}

#[test]
fn cap_boundary_admits_below_and_rejects_at() {
    let (mut state, token) = state_with_consumer(2);
    let key = key_of(&token);

    // One below the cap: admitted.
    let first = state.decide_admission(&sni_for(&token), &cfg());
    let ctx1 = match first {
        AdmissionDecision::Admit(ctx) => ctx,
        AdmissionDecision::Reject(r) => panic!("rejected: {:?}", r),
    };
    let _d1 = Duplex::open(ctx1, &mut state);

    let second = state.decide_admission(&sni_for(&token), &cfg());
    let ctx2 = match second {
        AdmissionDecision::Admit(ctx) => ctx,
        AdmissionDecision::Reject(r) => panic!("rejected: {:?}", r),
    };
    let _d2 = Duplex::open(ctx2, &mut state);
    assert_eq!(state.consumers.get_active_connections(&key), 2);

    // At the cap: rejected and counted.
    let third = state.decide_admission(&sni_for(&token), &cfg());
    assert!(matches!(third, AdmissionDecision::Reject(RejectReason::ConnectionCapExceeded)));
    assert_eq!(state.metrics.render(), expected_metrics(0, 2, 1));
}

#[test]
fn sixth_connection_rejected_at_cap_of_five() {
    let (mut state, token) = state_with_consumer(5);
    let key = key_of(&token);
    for _ in 0..5 {
        let d = state.decide_admission(&sni_for(&token), &cfg());
        let ctx = match d {
            AdmissionDecision::Admit(ctx) => ctx,
            AdmissionDecision::Reject(r) => panic!("rejected: {:?}", r),
        };
        let _dx = Duplex::open(ctx, &mut state);
    }
    assert_eq!(state.consumers.get_active_connections(&key), 5);
    let sixth = state.decide_admission(&sni_for(&token), &cfg());
    assert!(matches!(sixth, AdmissionDecision::Reject(RejectReason::ConnectionCapExceeded)));
    assert_eq!(state.metrics.render(), expected_metrics(0, 5, 1));
}

#[test]
fn zero_cap_always_rejects() {
    let (mut state, token) = state_with_consumer(0);
    let d = state.decide_admission(&sni_for(&token), &cfg());
    assert!(matches!(d, AdmissionDecision::Reject(RejectReason::ConnectionCapExceeded)));
}

#[test]
fn bytes_forwarded_whole_and_in_call_order() {
    let (mut state, token) = state_with_consumer(5);
    let ctx = match state.decide_admission(&sni_for(&token), &cfg()) {
        AdmissionDecision::Admit(ctx) => ctx,
        AdmissionDecision::Reject(r) => panic!("rejected: {:?}", r),
    };
    let mut duplex = Duplex::open(ctx, &mut state);
    let mut upstream_received: Vec<u8> = Vec::new();
    let mut client_received: Vec<u8> = Vec::new();
    upstream_received.extend(duplex.on_client_read(&mut state, b"AB"));
    upstream_received.extend(duplex.on_client_read(&mut state, b"CD"));
    client_received.extend(duplex.on_instance_read(&mut state, b"wx"));
    client_received.extend(duplex.on_instance_read(&mut state, b"yz"));
    duplex.close(&mut state);
    assert_eq!(upstream_received, b"ABCD");
    assert_eq!(client_received, b"wxyz");
    assert_eq!(state.metrics.render(), expected_metrics(8, 0, 0));
}

#[test]
fn first_upstream_address_wins() {
    let addrs = vec!["10.0.0.1:3000".to_string(), "10.0.0.2:3000".to_string()];
    assert_eq!(node_proxy::admission::first_upstream(&addrs).unwrap(), "10.0.0.1:3000");
    let none: Vec<String> = Vec::new();
    assert!(node_proxy::admission::first_upstream(&none).is_none());
}
