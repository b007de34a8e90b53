use node_proxy::admission::{AdmissionDecision, RejectReason, UpstreamConfig};
use node_proxy::forward::Duplex;
use node_proxy::ports::{CardanoNodePort, CardanoNodePortSpec, CardanoNodePortStatus};
use node_proxy::registry::{Consumer, Tier, TierRate};
use node_proxy::state::{AcquireRefusal, State};
use node_proxy::token::build_api_key;
use node_proxy::watch::PortEvent;

fn cfg() -> UpstreamConfig {
    UpstreamConfig {
        node_dns: "node.example".to_string(),
        node_port: 3000,
        proxy_namespace: "proxyns".to_string(),
    }
}

fn make_port(name: &str, tier: &str, token: Option<&str>) -> CardanoNodePort {
    CardanoNodePort {
        namespace: "prj-tenant".to_string(),
        name: name.to_string(),
        spec: CardanoNodePortSpec {
            network: "mainnet".to_string(),
            version: "10".to_string(),
            throughput_tier: tier.to_string(),
        },
        status: token.map(|t| CardanoNodePortStatus {
            authenticated_endpoint: String::new(),
            auth_token: t.to_string(),
        }),
    }
}

fn token_for(name: &str) -> String {
    build_api_key(name, "prj-tenant", "cardano-node-salt").unwrap()
}

fn key_of(port: &CardanoNodePort) -> Vec<u8> {
    Consumer::new(port).unwrap().key
}

fn free_tier() -> Tier {
    Tier {
        name: "free".to_string(),
        rates: vec![TierRate { limit: 1000, interval_secs: 1 }],
        max_connections: 5,
    }
}

fn open_one(state: &mut State, token: &str) -> Duplex {
    let sni = format!("{}.mainnet-10.proxy.example", token);
    match state.decide_admission(&sni, &cfg()) {
        AdmissionDecision::Admit(ctx) => Duplex::open(ctx, state),
        AdmissionDecision::Reject(r) => panic!("rejected: {:?}", r),
    }
}

#[test]
fn restart_replaces_membership() {
    let t1 = token_for("port1");
    let t2 = token_for("port2");
    let p1 = make_port("port1", "free", Some(&t1));
    let p2 = make_port("port2", "free", Some(&t2));
    let key1 = key_of(&p1);
    let key2 = key_of(&p2);
    let mut state = State::new();
    state.apply_event(PortEvent::Applied(p1));
    state.apply_event(PortEvent::Restarted(vec![p2]));
    assert!(state.get_consumer(&key1).is_none());
    assert!(state.get_consumer(&key2).is_some());
}

#[test]
fn restart_skips_ports_without_status() {
    let mut state = State::new();
    state.apply_event(PortEvent::Restarted(vec![make_port("port1", "free", None)]));
    assert_eq!(state.consumers.len(), 0);
}

#[test]
fn restart_preserves_open_connection_counts() {
    let t1 = token_for("port1");
    let p1 = make_port("port1", "free", Some(&t1));
    let key = key_of(&p1);
    let mut state = State::new();
    state.apply_event(PortEvent::Applied(p1));
    state.replace_tiers(vec![free_tier()]);

    let mut duplex = open_one(&mut state, &t1);
    assert_eq!(state.consumers.get_active_connections(&key), 1);
    // Build the limiter set so the restart has something to clear.
    state.prepare_limiter(&key).unwrap();
    assert_eq!(state.limiter.len(), 1);

    state.apply_event(PortEvent::Restarted(vec![make_port("port1", "free", Some(&t1))]));
    assert_eq!(state.consumers.get_active_connections(&key), 1);
    assert_eq!(state.limiter.len(), 0);

    // The next accounted read rebuilds the limiter lazily.
    let buckets = state.prepare_limiter(&key).unwrap();
    assert_eq!(buckets.len(), 1);
    assert_eq!(state.limiter.len(), 1);

    duplex.close(&mut state);
    assert_eq!(state.consumers.get_active_connections(&key), 0);
}

#[test]
fn applied_twice_equals_applied_once() {
    let t1 = token_for("port1");
    let p1 = make_port("port1", "free", Some(&t1));
    let key = key_of(&p1);

    let mut once = State::new();
    once.apply_event(PortEvent::Applied(make_port("port1", "free", Some(&t1))));
    let mut twice = State::new();
    twice.apply_event(PortEvent::Applied(make_port("port1", "free", Some(&t1))));
    twice.apply_event(PortEvent::Applied(make_port("port1", "free", Some(&t1))));

    assert_eq!(once.consumers.len(), twice.consumers.len());
    let a = once.get_consumer(&key).unwrap();
    let b = twice.get_consumer(&key).unwrap();
    assert_eq!(a.active_connections, b.active_connections);
    assert_eq!(a.tier, b.tier);
    assert_eq!(a.port_name, b.port_name);
    let _ = p1;
}

#[test]
fn applied_carries_over_live_count() {
    let t1 = token_for("port1");
    let p1 = make_port("port1", "free", Some(&t1));
    let key = key_of(&p1);
    let mut state = State::new();
    state.apply_event(PortEvent::Applied(p1));
    state.replace_tiers(vec![free_tier()]);
    let _duplex = open_one(&mut state, &t1);
    assert_eq!(state.consumers.get_active_connections(&key), 1);

    // The port is updated to another tier; the count survives.
    state.apply_event(PortEvent::Applied(make_port("port1", "pro", Some(&t1))));
    let c = state.get_consumer(&key).unwrap();
    assert_eq!(c.active_connections, 1);
    assert_eq!(c.tier, "pro");
}

#[test]
fn applied_without_status_changes_nothing() {
    let t1 = token_for("port1");
    let mut state = State::new();
    state.apply_event(PortEvent::Applied(make_port("port1", "free", Some(&t1))));
    state.apply_event(PortEvent::Applied(make_port("port1", "free", None)));
    assert_eq!(state.consumers.len(), 1);
}

#[test]
fn deletion_mid_flight_makes_teardown_a_no_op() {
    let t1 = token_for("port1");
    let p1 = make_port("port1", "free", Some(&t1));
    let key = key_of(&p1);
    let mut state = State::new();
    state.apply_event(PortEvent::Applied(p1));
    state.replace_tiers(vec![free_tier()]);

    let mut duplex = open_one(&mut state, &t1);
    state.prepare_limiter(&key).unwrap();

    // The port is deleted while the connection is open.
    state.apply_event(PortEvent::Deleted(make_port("port1", "free", Some(&t1))));
    assert!(state.get_consumer(&key).is_none());
    assert_eq!(state.limiter.len(), 0);

    // New handshakes for the key are now unknown.
    let sni = format!("{}.mainnet-10.proxy.example", t1);
    let d = state.decide_admission(&sni, &cfg());
    assert!(matches!(d, AdmissionDecision::Reject(RejectReason::UnknownConsumer)));

    // A rebuild attempt is refused: the consumer is gone.
    assert_eq!(state.prepare_limiter(&key).unwrap_err(), AcquireRefusal::UnknownConsumer);

    // Teardown of the surviving connection is a no-op on the registry.
    duplex.close(&mut state);
    assert!(state.get_consumer(&key).is_none());
}

#[test]
fn limiter_rebuild_refused_without_tier() {
    let t1 = token_for("port1");
    let p1 = make_port("port1", "free", Some(&t1));
    let key = key_of(&p1);
    let mut state = State::new();
    state.apply_event(PortEvent::Applied(p1));
    assert_eq!(state.prepare_limiter(&key).unwrap_err(), AcquireRefusal::UnresolvedTier);
}
