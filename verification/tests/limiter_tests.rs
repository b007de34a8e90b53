use std::time::{Duration, Instant};

use node_proxy::ports::{CardanoNodePort, CardanoNodePortSpec, CardanoNodePortStatus};
use node_proxy::registry::{Consumer, Tier, TierRate};
use node_proxy::state::State;
use node_proxy::token::build_api_key;
use node_proxy::watch::PortEvent;

fn make_port(token: &str) -> CardanoNodePort {
    CardanoNodePort {
        namespace: "prj-tenant".to_string(),
        name: "port1".to_string(),
        spec: CardanoNodePortSpec {
            network: "mainnet".to_string(),
            version: "10".to_string(),
            throughput_tier: "free".to_string(),
        },
        status: Some(CardanoNodePortStatus {
            authenticated_endpoint: String::new(),
            auth_token: token.to_string(),
        }),
    }
}

/// A state holding one consumer whose tier has a single rate rule.
fn state_with_rate(limit: usize, interval_secs: u64) -> (State, Vec<u8>) {
    let token = build_api_key("port1", "prj-tenant", "cardano-node-salt").unwrap();
    let port = make_port(&token);
    let key = Consumer::new(&port).unwrap().key;
    let mut state = State::new();
    state.apply_event(PortEvent::Applied(port));
    state.replace_tiers(vec![Tier {
        name: "free".to_string(),
        rates: vec![TierRate { limit, interval_secs }],
        max_connections: 5,
    }]);
    (state, key)
}

#[test]
fn limiter_builds_one_bucket_per_rate() {
    let token = build_api_key("port1", "prj-tenant", "cardano-node-salt").unwrap();
    let port = make_port(&token);
    let key = Consumer::new(&port).unwrap().key;
    let mut state = State::new();
    state.apply_event(PortEvent::Applied(port));
    state.replace_tiers(vec![Tier {
        name: "free".to_string(),
        rates: vec![
            TierRate { limit: 100, interval_secs: 1 },
            TierRate { limit: 5000, interval_secs: 60 },
        ],
        max_connections: 5,
    }]);
    let buckets = state.prepare_limiter(&key).unwrap();
    assert_eq!(buckets.len(), 2);
    assert_eq!(state.limiter.len(), 1);
    // A second acquisition reuses the set.
    let again = state.prepare_limiter(&key).unwrap();
    assert_eq!(again.len(), 2);
    assert_eq!(state.limiter.len(), 1);
}

#[test]
fn acquisition_within_limit_is_prompt() {
    let (mut state, key) = state_with_rate(100, 1);
    let buckets = state.prepare_limiter(&key).unwrap();
    let rt = tokio::runtime::Builder::new_current_thread().enable_time().build().unwrap();
    let started = Instant::now();
    rt.block_on(async {
        for b in &buckets {
            b.acquire(100).await;
        }
    });
    assert!(started.elapsed() < Duration::from_millis(900));
}

#[test]
fn acquisition_beyond_limit_spans_refill_periods() {
    let (mut state, key) = state_with_rate(100, 1);
    let buckets = state.prepare_limiter(&key).unwrap();
    let rt = tokio::runtime::Builder::new_current_thread().enable_time().build().unwrap();
    let started = Instant::now();
    rt.block_on(async {
        // The bucket starts with 100 tokens; 300 take two more refills.
        for b in &buckets {
            b.acquire(300).await;
        }
    });
    let elapsed = started.elapsed();
    assert!(elapsed >= Duration::from_millis(1500), "returned after {:?}", elapsed);
    assert!(elapsed < Duration::from_secs(10), "took {:?}", elapsed);
}
