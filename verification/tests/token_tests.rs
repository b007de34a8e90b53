use node_proxy::ports::{build_host, build_hostname, project_name, CardanoNodePort, CardanoNodePortSpec, CardanoNodePortStatus, Network};
use node_proxy::registry::Consumer;
use node_proxy::token::{build_api_key, encode_auth_key};

fn port_with_token(token: &str) -> CardanoNodePort {
    CardanoNodePort {
        namespace: "prj-tenant".to_string(),
        name: "port1".to_string(),
        spec: CardanoNodePortSpec {
            network: "mainnet".to_string(),
            version: "10".to_string(),
            throughput_tier: "free".to_string(),
        },
        status: Some(CardanoNodePortStatus {
            authenticated_endpoint: String::new(),
            auth_token: token.to_string(),
        }),
    }
}

#[test]
fn api_key_has_token_prefix_and_16_byte_payload() {
    let token = build_api_key("port1", "prj-tenant", "cardano-node-salt").unwrap();
    assert!(token.starts_with("dmtr_cnode1"));
    let consumer = Consumer::new(&port_with_token(&token)).unwrap();
    assert_eq!(consumer.key.len(), 16);
}

#[test]
fn decoding_and_reencoding_token_yields_original() {
    let token = build_api_key("port1", "prj-tenant", "cardano-node-salt").unwrap();
    let consumer = Consumer::new(&port_with_token(&token)).unwrap();
    let reencoded = encode_auth_key(&consumer.key).unwrap();
    assert_eq!(reencoded, token);
}

#[test]
fn api_key_is_deterministic() {
    let a = build_api_key("port1", "prj-tenant", "cardano-node-salt").unwrap();
    let b = build_api_key("port1", "prj-tenant", "cardano-node-salt").unwrap();
    assert_eq!(a, b);
    let c = build_api_key("port2", "prj-tenant", "cardano-node-salt").unwrap();
    assert_ne!(a, c);
}

#[test]
fn short_salt_is_refused() {
    assert!(build_api_key("port1", "prj-tenant", "salt").is_none());
}

#[test]
fn invalid_token_matches_no_consumer() {
    assert!(Consumer::new(&port_with_token("dmtr_cnode1qqqqqq")).is_none());
    assert!(Consumer::new(&port_with_token("not a token")).is_none());
}

#[test]
fn port_without_status_yields_no_consumer() {
    let mut p = port_with_token("x");
    p.status = None;
    assert!(Consumer::new(&p).is_none());
}

#[test]
fn consumer_carries_port_fields() {
    let token = build_api_key("port1", "prj-tenant", "cardano-node-salt").unwrap();
    let c = Consumer::new(&port_with_token(&token)).unwrap();
    assert_eq!(c.namespace, "prj-tenant");
    assert_eq!(c.port_name, "port1");
    assert_eq!(c.tier, "free");
    assert_eq!(c.network, "mainnet");
    assert_eq!(c.version, "10");
    assert_eq!(c.active_connections, 0);
}

#[test]
fn hostname_composition() {
    assert_eq!(
        build_hostname("mainnet", "10", "dmtr_cnode1xyz", "node-m1", "example.run"),
        "dmtr_cnode1xyz.mainnet-10.node-m1.example.run"
    );
    assert_eq!(build_host("port1", "tenant", "example.run"), "port1-tenant.example.run");
    assert_eq!(project_name("prj-tenant"), "tenant");
    assert_eq!(project_name("prj-ten-ant"), "ten-ant");
}

#[test]
fn network_labels() {
    assert_eq!(Network::Mainnet.label(), "mainnet");
    assert_eq!(Network::Preprod.label(), "preprod");
    assert_eq!(Network::Preview.label(), "preview");
    assert_eq!(Network::Sanchonet.label(), "sanchonet");
}
