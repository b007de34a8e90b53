use node_proxy::metrics::{Labels, Metrics};

fn labels(consumer: &str, instance: &str) -> Labels {
    Labels {
        consumer: consumer.to_string(),
        namespace: "proxyns".to_string(),
        instance: instance.to_string(),
        tier: "free".to_string(),
    }
}

#[test]
fn counters_accumulate_and_render() {
    let mut m = Metrics::new();
    let key = vec![1u8, 2, 3];
    let l = labels("ns.port1", "node-mainnet-10.node.example:3000");
    m.count_total_packages_bytes(&key, &l, 4);
    m.count_total_packages_bytes(&key, &l, 8);
    m.inc_total_connections(&key, &l);
    let text = m.render();
    let tags = "{consumer=\"ns.port1\",namespace=\"proxyns\",instance=\"node-mainnet-10.node.example:3000\",tier=\"free\"}";
    assert_eq!(
        text,
        format!(
            "node_proxy_total_packages_bytes{tags} 12\nnode_proxy_total_connections{tags} 1\nnode_proxy_total_connections_denied{tags} 0\n"
        )
    );
}

#[test]
fn gauge_never_goes_below_zero() {
    let mut m = Metrics::new();
    let key = vec![9u8];
    let l = labels("ns.p", "i");
    m.dec_total_connections(&key, &l);
    m.inc_total_connections(&key, &l);
    m.dec_total_connections(&key, &l);
    m.dec_total_connections(&key, &l);
    let text = m.render();
    assert!(text.contains("node_proxy_total_connections{consumer=\"ns.p\""));
    assert!(text.contains("} 0\n"));
}

#[test]
fn denied_counter_is_monotonic() {
    let mut m = Metrics::new();
    let key = vec![7u8];
    let l = labels("ns.p", "i");
    m.count_total_connections_denied(&key, &l);
    m.count_total_connections_denied(&key, &l);
    m.count_total_packages_bytes(&key, &l, 1);
    m.inc_total_connections(&key, &l);
    m.dec_total_connections(&key, &l);
    let text = m.render();
    assert!(text.contains("node_proxy_total_connections_denied{consumer=\"ns.p\""));
    assert!(text.ends_with("} 2\n"));
}

#[test]
fn label_values_are_escaped() {
    let mut m = Metrics::new();
    let key = vec![5u8];
    let l = Labels {
        consumer: "we\"ird\\name".to_string(),
        namespace: "line\nbreak".to_string(),
        instance: "i".to_string(),
        tier: "t".to_string(),
    };
    m.inc_total_connections(&key, &l);
    let text = m.render();
    assert!(text.contains("consumer=\"we\\\"ird\\\\name\""));
    assert!(text.contains("namespace=\"line\\nbreak\""));
}

#[test]
fn points_for_two_consumers_render_separately() {
    let mut m = Metrics::new();
    let l1 = labels("ns.p1", "i1");
    let l2 = labels("ns.p2", "i2");
    m.count_total_packages_bytes(&vec![1u8], &l1, 10);
    m.count_total_packages_bytes(&vec![2u8], &l2, 20);
    let text = m.render();
    assert!(text.contains("consumer=\"ns.p1\""));
    assert!(text.contains("consumer=\"ns.p2\""));
    assert!(text.contains("} 10\n"));
    assert!(text.contains("} 20\n"));
}
