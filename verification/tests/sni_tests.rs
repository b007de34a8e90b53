use node_proxy::sni::parse_sni;

#[test]
fn happy_hostname_parses() {
    let p = parse_sni("dmtr_abc.mainnet-10.proxy.example").unwrap();
    assert_eq!(p.token, "dmtr_abc");
    assert_eq!(p.network, "mainnet");
    assert_eq!(p.version, "10");
}

#[test]
fn malformed_hostname_rejected() {
    assert!(parse_sni("no-prefix.example").is_none());
}

#[test]
fn missing_prefix_rejected() {
    assert!(parse_sni("abc.mainnet-10.proxy.example").is_none());
}

#[test]
fn empty_hostname_rejected() {
    assert!(parse_sni("").is_none());
}

#[test]
fn token_may_contain_dashes() {
    let p = parse_sni("dmtr_a-b-c.preview-2.x").unwrap();
    assert_eq!(p.token, "dmtr_a-b-c");
    assert_eq!(p.network, "preview");
    assert_eq!(p.version, "2");
}

#[test]
fn network_must_be_letters() {
    assert!(parse_sni("dmtr_abc.main7net-10.proxy.example").is_none());
}

#[test]
fn version_may_mix_letters_and_digits() {
    let p = parse_sni("dmtr_abc.preprod-v8a.proxy.example").unwrap();
    assert_eq!(p.version, "v8a");
}

#[test]
fn missing_remainder_rejected() {
    assert!(parse_sni("dmtr_abc.mainnet-10.").is_none());
    assert!(parse_sni("dmtr_abc.mainnet-10").is_none());
}

#[test]
fn missing_version_rejected() {
    assert!(parse_sni("dmtr_abc.mainnet.proxy.example").is_none());
}

#[test]
fn newline_in_remainder_rejected() {
    assert!(parse_sni("dmtr_abc.mainnet-10.proxy\nexample").is_none());
}

#[test]
fn empty_token_body_rejected() {
    assert!(parse_sni("dmtr_.mainnet-10.proxy.example").is_none());
}

#[test]
fn dashed_network_run_rejected() {
    // The network run is maximal, so the version's dash cannot split it.
    assert!(parse_sni("dmtr_abc.main-net-10.x").is_none());
}
