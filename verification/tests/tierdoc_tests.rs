use node_proxy::tierdoc::{parse_interval, parse_tier_document};

const SAMPLE: &str = "[[tiers]]\nname = \"free\"\nmax_connections = 5\n[[tiers.rates]]\nlimit = 500000\ninterval = \"1s\"\n";

#[test]
fn sample_document_parses() {
    let tiers = parse_tier_document(SAMPLE).unwrap();
    assert_eq!(tiers.len(), 1);
    assert_eq!(tiers[0].name, "free");
    assert_eq!(tiers[0].max_connections, 5);
    assert_eq!(tiers[0].rates.len(), 1);
    assert_eq!(tiers[0].rates[0].limit, 500000);
    assert_eq!(tiers[0].rates[0].interval_secs, 1);
}

#[test]
fn two_tiers_with_comments_and_spacing() {
    let doc = "# plan catalogue\n\n[[tiers]]\n  name = \"free\"\n  max_connections = 5\n  [[tiers.rates]]\n  limit = 1000\n  interval = \"1s\"\n\n[[tiers]]\nname = \"pro\"\nmax_connections = 100\n[[tiers.rates]]\nlimit = 500000\ninterval = \"1m\"\n[[tiers.rates]]\nlimit = 10000000\ninterval = \"1h\"\n";
    let tiers = parse_tier_document(doc).unwrap();
    assert_eq!(tiers.len(), 2);
    assert_eq!(tiers[0].name, "free");
    assert_eq!(tiers[1].name, "pro");
    assert_eq!(tiers[1].rates.len(), 2);
    assert_eq!(tiers[1].rates[0].interval_secs, 60);
    assert_eq!(tiers[1].rates[1].interval_secs, 3600);
}

#[test]
fn tier_without_rates_fails() {
    let doc = "[[tiers]]\nname = \"free\"\nmax_connections = 5\n";
    assert!(parse_tier_document(doc).is_none());
}

#[test]
fn tier_without_name_fails() {
    let doc = "[[tiers]]\nmax_connections = 5\n[[tiers.rates]]\nlimit = 10\ninterval = \"1s\"\n";
    assert!(parse_tier_document(doc).is_none());
}

#[test]
fn zero_limit_fails() {
    let doc = "[[tiers]]\nname = \"free\"\nmax_connections = 5\n[[tiers.rates]]\nlimit = 0\ninterval = \"1s\"\n";
    assert!(parse_tier_document(doc).is_none());
}

#[test]
fn bad_interval_unit_fails() {
    let doc = "[[tiers]]\nname = \"free\"\nmax_connections = 5\n[[tiers.rates]]\nlimit = 10\ninterval = \"1w\"\n";
    assert!(parse_tier_document(doc).is_none());
}

#[test]
fn duplicate_key_fails() {
    let doc = "[[tiers]]\nname = \"free\"\nname = \"pro\"\nmax_connections = 5\n[[tiers.rates]]\nlimit = 10\ninterval = \"1s\"\n";
    assert!(parse_tier_document(doc).is_none());
}

#[test]
fn unknown_key_fails() {
    let doc = "[[tiers]]\nname = \"free\"\ncolour = \"red\"\nmax_connections = 5\n[[tiers.rates]]\nlimit = 10\ninterval = \"1s\"\n";
    assert!(parse_tier_document(doc).is_none());
}

#[test]
fn rate_before_tier_fails() {
    let doc = "[[tiers.rates]]\nlimit = 10\ninterval = \"1s\"\n";
    assert!(parse_tier_document(doc).is_none());
}

#[test]
fn document_without_tiers_fails() {
    // The previous snapshot is retained on failure, so a delivery that
    // names no tier never empties the table.
    assert!(parse_tier_document("").is_none());
    assert!(parse_tier_document("# nothing here\n").is_none());
}

#[test]
fn interval_units() {
    assert_eq!(parse_interval("1s"), Some(1));
    assert_eq!(parse_interval("2m"), Some(120));
    assert_eq!(parse_interval("3h"), Some(10800));
    assert_eq!(parse_interval("2d"), Some(172800));
    assert_eq!(parse_interval("10m"), Some(600));
}

#[test]
fn interval_rejects_bad_shapes() {
    assert_eq!(parse_interval("1w"), None);
    assert_eq!(parse_interval("s"), None);
    assert_eq!(parse_interval(""), None);
    assert_eq!(parse_interval("0s"), None);
    assert_eq!(parse_interval("5"), None);
    assert_eq!(parse_interval("5 s"), None);
    assert_eq!(parse_interval("99999999999999999999999999d"), None);
}

#[test]
fn interval_with_leading_zeros() {
    assert_eq!(parse_interval("0001s"), Some(1));
}
