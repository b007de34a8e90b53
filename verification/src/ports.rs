//! The port records the registry delivers, and how a consumer is derived
//! from one.

use vstd::prelude::*;

use crate::registry::{Consumer, ConsumerV};
use crate::token::{decode_auth_token, token_key};
use crate::util::push_char;

verus! {

/// What a tenant asks for: a node of some network and version, under a
/// named throughput tier.
pub struct CardanoNodePortSpec {
    pub network: String,
    pub version: String,
    pub throughput_tier: String,
}

/// What the operator fills in once the port is materialized: the endpoint
/// and the auth token the tenant connects with.
pub struct CardanoNodePortStatus {
    pub authenticated_endpoint: String,
    pub auth_token: String,
}

/// One record of the port registry.
pub struct CardanoNodePort {
    pub namespace: String,
    pub name: String,
    pub spec: CardanoNodePortSpec,
    pub status: Option<CardanoNodePortStatus>,
}

/// The mathematical value of a port record.
#[verifier::ext_equal]
pub ghost struct PortV {
    pub namespace: Seq<char>,
    pub name: Seq<char>,
    pub network: Seq<char>,
    pub version: Seq<char>,
    pub throughput_tier: Seq<char>,
    pub auth_token: Option<Seq<char>>,
}

impl View for CardanoNodePort {
    type V = PortV;

    open spec fn view(&self) -> PortV {
        PortV {
            namespace: self.namespace@,
            name: self.name@,
            network: self.spec.network@,
            version: self.spec.version@,
            throughput_tier: self.spec.throughput_tier@,
            auth_token: match self.status {
                Some(st) => Some(st.auth_token@),
                None => None,
            },
        }
    }
}

/// The consumer a port record stands for: its auth token decoded into the
/// key, the spec fields carried over, and no connection yet.  `None` when
/// the status is still missing or the token does not decode.
pub open spec fn derived_consumer(p: PortV) -> Option<ConsumerV> {
    match p.auth_token {
        Some(tok) => match token_key(tok) {
            Some(k) => Some(
                ConsumerV {
                    namespace: p.namespace,
                    port_name: p.name,
                    tier: p.throughput_tier,
                    key: k,
                    network: p.network,
                    version: p.version,
                    active_connections: 0,
                },
            ),
            None => None,
        },
        None => None,
    }
}

impl Consumer {
    /// Derives the consumer a port record stands for.
    pub fn new(crd: &CardanoNodePort) -> (r: Option<Consumer>)
        ensures
            match r {
                Some(c) => derived_consumer(crd@) == Some(c@),
                None => derived_consumer(crd@) is None,
            },
    {
        let st = match &crd.status {
            Some(st) => st,
            None => {
                return None;
            },
        };
        let key = match decode_auth_token(st.auth_token.as_str()) {
            Some(key) => key,
            None => {
                return None;
            },
        };
        let c = Consumer {
            namespace: crd.namespace.clone(),
            port_name: crd.name.clone(),
            tier: crd.spec.throughput_tier.clone(),
            key,
            network: crd.spec.network.clone(),
            version: crd.spec.version.clone(),
            active_connections: 0,
        };
        assert(derived_consumer(crd@) == Some(c@)) by {
            assert(derived_consumer(crd@)->Some_0 =~= c@);
        }
        Some(c)
    }
}

/// The hostname written into a port's status:
/// `<key>.<network>-<version>.<extension>.<zone>`.
pub open spec fn hostname_of(
    network: Seq<char>,
    version: Seq<char>,
    key: Seq<char>,
    extension_name: Seq<char>,
    dns_zone: Seq<char>,
) -> Seq<char> {
    key + seq!['.'] + network + seq!['-'] + version + seq!['.'] + extension_name + seq!['.']
        + dns_zone
}

/// Builds the authenticated endpoint hostname for a port.
pub fn build_hostname(
    network: &str,
    version: &str,
    key: &str,
    extension_name: &str,
    dns_zone: &str,
) -> (s: String)
    ensures
        s@ == hostname_of(network@, version@, key@, extension_name@, dns_zone@),
{
    let mut s = key.to_owned();
    push_char(&mut s, '.');
    s.append(network);
    push_char(&mut s, '-');
    s.append(version);
    push_char(&mut s, '.');
    s.append(extension_name);
    push_char(&mut s, '.');
    s.append(dns_zone);
    assert(s@ =~= hostname_of(network@, version@, key@, extension_name@, dns_zone@));
    s
}

/// The public host for a port: `<name>-<project>.<zone>`.
pub open spec fn host_of(name: Seq<char>, project: Seq<char>, dns_zone: Seq<char>) -> Seq<char> {
    name + seq!['-'] + project + seq!['.'] + dns_zone
}

/// Builds the public host for a port.
pub fn build_host(name: &str, project: &str, dns_zone: &str) -> (s: String)
    ensures
        s@ == host_of(name@, project@, dns_zone@),
{
    let mut s = name.to_owned();
    push_char(&mut s, '-');
    s.append(project);
    push_char(&mut s, '.');
    s.append(dns_zone);
    assert(s@ =~= host_of(name@, project@, dns_zone@));
    s
}

/// The position of the first `-` in `s` at or after `i`; `s.len()` when
/// there is none.
pub open spec fn first_dash(s: Seq<char>, i: int) -> int
    decreases s.len() - i,
{
    if i < 0 || i >= s.len() {
        s.len() as int
    } else if s[i] == '-' {
        i
    } else {
        first_dash(s, i + 1)
    }
}

/// What follows the first `-` of a namespace: the project name.
pub open spec fn project_of(s: Seq<char>) -> Seq<char> {
    s.subrange(first_dash(s, 0) + 1, s.len() as int)
}

/// Extracts the project name from a namespace of the form
/// `<prefix>-<project>`.
pub fn project_name(namespace: &str) -> (r: String)
    requires
        exists|j: int| 0 <= j < namespace@.len() && namespace@[j] == '-',
    ensures
        r@ == project_of(namespace@),
{
    let ghost d = choose|j: int| 0 <= j < namespace@.len() && namespace@[j] == '-';
    let n = namespace.unicode_len();
    let mut i: usize = 0;
    while namespace.get_char(i) != '-'
        invariant
            0 <= i <= d < namespace@.len(),
            namespace@[d] == '-',
            forall|j: int| 0 <= j < i ==> namespace@[j] != '-',
            first_dash(namespace@, 0) == first_dash(namespace@, i as int),
            n == namespace@.len(),
        decreases namespace@.len() - i,
    {
        i = i + 1;
        assert(i <= d) by {
            assert(namespace@[d] == '-');
        }
    }
    assert(first_dash(namespace@, 0) == i);
    let r = namespace.substring_char(i + 1, n).to_owned();
    assert(r@ =~= project_of(namespace@));
    r
}

/// The networks a node can serve.
pub enum Network {
    Mainnet,
    Preprod,
    Preview,
    Sanchonet,
}

/// The label each network goes by in hostnames and configuration.
pub open spec fn network_label(n: Network) -> Seq<char> {
    match n {
        Network::Mainnet => "mainnet"@,
        Network::Preprod => "preprod"@,
        Network::Preview => "preview"@,
        Network::Sanchonet => "sanchonet"@,
    }
}

impl Network {
    /// Renders the network's label.
    pub fn label(&self) -> (s: String)
        ensures
            s@ == network_label(*self),
    {
        match self {
            Network::Mainnet => "mainnet".to_owned(),
            Network::Preprod => "preprod".to_owned(),
            Network::Preview => "preview".to_owned(),
            Network::Sanchonet => "sanchonet".to_owned(),
        }
    }
}

} // verus!
