//! Admission: from an SNI hostname to either a connection context or a
//! rejection.
//!
//! The hostname is parsed against the grammar, the token decoded, the
//! consumer looked up, its tier resolved and its connection cap checked.
//! A hostname outside the grammar, an undecodable token and an unknown
//! consumer are rejected silently; a missing tier and a full cap are
//! rejected and counted against the consumer's labels.

use vstd::prelude::*;

use crate::metrics::{denied_nondecreasing, point_at, sat_add, Labels, MetricPointV};
use crate::registry::{label_of, Consumer, ConsumerV};
use crate::sni::{parse_sni, sni_parse};
use crate::state::{counts_ok, State};
use crate::token::{decode_auth_token, token_key};
use crate::util::{dec_digits, push_char, u64_to_dec};

verus! {

/// What admission needs to know of the configuration: the upstream name
/// suffix and the namespace label.
pub struct UpstreamConfig {
    pub node_dns: String,
    pub node_port: u16,
    pub proxy_namespace: String,
}

/// Why a connection was not admitted.
#[derive(Clone, Copy, PartialEq, Eq, Structural, Debug)]
pub enum RejectReason {
    /// The SNI hostname leaves the grammar: rejected silently.
    InvalidHostname,
    /// The token does not decode, or no consumer is on file for the key:
    /// rejected silently.
    UnknownConsumer,
    /// The consumer's tier is not on file: rejected and counted.
    UnresolvedTier,
    /// The consumer is at its tier's connection cap: rejected and counted.
    ConnectionCapExceeded,
}

/// What a forwarder carries for one connection: the consumer snapshot and
/// the two label values derived at admission.
pub struct Context {
    pub consumer: Consumer,
    pub namespace: String,
    pub instance: String,
}

impl Context {
    pub fn new(consumer: &Consumer, instance: &str, namespace: &str) -> (c: Context)
        ensures
            c.consumer@ == consumer@,
            c.instance@ == instance@,
            c.namespace@ == namespace@,
    {
        Context {
            consumer: consumer.duplicate(),
            namespace: namespace.to_owned(),
            instance: instance.to_owned(),
        }
    }

    /// The labels every metric observation for this connection carries.
    pub fn labels(&self) -> (l: Labels)
        ensures
            l@ == context_labels(self.consumer@, self.namespace@, self.instance@),
    {
        let l = Labels {
            consumer: self.consumer.label(),
            namespace: self.namespace.clone(),
            instance: self.instance.clone(),
            tier: self.consumer.tier.clone(),
        };
        assert(l@ =~= context_labels(self.consumer@, self.namespace@, self.instance@));
        l
    }
}

/// The labels derived from a consumer snapshot and the context strings.
pub open spec fn context_labels(
    c: ConsumerV,
    namespace: Seq<char>,
    instance: Seq<char>,
) -> crate::metrics::LabelsV {
    crate::metrics::LabelsV {
        consumer: label_of(c.namespace, c.port_name),
        namespace: namespace,
        instance: instance,
        tier: c.tier,
    }
}

/// The upstream hostname for a consumer:
/// `node-<network>-<version>.<node_dns>:<node_port>`.
pub open spec fn instance_host(
    network: Seq<char>,
    version: Seq<char>,
    node_dns: Seq<char>,
    node_port: u16,
) -> Seq<char> {
    "node-"@ + network + seq!['-'] + version + seq!['.'] + node_dns + seq![':'] + dec_digits(
        node_port as nat,
    )
}

/// Builds the upstream hostname for a consumer.
pub fn build_instance_host(network: &str, version: &str, node_dns: &str, node_port: u16) -> (s:
    String)
    ensures
        s@ == instance_host(network@, version@, node_dns@, node_port),
{
    let mut s = "node-".to_owned();
    s.append(network);
    push_char(&mut s, '-');
    s.append(version);
    push_char(&mut s, '.');
    s.append(node_dns);
    push_char(&mut s, ':');
    let p = u64_to_dec(node_port as u64);
    s.append(p.as_str());
    assert(s@ =~= instance_host(network@, version@, node_dns@, node_port));
    s
}

/// The outcome of one admission decision.
pub enum AdmissionDecision {
    /// Forward: the context to run the connection under.
    Admit(Context),
    /// Close the connection.
    Reject(RejectReason),
}

/// What admission decides on the given tables, step by step.
pub open spec fn admission_reject(
    consumers: Map<Seq<u8>, ConsumerV>,
    tiers: Map<Seq<char>, crate::registry::TierV>,
    sni: Seq<char>,
) -> Option<RejectReason> {
    match sni_parse(sni) {
        None => Some(RejectReason::InvalidHostname),
        Some(p) => match token_key(p.token) {
            None => Some(RejectReason::UnknownConsumer),
            Some(k) => if !consumers.contains_key(k) {
                Some(RejectReason::UnknownConsumer)
            } else if !tiers.contains_key(consumers[k].tier) {
                Some(RejectReason::UnresolvedTier)
            } else if consumers[k].active_connections >= tiers[consumers[k].tier].max_connections {
                Some(RejectReason::ConnectionCapExceeded)
            } else {
                None
            },
        },
    }
}

/// The consumer admission speaks about, where one is on file.
pub open spec fn admission_consumer(
    consumers: Map<Seq<u8>, ConsumerV>,
    sni: Seq<char>,
) -> Option<ConsumerV> {
    match sni_parse(sni) {
        None => None,
        Some(p) => match token_key(p.token) {
            None => None,
            Some(k) => if consumers.contains_key(k) {
                Some(consumers[k])
            } else {
                None
            },
        },
    }
}

/// Whether the rejection is one that counts against the consumer.
pub open spec fn counted_reject(r: RejectReason) -> bool {
    r == RejectReason::UnresolvedTier || r == RejectReason::ConnectionCapExceeded
}

impl State {
    /// Decides one admission.  A hostname outside the grammar is rejected
    /// before anything is looked up and no metric moves; an unknown token
    /// or consumer is rejected silently; a consumer whose tier is missing
    /// or full is rejected and its denial counter moves up one; otherwise
    /// the connection context is handed back.  The registry itself never
    /// changes here.
    pub fn decide_admission(&mut self, sni: &str, cfg: &UpstreamConfig) -> (d: AdmissionDecision)
        requires
            old(self).wf(),
        ensures
            final(self).wf(),
            final(self).consumers@ == old(self).consumers@,
            final(self).limiter@ == old(self).limiter@,
            final(self).tiers@ == old(self).tiers@,
            final(self).open_count@ == old(self).open_count@,
            counts_ok(*old(self)) ==> counts_ok(*final(self)),
            denied_nondecreasing(old(self).metrics@, final(self).metrics@),
            match d {
                AdmissionDecision::Reject(r) => admission_reject(
                    old(self).consumers@,
                    old(self).tiers@,
                    sni@,
                ) == Some(r),
                AdmissionDecision::Admit(ctx) => ({
                    let c = admission_consumer(old(self).consumers@, sni@)->Some_0;
                    &&& admission_reject(old(self).consumers@, old(self).tiers@, sni@) is None
                    &&& admission_consumer(old(self).consumers@, sni@) is Some
                    &&& ctx.consumer@ == c
                    &&& ctx.namespace@ == cfg.proxy_namespace@
                    &&& ctx.instance@ == instance_host(
                        c.network,
                        c.version,
                        cfg.node_dns@,
                        cfg.node_port,
                    )
                }),
            },
            ({
                let rej = admission_reject(old(self).consumers@, old(self).tiers@, sni@);
                if rej is Some && counted_reject(rej->Some_0) {
                    ({
                        let c = admission_consumer(old(self).consumers@, sni@)->Some_0;
                        let lab = context_labels(
                            c,
                            cfg.proxy_namespace@,
                            instance_host(c.network, c.version, cfg.node_dns@, cfg.node_port),
                        );
                        final(self).metrics@ == old(self).metrics@.insert(
                            c.key,
                            (MetricPointV {
                                total_connections_denied: sat_add(
                                    point_at(
                                        old(self).metrics@,
                                        c.key,
                                        lab,
                                    ).total_connections_denied,
                                    1,
                                ),
                                ..point_at(old(self).metrics@, c.key, lab)
                            }),
                        )
                    })
                } else {
                    final(self).metrics@ == old(self).metrics@
                }
            }),
    {
        let parts = match parse_sni(sni) {
            Some(p) => p,
            None => {
                return AdmissionDecision::Reject(RejectReason::InvalidHostname);
            },
        };
        let key = match decode_auth_token(parts.token.as_str()) {
            Some(k) => k,
            None => {
                return AdmissionDecision::Reject(RejectReason::UnknownConsumer);
            },
        };
        let consumer = match self.get_consumer(key.as_slice()) {
            Some(c) => c,
            None => {
                return AdmissionDecision::Reject(RejectReason::UnknownConsumer);
            },
        };
        let instance = build_instance_host(
            consumer.network.as_str(),
            consumer.version.as_str(),
            cfg.node_dns.as_str(),
            cfg.node_port,
        );
        let ctx = Context::new(&consumer, instance.as_str(), cfg.proxy_namespace.as_str());
        let labels = ctx.labels();
        let max_connections = match self.tiers.get(&consumer.tier) {
            Some(t) => t.max_connections,
            None => {
                self.connection_denied(consumer.key.as_slice(), &labels);
                return AdmissionDecision::Reject(RejectReason::UnresolvedTier);
            },
        };
        if consumer.active_connections >= max_connections {
            self.connection_denied(consumer.key.as_slice(), &labels);
            return AdmissionDecision::Reject(RejectReason::ConnectionCapExceeded);
        }
        AdmissionDecision::Admit(ctx)
    }
}

/// The upstream address actually dialled: the first answer, and only the
/// first; no answers reject the connection.
pub fn first_upstream(addrs: &Vec<String>) -> (r: Option<&String>)
    ensures
        match r {
            Some(a) => addrs@.len() > 0 && a@ == addrs@[0]@,
            None => addrs@.len() == 0,
        },
{
    if addrs.len() == 0 {
        None
    } else {
        Some(&addrs[0])
    }
}

} // verus!
