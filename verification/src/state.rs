//! The shared state the proxy serves from: the consumer table, the limiter
//! table, the tier table and the metrics, together with the operations a
//! connection's lifecycle performs on them.
//!
//! A ghost map counts the connections currently open per consumer key, so
//! the central invariant can be stated: every consumer on file counts
//! exactly its open connections, and the connection gauge agrees.

use vstd::prelude::*;
use std::sync::Arc;

use crate::limiter::LimiterEntry;
use crate::metrics::{gauge_of, Labels, Metrics, MetricPointV, sat_add, point_at};
use crate::registry::{map_dec, map_inc, Consumer, ConsumerV, Tier, tier_ok, TierTable, TierV};
use crate::table::Table;

verus! {

/// How many connections are on file as open for `k`; zero when unknown.
pub open spec fn open_of(m: Map<Seq<u8>, nat>, k: Seq<u8>) -> nat {
    if m.contains_key(k) {
        m[k]
    } else {
        0
    }
}

/// The proxy's shared state.
pub struct State {
    pub metrics: Metrics,
    pub consumers: Table<Consumer>,
    pub limiter: Table<LimiterEntry>,
    pub tiers: TierTable,
    /// How many forwarders are open per consumer key.  The registry and the
    /// gauge are held to this count; nothing else defines it.
    pub open_count: Ghost<Map<Seq<u8>, nat>>,
}

/// Every consumer on file counts exactly its open connections, and the
/// gauge counts the open connections of every key.
pub open spec fn counts_ok(s: State) -> bool {
    &&& forall|k: Seq<u8>|
        s.consumers@.contains_key(k) ==> (#[trigger] s.consumers@[k]).active_connections
            == open_of(s.open_count@, k)
    &&& forall|k: Seq<u8>| #[trigger] gauge_of(s.metrics@, k) == open_of(s.open_count@, k)
}

impl State {
    pub open spec fn wf(&self) -> bool {
        &&& self.metrics.wf()
        &&& self.consumers.wf()
        &&& self.limiter.wf()
        &&& self.tiers.wf()
    }

    pub fn new() -> (s: State)
        ensures
            s.wf(),
            counts_ok(s),
            s.consumers@ == Map::<Seq<u8>, ConsumerV>::empty(),
            s.limiter@ == Map::<Seq<u8>, crate::limiter::LimiterEntryV>::empty(),
            s.tiers@ == Map::<Seq<char>, TierV>::empty(),
            s.metrics@ == Map::<Seq<u8>, MetricPointV>::empty(),
    {
        let s = State {
            metrics: Metrics::new(),
            consumers: Table::new(),
            limiter: Table::new(),
            tiers: TierTable::new(),
            open_count: Ghost(Map::empty()),
        };
        s
    }

    /// A snapshot of the consumer on file for `key`.
    pub fn get_consumer(&self, key: &[u8]) -> (r: Option<Consumer>)
        requires
            self.wf(),
        ensures
            match r {
                Some(c) => self.consumers@.contains_key(key@) && c@ == self.consumers@[key@],
                None => !self.consumers@.contains_key(key@),
            },
    {
        match self.consumers.get(key) {
            Some(c) => Some(c.duplicate()),
            None => None,
        }
    }

    /// A forwarder enters its open state: the consumer's count, the gauge
    /// and the open-connection count all move up one.
    pub fn connection_opened(&mut self, key: &[u8], labels: &Labels)
        requires
            old(self).wf(),
        ensures
            final(self).wf(),
            final(self).consumers@ == map_inc(old(self).consumers@, key@),
            final(self).metrics@ == old(self).metrics@.insert(
                key@,
                (MetricPointV {
                    total_connections: sat_add(
                        point_at(old(self).metrics@, key@, labels@).total_connections,
                        1,
                    ),
                    ..point_at(old(self).metrics@, key@, labels@)
                }),
            ),
            final(self).open_count@ == old(self).open_count@.insert(
                key@,
                open_of(old(self).open_count@, key@) + 1,
            ),
            final(self).limiter@ == old(self).limiter@,
            final(self).tiers@ == old(self).tiers@,
            crate::metrics::denied_nondecreasing(old(self).metrics@, final(self).metrics@),
            counts_ok(*old(self)) && open_of(old(self).open_count@, key@) < usize::MAX
                ==> counts_ok(*final(self)),
    {
        self.consumers.inc_connections(key);
        self.metrics.inc_total_connections(key, labels);
        proof {
            self.open_count@ = self.open_count@.insert(
                key@,
                open_of(self.open_count@, key@) + 1,
            );
            if counts_ok(*old(self)) && open_of(old(self).open_count@, key@) < usize::MAX {
                assert(usize::MAX <= u64::MAX);
                assert forall|k: Seq<u8>| #[trigger] gauge_of(self.metrics@, k) == open_of(
                    self.open_count@,
                    k,
                ) by {
                    assert(gauge_of(old(self).metrics@, k) == open_of(old(self).open_count@, k));
                }
                assert forall|k: Seq<u8>| self.consumers@.contains_key(k) implies (
                #[trigger] self.consumers@[k]).active_connections == open_of(
                    self.open_count@,
                    k,
                ) by {
                    assert(old(self).consumers@.contains_key(k)
                        ==> old(self).consumers@[k].active_connections == open_of(
                        old(self).open_count@,
                        k,
                    ));
                    assert(gauge_of(old(self).metrics@, k) == open_of(old(self).open_count@, k));
                }
            }
        }
    }

    /// A forwarder tears down: the consumer's count (if the consumer is
    /// still on file), the gauge and the open-connection count all move
    /// down one, never below zero.
    pub fn connection_closed(&mut self, key: &[u8], labels: &Labels)
        requires
            old(self).wf(),
        ensures
            final(self).wf(),
            final(self).consumers@ == map_dec(old(self).consumers@, key@),
            final(self).metrics@ == old(self).metrics@.insert(
                key@,
                (MetricPointV {
                    total_connections: if point_at(
                        old(self).metrics@,
                        key@,
                        labels@,
                    ).total_connections > 0 {
                        (point_at(old(self).metrics@, key@, labels@).total_connections - 1) as u64
                    } else {
                        0
                    },
                    ..point_at(old(self).metrics@, key@, labels@)
                }),
            ),
            final(self).open_count@ == old(self).open_count@.insert(
                key@,
                if open_of(old(self).open_count@, key@) > 0 {
                    (open_of(old(self).open_count@, key@) - 1) as nat
                } else {
                    0
                },
            ),
            final(self).limiter@ == old(self).limiter@,
            final(self).tiers@ == old(self).tiers@,
            crate::metrics::denied_nondecreasing(old(self).metrics@, final(self).metrics@),
            counts_ok(*old(self)) ==> counts_ok(*final(self)),
    {
        self.consumers.dec_connections(key);
        self.metrics.dec_total_connections(key, labels);
        proof {
            let before = open_of(self.open_count@, key@);
            self.open_count@ = self.open_count@.insert(
                key@,
                if before > 0 {
                    (before - 1) as nat
                } else {
                    0
                },
            );
            if counts_ok(*old(self)) {
                assert forall|k: Seq<u8>| #[trigger] gauge_of(self.metrics@, k) == open_of(
                    self.open_count@,
                    k,
                ) by {
                    assert(gauge_of(old(self).metrics@, k) == open_of(old(self).open_count@, k));
                }
                assert forall|k: Seq<u8>| self.consumers@.contains_key(k) implies (
                #[trigger] self.consumers@[k]).active_connections == open_of(
                    self.open_count@,
                    k,
                ) by {
                    assert(old(self).consumers@.contains_key(k)
                        ==> old(self).consumers@[k].active_connections == open_of(
                        old(self).open_count@,
                        k,
                    ));
                    assert(gauge_of(old(self).metrics@, k) == open_of(old(self).open_count@, k));
                }
            }
        }
    }

    /// An admission was denied for a known consumer: its denial counter
    /// moves up one and nothing else changes.
    pub fn connection_denied(&mut self, key: &[u8], labels: &Labels)
        requires
            old(self).wf(),
        ensures
            final(self).wf(),
            final(self).consumers@ == old(self).consumers@,
            final(self).limiter@ == old(self).limiter@,
            final(self).tiers@ == old(self).tiers@,
            final(self).open_count@ == old(self).open_count@,
            final(self).metrics@ == old(self).metrics@.insert(
                key@,
                (MetricPointV {
                    total_connections_denied: sat_add(
                        point_at(old(self).metrics@, key@, labels@).total_connections_denied,
                        1,
                    ),
                    ..point_at(old(self).metrics@, key@, labels@)
                }),
            ),
            crate::metrics::denied_of(final(self).metrics@, key@) == sat_add(
                crate::metrics::denied_of(old(self).metrics@, key@),
                1,
            ),
            crate::metrics::denied_nondecreasing(old(self).metrics@, final(self).metrics@),
            gauge_of(final(self).metrics@, key@) == gauge_of(old(self).metrics@, key@),
            forall|k: Seq<u8>| k != key@ ==> #[trigger] final(self).metrics@.contains_key(k)
                == old(self).metrics@.contains_key(k) && (old(self).metrics@.contains_key(k)
                ==> final(self).metrics@[k] == old(self).metrics@[k]),
            counts_ok(*old(self)) ==> counts_ok(*final(self)),
    {
        self.metrics.count_total_connections_denied(key, labels);
        proof {
            if counts_ok(*old(self)) {
                assert forall|k: Seq<u8>| #[trigger] gauge_of(self.metrics@, k) == open_of(
                    self.open_count@,
                    k,
                ) by {
                    assert(gauge_of(old(self).metrics@, k) == open_of(old(self).open_count@, k));
                }
            }
        }
    }

    /// Bytes moved for a consumer: its byte counter grows by `n` and
    /// nothing else changes.
    pub fn count_bytes(&mut self, key: &[u8], labels: &Labels, n: u64)
        requires
            old(self).wf(),
        ensures
            final(self).wf(),
            final(self).consumers@ == old(self).consumers@,
            final(self).limiter@ == old(self).limiter@,
            final(self).tiers@ == old(self).tiers@,
            final(self).open_count@ == old(self).open_count@,
            crate::metrics::bytes_of(final(self).metrics@, key@) == sat_add(
                crate::metrics::bytes_of(old(self).metrics@, key@),
                n,
            ),
            gauge_of(final(self).metrics@, key@) == gauge_of(old(self).metrics@, key@),
            forall|k: Seq<u8>| k != key@ ==> #[trigger] final(self).metrics@.contains_key(k)
                == old(self).metrics@.contains_key(k) && (old(self).metrics@.contains_key(k)
                ==> final(self).metrics@[k] == old(self).metrics@[k]),
            crate::metrics::denied_nondecreasing(old(self).metrics@, final(self).metrics@),
            counts_ok(*old(self)) ==> counts_ok(*final(self)),
    {
        self.metrics.count_total_packages_bytes(key, labels, n);
        proof {
            if counts_ok(*old(self)) {
                assert forall|k: Seq<u8>| #[trigger] gauge_of(self.metrics@, k) == open_of(
                    self.open_count@,
                    k,
                ) by {
                    assert(gauge_of(old(self).metrics@, k) == open_of(old(self).open_count@, k));
                }
            }
        }
    }

    /// Under the central invariant, a consumer on file counts exactly the
    /// forwarders currently open for its key; at a quiescent moment with
    /// none open, it counts zero.
    pub proof fn lemma_active_matches_open(s: State, k: Seq<u8>)
        requires
            counts_ok(s),
            s.consumers@.contains_key(k),
        ensures
            s.consumers@[k].active_connections == open_of(s.open_count@, k),
    {
    }

    /// Under the central invariant, the connection gauge of a consumer on
    /// file equals its live-connection count.
    pub proof fn lemma_gauge_matches_active(s: State, k: Seq<u8>)
        requires
            counts_ok(s),
            s.consumers@.contains_key(k),
        ensures
            gauge_of(s.metrics@, k) == s.consumers@[k].active_connections,
    {
    }
}

/// Why token acquisition was refused.
#[derive(Clone, Copy, PartialEq, Eq, Structural, Debug)]
pub enum AcquireRefusal {
    /// The consumer left the registry mid-connection.
    UnknownConsumer,
    /// The consumer's tier is not on file, so no bucket can be built.
    UnresolvedTier,
}

impl State {
    /// Finds or lazily builds the limiter set for `key` and hands back
    /// fresh bucket handles, to be drained outside any lock.  An existing
    /// set is reused as it stands; a missing one is rebuilt from the
    /// consumer's current tier, and refused if the consumer or its tier
    /// has left the registry.
    pub fn prepare_limiter(&mut self, key: &[u8]) -> (r: Result<
        Vec<Arc<leaky_bucket::RateLimiter>>,
        AcquireRefusal,
    >)
        requires
            old(self).wf(),
        ensures
            final(self).wf(),
            final(self).consumers@ == old(self).consumers@,
            final(self).tiers@ == old(self).tiers@,
            final(self).metrics@ == old(self).metrics@,
            final(self).open_count@ == old(self).open_count@,
            counts_ok(*old(self)) ==> counts_ok(*final(self)),
            match r {
                Ok(bs) => {
                    &&& if old(self).limiter@.contains_key(key@) {
                        final(self).limiter@ == old(self).limiter@ && bs@.len() == old(
                            self,
                        ).limiter@[key@].rates.len()
                    } else {
                        &&& old(self).consumers@.contains_key(key@)
                        &&& old(self).tiers@.contains_key(
                            old(self).consumers@[key@].tier,
                        )
                        &&& final(self).limiter@ == old(self).limiter@.insert(
                            key@,
                            (crate::limiter::LimiterEntryV {
                                key: key@,
                                rates: old(self).tiers@[old(self).consumers@[key@].tier].rates,
                            }),
                        )
                        &&& bs@.len() == old(self).tiers@[old(
                            self,
                        ).consumers@[key@].tier].rates.len()
                    }
                },
                Err(e) => {
                    &&& final(self).limiter@ == old(self).limiter@
                    &&& !old(self).limiter@.contains_key(key@)
                    &&& e == AcquireRefusal::UnknownConsumer ==> !old(
                        self,
                    ).consumers@.contains_key(key@)
                    &&& e == AcquireRefusal::UnresolvedTier ==> old(self).consumers@.contains_key(
                        key@,
                    ) && !old(self).tiers@.contains_key(old(self).consumers@[key@].tier)
                },
            },
    {
        match self.limiter.get(key) {
            Some(e) => Ok(e.clone_buckets()),
            None => {
                let c = match self.consumers.get(key) {
                    Some(c) => c,
                    None => {
                        return Err(AcquireRefusal::UnknownConsumer);
                    },
                };
                let tier: &Tier = match self.tiers.get(&c.tier) {
                    Some(t) => t,
                    None => {
                        return Err(AcquireRefusal::UnresolvedTier);
                    },
                };
                assert(tier_ok(tier@));
                let entry = LimiterEntry::build(
                    vstd::slice::slice_to_vec(key),
                    tier,
                );
                let buckets = entry.clone_buckets();
                self.limiter.insert(entry);
                Ok(buckets)
            },
        }
    }

    /// Installs a fresh tier snapshot.
    pub fn replace_tiers(&mut self, tiers: Vec<Tier>)
        requires
            old(self).wf(),
            forall|i: int| 0 <= i < tiers@.len() ==> tier_ok(#[trigger] tiers@[i]@),
        ensures
            final(self).wf(),
            final(self).tiers@ == crate::registry::tiers_map(tiers@),
            final(self).consumers@ == old(self).consumers@,
            final(self).limiter@ == old(self).limiter@,
            final(self).metrics@ == old(self).metrics@,
            final(self).open_count@ == old(self).open_count@,
            counts_ok(*old(self)) ==> counts_ok(*final(self)),
    {
        self.tiers.replace(tiers);
    }
}

} // verus!
