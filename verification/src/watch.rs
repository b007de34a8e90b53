//! The consumer watcher: how port-registry events change the shared state.
//!
//! The registry delivers `Restarted` (the full set, on every resubscribe),
//! `Applied` (one port created or updated) and `Deleted`.  Consumers are
//! derived from ports whose status is present and whose token decodes;
//! live-connection counts are carried over so open connections stay
//! counted; limiter sets are dropped so they rebuild against current tier
//! rules.

use vstd::prelude::*;

use crate::limiter::LimiterEntryV;
use crate::ports::{derived_consumer, CardanoNodePort, PortV};
use crate::registry::{Consumer, ConsumerV};
use crate::state::{counts_ok, open_of, State};
use crate::table::Table;

verus! {

/// No connection is open for a key the event would add afresh.  Under this
/// condition (and only under it: a port deleted and re-applied while one of
/// its connections is still open starts over at zero) watcher events keep
/// the counts consistent.
pub open spec fn fresh_keys_closed(before: State, after: Map<Seq<u8>, ConsumerV>) -> bool {
    forall|k: Seq<u8>|
        #[trigger] after.contains_key(k) && !before.consumers@.contains_key(k) ==> open_of(
            before.open_count@,
            k,
        ) == 0
}

/// One delivery of the port registry's event stream.
pub enum PortEvent {
    /// The full current set; the only consistency anchor.
    Restarted(Vec<CardanoNodePort>),
    /// One port created or updated.
    Applied(CardanoNodePort),
    /// One port deleted.
    Deleted(CardanoNodePort),
}

/// The mathematical value of a watcher event.
pub ghost enum PortEventV {
    Restarted(Seq<PortV>),
    Applied(PortV),
    Deleted(PortV),
}

impl View for PortEvent {
    type V = PortEventV;

    open spec fn view(&self) -> PortEventV {
        match self {
            PortEvent::Restarted(ps) => PortEventV::Restarted(ps@.map_values(|p: CardanoNodePort| p@)),
            PortEvent::Applied(p) => PortEventV::Applied(p@),
            PortEvent::Deleted(p) => PortEventV::Deleted(p@),
        }
    }
}

/// The derived consumer, its live-connection count carried over from the
/// table it replaces.
pub open spec fn carryover(c: ConsumerV, prior: Map<Seq<u8>, ConsumerV>) -> ConsumerV {
    if prior.contains_key(c.key) {
        ConsumerV { active_connections: prior[c.key].active_connections, ..c }
    } else {
        c
    }
}

/// The fresh consumer table a `Restarted` event builds: one entry per
/// derivable port, counts carried over from the prior table.
pub open spec fn restarted_consumers(prior: Map<Seq<u8>, ConsumerV>, ps: Seq<PortV>) -> Map<
    Seq<u8>,
    ConsumerV,
>
    decreases ps.len(),
{
    if ps.len() == 0 {
        Map::empty()
    } else {
        let m = restarted_consumers(prior, ps.drop_last());
        match derived_consumer(ps.last()) {
            Some(c) => m.insert(c.key, carryover(c, prior)),
            None => m,
        }
    }
}

/// What an event does to the consumer table.
pub open spec fn apply_consumers(prior: Map<Seq<u8>, ConsumerV>, ev: PortEventV) -> Map<
    Seq<u8>,
    ConsumerV,
> {
    match ev {
        PortEventV::Restarted(ps) => restarted_consumers(prior, ps),
        PortEventV::Applied(p) => match derived_consumer(p) {
            Some(c) => prior.insert(c.key, carryover(c, prior)),
            None => prior,
        },
        PortEventV::Deleted(p) => match derived_consumer(p) {
            Some(c) => prior.remove(c.key),
            None => prior,
        },
    }
}

/// What an event does to the limiter table: a restart clears it, a change
/// to one port drops that port's entry so it rebuilds lazily.
pub open spec fn apply_limiters(
    prior: Map<Seq<u8>, LimiterEntryV>,
    ev: PortEventV,
) -> Map<Seq<u8>, LimiterEntryV> {
    match ev {
        PortEventV::Restarted(ps) => Map::empty(),
        PortEventV::Applied(p) => match derived_consumer(p) {
            Some(c) => prior.remove(c.key),
            None => prior,
        },
        PortEventV::Deleted(p) => match derived_consumer(p) {
            Some(c) => prior.remove(c.key),
            None => prior,
        },
    }
}

impl State {
    /// Applies one watcher event to the consumer and limiter tables.
    /// Tiers, metrics and the open-connection count stand as they are.
    pub fn apply_event(&mut self, ev: PortEvent)
        requires
            old(self).wf(),
        ensures
            final(self).wf(),
            final(self).consumers@ == apply_consumers(old(self).consumers@, ev@),
            final(self).limiter@ == apply_limiters(old(self).limiter@, ev@),
            final(self).tiers@ == old(self).tiers@,
            final(self).metrics@ == old(self).metrics@,
            final(self).open_count@ == old(self).open_count@,
            counts_ok(*old(self)) && fresh_keys_closed(*old(self), final(self).consumers@)
                ==> counts_ok(*final(self)),
    {
        let ghost evv = ev@;
        proof {
            lemma_apply_consumers_counts(old(self).consumers@, evv);
        }
        match ev {
            PortEvent::Restarted(ps) => {
                let ghost psv = ps@.map_values(|p: CardanoNodePort| p@);
                let mut fresh: Table<Consumer> = Table::new();
                let n = ps.len();
                let mut i: usize = 0;
                assert(fresh@ =~= restarted_consumers(
                    self.consumers@,
                    psv.subrange(0, 0),
                ));
                while i < n
                    invariant
                        0 <= i <= n,
                        n == ps@.len(),
                        psv == ps@.map_values(|p: CardanoNodePort| p@),
                        self.wf(),
                        fresh.wf(),
                        fresh@ == restarted_consumers(self.consumers@, psv.subrange(0, i as int)),
                    decreases n - i,
                {
                    match Consumer::new(&ps[i]) {
                        Some(mut c) => {
                            match self.consumers.get(c.key.as_slice()) {
                                Some(prior) => {
                                    c.active_connections = prior.active_connections;
                                },
                                None => {},
                            }
                            assert(c@ =~= carryover(
                                derived_consumer(psv[i as int])->Some_0,
                                self.consumers@,
                            ));
                            fresh.insert(c);
                        },
                        None => {},
                    }
                    assert(psv.subrange(0, i + 1 as int).drop_last() =~= psv.subrange(0, i as int));
                    assert(fresh@ =~= restarted_consumers(
                        self.consumers@,
                        psv.subrange(0, i + 1 as int),
                    ));
                    i = i + 1;
                }
                assert(psv.subrange(0, n as int) =~= psv);
                self.consumers = fresh;
                self.limiter.clear();
            },
            PortEvent::Applied(p) => {
                match Consumer::new(&p) {
                    Some(mut c) => {
                        match self.consumers.get(c.key.as_slice()) {
                            Some(prior) => {
                                c.active_connections = prior.active_connections;
                            },
                            None => {},
                        }
                        assert(c@ =~= carryover(derived_consumer(p@)->Some_0, self.consumers@));
                        self.limiter.remove(c.key.as_slice());
                        self.consumers.insert(c);
                    },
                    None => {},
                }
            },
            PortEvent::Deleted(p) => {
                match Consumer::new(&p) {
                    Some(c) => {
                        self.consumers.remove(c.key.as_slice());
                        self.limiter.remove(c.key.as_slice());
                    },
                    None => {},
                }
            },
        }
        proof {
            assert(self.consumers@ == apply_consumers(old(self).consumers@, evv));
            if counts_ok(*old(self)) && fresh_keys_closed(*old(self), self.consumers@) {
                assert forall|k: Seq<u8>| self.consumers@.contains_key(k) implies (
                #[trigger] self.consumers@[k]).active_connections == open_of(
                    self.open_count@,
                    k,
                ) by {
                    assert(apply_consumers(old(self).consumers@, evv).contains_key(k));
                    if old(self).consumers@.contains_key(k) {
                        assert(old(self).consumers@[k].active_connections == open_of(
                            old(self).open_count@,
                            k,
                        ));
                    }
                }
                assert forall|k: Seq<u8>| #[trigger] crate::metrics::gauge_of(self.metrics@, k)
                    == open_of(self.open_count@, k) by {
                    assert(crate::metrics::gauge_of(old(self).metrics@, k) == open_of(
                        old(self).open_count@,
                        k,
                    ));
                }
            }
        }
    }
}

/// Whatever the event, an entry of the resulting consumer table counts
/// what the prior table counted for its key, or zero for a fresh key.
pub proof fn lemma_apply_consumers_counts(prior: Map<Seq<u8>, ConsumerV>, ev: PortEventV)
    ensures
        forall|k: Seq<u8>| #[trigger] apply_consumers(prior, ev).contains_key(k)
            ==> apply_consumers(prior, ev)[k].active_connections == (if prior.contains_key(k) {
            prior[k].active_connections
        } else {
            0
        }),
{
    match ev {
        PortEventV::Restarted(ps) => {
            lemma_restarted_counts(prior, ps);
        },
        PortEventV::Applied(p) => {},
        PortEventV::Deleted(p) => {},
    }
}

/// After a restart with set `ps`, the table holds exactly the keys the
/// derivable ports stand for; a key already on file keeps its
/// live-connection count, a fresh key starts at zero.
pub proof fn lemma_restarted_counts(prior: Map<Seq<u8>, ConsumerV>, ps: Seq<PortV>)
    ensures
        forall|k: Seq<u8>| #[trigger] restarted_consumers(prior, ps).contains_key(k) <==> (
        exists|i: int|
            0 <= i < ps.len() && derived_consumer(#[trigger] ps[i]) is Some && derived_consumer(
                ps[i],
            )->Some_0.key == k),
        forall|k: Seq<u8>|
            restarted_consumers(prior, ps).contains_key(k) && prior.contains_key(k)
                ==> (#[trigger] restarted_consumers(prior, ps)[k]).active_connections
                == prior[k].active_connections,
        forall|k: Seq<u8>|
            restarted_consumers(prior, ps).contains_key(k) && !prior.contains_key(k)
                ==> (#[trigger] restarted_consumers(prior, ps)[k]).active_connections == 0,
    decreases ps.len(),
{
    if ps.len() > 0 {
        lemma_restarted_counts(prior, ps.drop_last());
        assert forall|k: Seq<u8>| #[trigger] restarted_consumers(prior, ps).contains_key(k)
            implies (exists|i: int|
            0 <= i < ps.len() && derived_consumer(#[trigger] ps[i]) is Some && derived_consumer(
                ps[i],
            )->Some_0.key == k) by {
            let m = restarted_consumers(prior, ps.drop_last());
            match derived_consumer(ps.last()) {
                Some(c) => {
                    if c.key == k {
                        assert(derived_consumer(ps[ps.len() - 1]) is Some);
                    } else {
                        assert(m.contains_key(k));
                        let i = choose|i: int|
                            0 <= i < ps.drop_last().len() && derived_consumer(
                                #[trigger] ps.drop_last()[i],
                            ) is Some && derived_consumer(ps.drop_last()[i])->Some_0.key == k;
                        assert(ps[i] == ps.drop_last()[i]);
                        assert(derived_consumer(ps[i]) is Some);
                    }
                },
                None => {
                    assert(m.contains_key(k));
                    let i = choose|i: int|
                        0 <= i < ps.drop_last().len() && derived_consumer(
                            #[trigger] ps.drop_last()[i],
                        ) is Some && derived_consumer(ps.drop_last()[i])->Some_0.key == k;
                    assert(ps[i] == ps.drop_last()[i]);
                    assert(derived_consumer(ps[i]) is Some);
                },
            }
        }
        assert forall|k: Seq<u8>| (exists|i: int|
            0 <= i < ps.len() && derived_consumer(#[trigger] ps[i]) is Some && derived_consumer(
                ps[i],
            )->Some_0.key == k) implies restarted_consumers(prior, ps).contains_key(k) by {
            let i = choose|i: int|
                0 <= i < ps.len() && derived_consumer(#[trigger] ps[i]) is Some
                    && derived_consumer(ps[i])->Some_0.key == k;
            if i < ps.len() - 1 {
                assert(ps.drop_last()[i] == ps[i]);
                assert(restarted_consumers(prior, ps.drop_last()).contains_key(k));
            }
        }
        assert forall|k: Seq<u8>|
            restarted_consumers(prior, ps).contains_key(k) && prior.contains_key(k) implies (
        #[trigger] restarted_consumers(prior, ps)[k]).active_connections
            == prior[k].active_connections by {
            let m = restarted_consumers(prior, ps.drop_last());
            match derived_consumer(ps.last()) {
                Some(c) => {
                    if c.key != k {
                        assert(m.contains_key(k));
                    }
                },
                None => {
                    assert(m.contains_key(k));
                },
            }
        }
        assert forall|k: Seq<u8>|
            restarted_consumers(prior, ps).contains_key(k) && !prior.contains_key(k) implies (
        #[trigger] restarted_consumers(prior, ps)[k]).active_connections == 0 by {
            let m = restarted_consumers(prior, ps.drop_last());
            match derived_consumer(ps.last()) {
                Some(c) => {
                    if c.key != k {
                        assert(m.contains_key(k));
                    }
                },
                None => {
                    assert(m.contains_key(k));
                },
            }
        }
    }
}

/// Applying the same `Applied` event twice leaves the state it left after
/// the first time: the carried-over count is an idempotent overwrite.
pub proof fn lemma_applied_idempotent(
    consumers: Map<Seq<u8>, ConsumerV>,
    limiters: Map<Seq<u8>, LimiterEntryV>,
    p: PortV,
)
    ensures
        apply_consumers(apply_consumers(consumers, PortEventV::Applied(p)), PortEventV::Applied(p))
            == apply_consumers(consumers, PortEventV::Applied(p)),
        apply_limiters(apply_limiters(limiters, PortEventV::Applied(p)), PortEventV::Applied(p))
            == apply_limiters(limiters, PortEventV::Applied(p)),
{
    match derived_consumer(p) {
        Some(c) => {
            let once = apply_consumers(consumers, PortEventV::Applied(p));
            assert(carryover(c, once) =~= carryover(c, consumers));
            assert(apply_consumers(once, PortEventV::Applied(p)) =~= once);
            assert(apply_limiters(
                apply_limiters(limiters, PortEventV::Applied(p)),
                PortEventV::Applied(p),
            ) =~= apply_limiters(limiters, PortEventV::Applied(p)));
        },
        None => {},
    }
}

} // verus!
