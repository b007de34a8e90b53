//! The registry's data model: consumers (tenant ports) and tiers
//! (throughput policies), together with the operations the proxy performs on
//! the consumer table.

use vstd::prelude::*;
use vstd::slice::slice_to_vec;

use crate::table::{Keyed, Table};
use crate::util::push_char;

verus! {

/// A tenant-facing port: the unit of authorization and accounting.
/// Identity is `key`, the decoded auth token.
pub struct Consumer {
    pub namespace: String,
    pub port_name: String,
    pub tier: String,
    pub key: Vec<u8>,
    pub network: String,
    pub version: String,
    pub active_connections: usize,
}

/// The mathematical value of a `Consumer`.
#[verifier::ext_equal]
pub ghost struct ConsumerV {
    pub namespace: Seq<char>,
    pub port_name: Seq<char>,
    pub tier: Seq<char>,
    pub key: Seq<u8>,
    pub network: Seq<char>,
    pub version: Seq<char>,
    pub active_connections: usize,
}

impl View for Consumer {
    type V = ConsumerV;

    open spec fn view(&self) -> ConsumerV {
        ConsumerV {
            namespace: self.namespace@,
            port_name: self.port_name@,
            tier: self.tier@,
            key: self.key@,
            network: self.network@,
            version: self.version@,
            active_connections: self.active_connections,
        }
    }
}

impl Keyed for Consumer {
    open spec fn skey(&self) -> Seq<u8> {
        self.key@
    }

    open spec fn val_inv(&self) -> bool {
        true
    }

    fn key_bytes(&self) -> (r: &[u8]) {
        self.key.as_slice()
    }
}

/// The `consumer` metric label: `<namespace>.<port_name>`.
pub open spec fn label_of(namespace: Seq<char>, port_name: Seq<char>) -> Seq<char> {
    namespace + seq!['.'] + port_name
}

impl Consumer {
    /// An independent copy with the same value.
    pub fn duplicate(&self) -> (c: Consumer)
        ensures
            c@ == self@,
    {
        let c = Consumer {
            namespace: self.namespace.clone(),
            port_name: self.port_name.clone(),
            tier: self.tier.clone(),
            key: slice_to_vec(self.key.as_slice()),
            network: self.network.clone(),
            version: self.version.clone(),
            active_connections: self.active_connections,
        };
        assert(c@ =~= self@);
        c
    }

    /// Renders the consumer label used on every metric line.
    pub fn label(&self) -> (s: String)
        ensures
            s@ == label_of(self.namespace@, self.port_name@),
    {
        let mut s = self.namespace.clone();
        push_char(&mut s, '.');
        let mut i: usize = 0;
        let tail = self.port_name.as_str();
        proof {
            assert(s@ =~= self.namespace@ + seq!['.'] + tail@.subrange(0, 0));
        }
        let n = tail.unicode_len();
        while i < n
            invariant
                0 <= i <= tail@.len(),
                n == tail@.len(),
                s@ == self.namespace@ + seq!['.'] + tail@.subrange(0, i as int),
            decreases tail@.len() - i,
        {
            let c = tail.get_char(i);
            push_char(&mut s, c);
            assert(s@ =~= self.namespace@ + seq!['.'] + tail@.subrange(0, i + 1 as int));
            i = i + 1;
        }
        assert(s@ =~= label_of(self.namespace@, self.port_name@));
        s
    }
}

/// What the consumer table looks like after one connection for `k` is
/// admitted: its count grows by one, saturating at the machine limit;
/// a missing entry is left untouched.
pub open spec fn map_inc(m: Map<Seq<u8>, ConsumerV>, k: Seq<u8>) -> Map<Seq<u8>, ConsumerV> {
    if m.contains_key(k) && m[k].active_connections < usize::MAX {
        m.insert(
            k,
            ConsumerV { active_connections: (m[k].active_connections + 1) as usize, ..m[k] },
        )
    } else {
        m
    }
}

/// What the consumer table looks like after one connection for `k` closes:
/// the count drops by one; a missing entry or a zero count is left untouched.
pub open spec fn map_dec(m: Map<Seq<u8>, ConsumerV>, k: Seq<u8>) -> Map<Seq<u8>, ConsumerV> {
    if m.contains_key(k) && m[k].active_connections > 0 {
        m.insert(
            k,
            ConsumerV { active_connections: (m[k].active_connections - 1) as usize, ..m[k] },
        )
    } else {
        m
    }
}

impl Table<Consumer> {
    /// Adds one to the consumer's live-connection count, if it is present.
    pub fn inc_connections(&mut self, key: &[u8])
        requires
            old(self).wf(),
        ensures
            final(self).wf(),
            final(self)@ == map_inc(old(self)@, key@),
    {
        match self.remove(key) {
            Some(mut c) => {
                if c.active_connections < usize::MAX {
                    c.active_connections = c.active_connections + 1;
                }
                let ghost cv = c@;
                self.insert(c);
                assert(self@ =~= map_inc(old(self)@, key@)) by {
                    assert(old(self)@.remove(key@).insert(key@, cv) =~= old(self)@.insert(
                        key@,
                        cv,
                    ));
                }
            },
            None => {},
        }
    }

    /// Takes one off the consumer's live-connection count, if it is present
    /// and positive; the guard makes a teardown after deletion a no-op.
    pub fn dec_connections(&mut self, key: &[u8])
        requires
            old(self).wf(),
        ensures
            final(self).wf(),
            final(self)@ == map_dec(old(self)@, key@),
    {
        match self.remove(key) {
            Some(mut c) => {
                if c.active_connections > 0 {
                    c.active_connections = c.active_connections - 1;
                }
                let ghost cv = c@;
                self.insert(c);
                assert(self@ =~= map_dec(old(self)@, key@)) by {
                    assert(old(self)@.remove(key@).insert(key@, cv) =~= old(self)@.insert(
                        key@,
                        cv,
                    ));
                }
            },
            None => {},
        }
    }

    /// The count currently on file for `key`; zero when absent.
    pub fn get_active_connections(&self, key: &[u8]) -> (n: usize)
        requires
            self.wf(),
        ensures
            n == if self@.contains_key(key@) {
                self@[key@].active_connections
            } else {
                0
            },
    {
        match self.get(key) {
            Some(c) => c.active_connections,
            None => 0,
        }
    }
}

/// One token-bucket rule: `limit` units replenished every `interval_secs`.
#[derive(Clone, Copy, PartialEq, Eq, Structural, Debug)]
pub struct TierRate {
    pub limit: usize,
    pub interval_secs: u64,
}

/// The longest replenishment interval a bucket can be built with
/// (the bucket's clock works in milliseconds of a 64-bit integer).
pub const MAX_INTERVAL_SECS: u64 = 0xFFFF_FFFF_FFFF_FFFF / 1000;

/// A rate a token bucket can actually be built from.
pub open spec fn rate_ok(r: TierRate) -> bool {
    &&& r.limit >= 1
    &&& 1 <= r.interval_secs <= MAX_INTERVAL_SECS
}

/// A named policy bundle: a connection cap plus token-bucket rate rules.
pub struct Tier {
    pub name: String,
    pub rates: Vec<TierRate>,
    pub max_connections: usize,
}

/// The mathematical value of a `Tier`.
#[verifier::ext_equal]
pub ghost struct TierV {
    pub name: Seq<char>,
    pub rates: Seq<TierRate>,
    pub max_connections: usize,
}

impl View for Tier {
    type V = TierV;

    open spec fn view(&self) -> TierV {
        TierV { name: self.name@, rates: self.rates@, max_connections: self.max_connections }
    }
}

/// Every rate of the tier can be built into a bucket.
pub open spec fn tier_ok(t: TierV) -> bool {
    forall|i: int| 0 <= i < t.rates.len() ==> rate_ok(#[trigger] t.rates[i])
}

impl Tier {
    /// An independent copy with the same value.
    pub fn duplicate(&self) -> (t: Tier)
        ensures
            t@ == self@,
    {
        let t = Tier {
            name: self.name.clone(),
            rates: slice_to_vec(self.rates.as_slice()),
            max_connections: self.max_connections,
        };
        assert(t@ =~= self@);
        t
    }
}

/// The map described by a sequence of tiers; later entries win.
pub open spec fn tiers_map(s: Seq<Tier>) -> Map<Seq<char>, TierV>
    decreases s.len(),
{
    if s.len() == 0 {
        Map::empty()
    } else {
        tiers_map(s.drop_last()).insert(s.last().name@, s.last()@)
    }
}

/// The tier table: replaced wholesale by the tier watcher, read under a
/// name by admission and the limiter builder.
pub struct TierTable {
    pub entries: Vec<Tier>,
}

impl View for TierTable {
    type V = Map<Seq<char>, TierV>;

    open spec fn view(&self) -> Map<Seq<char>, TierV> {
        tiers_map(self.entries@)
    }
}

pub proof fn lemma_tiers_map_last(s: Seq<Tier>, i: int)
    requires
        0 <= i < s.len(),
        forall|j: int| i < j < s.len() ==> s[j].name@ != s[i].name@,
    ensures
        tiers_map(s).contains_key(s[i].name@),
        tiers_map(s)[s[i].name@] == s[i]@,
    decreases s.len(),
{
    if i == s.len() - 1 {
    } else {
        lemma_tiers_map_last(s.drop_last(), i);
    }
}

pub proof fn lemma_tiers_map_absent(s: Seq<Tier>, k: Seq<char>)
    requires
        forall|i: int| 0 <= i < s.len() ==> s[i].name@ != k,
    ensures
        !tiers_map(s).contains_key(k),
    decreases s.len(),
{
    if s.len() > 0 {
        lemma_tiers_map_absent(s.drop_last(), k);
    }
}

impl TierTable {
    /// Every stored tier can be built into buckets.
    pub open spec fn wf(&self) -> bool {
        forall|i: int| 0 <= i < self.entries@.len() ==> tier_ok(#[trigger] self.entries@[i]@)
    }

    pub fn new() -> (t: Self)
        ensures
            t.wf(),
            t@ == Map::<Seq<char>, TierV>::empty(),
    {
        let t = TierTable { entries: Vec::new() };
        assert(t@ =~= Map::<Seq<char>, TierV>::empty());
        t
    }

    /// Looks a tier up by name; the latest entry under that name wins.
    pub fn get(&self, name: &String) -> (r: Option<&Tier>)
        ensures
            match r {
                Some(t) => self@.contains_key(name@) && t@ == self@[name@] && (self.wf()
                    ==> tier_ok(t@)),
                None => !self@.contains_key(name@),
            },
    {
        let n = self.entries.len();
        let mut i: usize = n;
        while i > 0
            invariant
                0 <= i <= n,
                n == self.entries@.len(),
                forall|j: int| i <= j < n ==> self.entries@[j].name@ != name@,
            decreases i,
    {
            i = i - 1;
            if self.entries[i].name == *name {
                proof {
                    lemma_tiers_map_last(self.entries@, i as int);
                }
                return Some(&self.entries[i]);
            }
        }
        proof {
            lemma_tiers_map_absent(self.entries@, name@);
        }
        None
    }

    /// Installs a fresh snapshot, replacing the whole table.
    pub fn replace(&mut self, tiers: Vec<Tier>)
        ensures
            final(self).entries@ == tiers@,
            final(self)@ == tiers_map(tiers@),
            (forall|i: int| 0 <= i < tiers@.len() ==> tier_ok(#[trigger] tiers@[i]@))
                ==> final(self).wf(),
    {
        self.entries = tiers;
    }
}

} // verus!
