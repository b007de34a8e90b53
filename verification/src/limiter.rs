//! Token-bucket limiter sets.
//!
//! Each actively-read consumer owns one token bucket per rate of its tier;
//! a read of `n` bytes acquires `n` tokens from every bucket, so the
//! slowest rule governs.  The buckets themselves are the leaky-bucket
//! crate's; their configuration is the verified part, their clock is not.

use vstd::prelude::*;
use std::sync::Arc;
use std::time::Duration;

use crate::registry::{tier_ok, Tier, TierRate, MAX_INTERVAL_SECS};
use crate::table::Keyed;

verus! {

#[verifier::external_type_specification]
#[verifier::external_body]
pub struct ExRateLimiter(leaky_bucket::RateLimiter);

/// Relies on `RateLimiter::builder` of leaky-bucket: a bucket that starts
/// full with `limit` tokens and refills `limit` of them every
/// `interval_secs`.  The builder panics on a zero refill and on a zero or
/// overlong interval; the bounds here rule those out.
#[verifier::external_body]
fn new_bucket(limit: usize, interval_secs: u64) -> Arc<leaky_bucket::RateLimiter>
    requires
        limit >= 1,
        1 <= interval_secs <= MAX_INTERVAL_SECS,
{
    Arc::new(
        leaky_bucket::RateLimiter::builder().initial(limit).interval(
            Duration::from_secs(interval_secs),
        ).refill(limit).build(),
    )
}

/// Relies on `Arc::clone` of std: another handle to the same bucket.
#[verifier::external_body]
fn clone_bucket(b: &Arc<leaky_bucket::RateLimiter>) -> Arc<leaky_bucket::RateLimiter> {
    Arc::clone(b)
}

/// A consumer's limiter set: one bucket per rate of its tier, filed under
/// the consumer's key.
pub struct LimiterEntry {
    pub key: Vec<u8>,
    pub rates: Vec<TierRate>,
    pub buckets: Vec<Arc<leaky_bucket::RateLimiter>>,
}

/// The mathematical value of a limiter set: its key and the rates its
/// buckets were built from.
#[verifier::ext_equal]
pub ghost struct LimiterEntryV {
    pub key: Seq<u8>,
    pub rates: Seq<TierRate>,
}

impl View for LimiterEntry {
    type V = LimiterEntryV;

    open spec fn view(&self) -> LimiterEntryV {
        LimiterEntryV { key: self.key@, rates: self.rates@ }
    }
}

impl Keyed for LimiterEntry {
    open spec fn skey(&self) -> Seq<u8> {
        self.key@
    }

    open spec fn val_inv(&self) -> bool {
        &&& self.buckets@.len() == self.rates@.len()
        &&& forall|i: int|
            0 <= i < self.rates@.len() ==> crate::registry::rate_ok(#[trigger] self.rates@[i])
    }

    fn key_bytes(&self) -> (r: &[u8]) {
        self.key.as_slice()
    }
}

impl LimiterEntry {
    /// Builds the limiter set for `key` from the tier's rates, each bucket
    /// starting full.
    pub fn build(key: Vec<u8>, tier: &Tier) -> (e: LimiterEntry)
        requires
            tier_ok(tier@),
        ensures
            e@ == (LimiterEntryV { key: key@, rates: tier@.rates }),
            e.val_inv(),
            e.skey() == key@,
    {
        let n = tier.rates.len();
        let mut rates: Vec<TierRate> = Vec::new();
        let mut buckets: Vec<Arc<leaky_bucket::RateLimiter>> = Vec::new();
        let mut i: usize = 0;
        while i < n
            invariant
                0 <= i <= n,
                n == tier.rates@.len(),
                tier_ok(tier@),
                rates@ == tier.rates@.subrange(0, i as int),
                buckets@.len() == i,
            decreases n - i,
        {
            let r = tier.rates[i];
            assert(crate::registry::rate_ok(tier@.rates[i as int]));
            rates.push(r);
            buckets.push(new_bucket(r.limit, r.interval_secs));
            assert(rates@ =~= tier.rates@.subrange(0, i + 1 as int));
            i = i + 1;
        }
        assert(rates@ =~= tier.rates@);
        let e = LimiterEntry { key, rates, buckets };
        assert(e@ =~= (LimiterEntryV { key: e.key@, rates: tier@.rates }));
        e
    }

    /// Fresh handles to every bucket, to acquire from outside any lock.
    pub fn clone_buckets(&self) -> (r: Vec<Arc<leaky_bucket::RateLimiter>>)
        requires
            self.val_inv(),
        ensures
            r@.len() == self@.rates.len(),
    {
        let mut out: Vec<Arc<leaky_bucket::RateLimiter>> = Vec::new();
        let mut i: usize = 0;
        let n = self.buckets.len();
        while i < n
            invariant
                0 <= i <= n,
                n == self.buckets@.len(),
                out@.len() == i,
            decreases n - i,
        {
            out.push(clone_bucket(&self.buckets[i]));
            i = i + 1;
        }
        out
    }
}

} // verus!
