//! Verified core of a multi-tenant TLS-terminating reverse proxy.
//!
//! Tenants are identified by the SNI hostname they present; a live registry
//! maps decoded auth keys to consumers (tenant ports), tier names to
//! throughput policies, and auth keys to token-bucket limiter sets.  This
//! crate holds the data model and every decision the proxy makes; the
//! unverified shell around it (TLS, sockets, the registry subscriptions)
//! only moves plain values in and out.
//!
//! The modules, roughly in dependency order:
//!
//! - [`util`], [`table`]: byte-string helpers and the keyed association
//!   table, viewed as a `Map`, that every registry table is built on.
//! - [`token`]: the checksummed auth-token encoding and api-key
//!   derivation, behind named trusted calls.
//! - [`sni`]: the SNI hostname grammar and its parser.
//! - [`registry`], [`ports`]: consumers, tiers, port records, and how a
//!   consumer is derived from a port.
//! - [`tierdoc`]: the tier configuration document's grammar and parser.
//! - [`limiter`], [`metrics`]: token-bucket sets and the metric model
//!   with its text renderer.
//! - [`state`], [`watch`], [`admission`], [`forward`]: the shared state,
//!   the watcher events that mutate it, the admission decision, and the
//!   per-connection byte pump.
//!
//! The contracts carry the system's laws: every consumer on file counts
//! exactly its open connections and the gauge agrees (`state::counts_ok`,
//! preserved by every operation and by watcher events under
//! `watch::fresh_keys_closed`); denial counters only grow
//! (`metrics::denied_nondecreasing`); a restart keeps the counts of the
//! keys it keeps (`watch::lemma_restarted_counts`); applying the same port
//! event twice changes nothing more (`watch::lemma_applied_idempotent`);
//! and each direction of a connection forwards exactly the bytes read, in
//! order (`forward::Duplex::streams_ok`).

pub mod admission;
pub mod forward;
pub mod limiter;
pub mod metrics;
pub mod ports;
pub mod registry;
pub mod sni;
pub mod state;
pub mod table;
pub mod tierdoc;
pub mod token;
pub mod util;
pub mod watch;
