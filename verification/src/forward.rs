//! The forwarder: a full-duplex byte pump between client and upstream.
//!
//! One forwarder runs per admitted connection.  Entering the open state
//! counts the connection; every read is accounted and handed on whole and
//! in order; a read of nothing (end of stream or error) tears the
//! connection down, which uncounts it.  Two ghost streams per direction
//! record every byte read and every byte handed to the writer, and each
//! step keeps them equal: the upstream receives exactly what the client
//! sent, in order, and the client exactly what the upstream sent.

use vstd::prelude::*;
use vstd::slice::slice_to_vec;

use crate::admission::Context;
use crate::metrics::Labels;
use crate::registry::{map_dec, map_inc};
use crate::state::{counts_ok, open_of, State};

verus! {

/// Where the connection stands.
#[derive(Clone, Copy, PartialEq, Eq, Structural, Debug)]
pub enum Phase {
    Open,
    Closed,
}

/// One live connection: its context, its phase, and the four byte streams
/// seen so far (per direction: what was read, and what was handed to the
/// writer).
pub struct Duplex {
    pub ctx: Context,
    pub labels: Labels,
    pub phase: Phase,
    pub client_in: Ghost<Seq<u8>>,
    pub to_instance: Ghost<Seq<u8>>,
    pub instance_in: Ghost<Seq<u8>>,
    pub to_client: Ghost<Seq<u8>>,
}

impl Duplex {
    /// Both directions forward exactly what was read, in order.
    pub open spec fn streams_ok(&self) -> bool {
        &&& self.to_instance@ == self.client_in@
        &&& self.to_client@ == self.instance_in@
    }

    /// Opens the connection: the consumer's count, the gauge and the
    /// open-connection count move up one.
    pub fn open(ctx: Context, state: &mut State) -> (d: Duplex)
        requires
            old(state).wf(),
        ensures
            final(state).wf(),
            d.phase == Phase::Open,
            d.streams_ok(),
            d.client_in@ == Seq::<u8>::empty(),
            d.instance_in@ == Seq::<u8>::empty(),
            d.ctx == ctx,
            d.labels@ == crate::admission::context_labels(ctx.consumer@, ctx.namespace@, ctx.instance@),
            final(state).consumers@ == map_inc(old(state).consumers@, ctx.consumer.key@),
            final(state).limiter@ == old(state).limiter@,
            final(state).tiers@ == old(state).tiers@,
            final(state).open_count@ == old(state).open_count@.insert(
                ctx.consumer.key@,
                open_of(old(state).open_count@, ctx.consumer.key@) + 1,
            ),
            crate::metrics::denied_nondecreasing(old(state).metrics@, final(state).metrics@),
            counts_ok(*old(state)) && open_of(old(state).open_count@, ctx.consumer.key@)
                < usize::MAX ==> counts_ok(*final(state)),
    {
        let labels = ctx.labels();
        state.connection_opened(ctx.consumer.key.as_slice(), &labels);
        Duplex {
            ctx,
            labels,
            phase: Phase::Open,
            client_in: Ghost(Seq::empty()),
            to_instance: Ghost(Seq::empty()),
            instance_in: Ghost(Seq::empty()),
            to_client: Ghost(Seq::empty()),
        }
    }

    /// The client sent `data`: account the bytes and hand back exactly
    /// what must be written to the upstream, in order.
    pub fn on_client_read(&mut self, state: &mut State, data: &[u8]) -> (out: Vec<u8>)
        requires
            old(self).phase == Phase::Open,
            old(state).wf(),
            data@.len() > 0,
        ensures
            final(state).wf(),
            out@ == data@,
            final(self).phase == Phase::Open,
            final(self).client_in@ == old(self).client_in@ + data@,
            final(self).to_instance@ == old(self).to_instance@ + out@,
            final(self).instance_in@ == old(self).instance_in@,
            final(self).to_client@ == old(self).to_client@,
            final(self).ctx == old(self).ctx,
            final(self).labels == old(self).labels,
            old(self).streams_ok() ==> final(self).streams_ok(),
            final(state).consumers@ == old(state).consumers@,
            final(state).limiter@ == old(state).limiter@,
            final(state).tiers@ == old(state).tiers@,
            final(state).open_count@ == old(state).open_count@,
            crate::metrics::bytes_of(final(state).metrics@, old(self).ctx.consumer.key@)
                == crate::metrics::sat_add(
                crate::metrics::bytes_of(old(state).metrics@, old(self).ctx.consumer.key@),
                data@.len() as u64,
            ),
            crate::metrics::denied_nondecreasing(old(state).metrics@, final(state).metrics@),
            counts_ok(*old(state)) ==> counts_ok(*final(state)),
    {
        state.count_bytes(self.ctx.consumer.key.as_slice(), &self.labels, data.len() as u64);
        proof {
            self.client_in@ = self.client_in@ + data@;
            self.to_instance@ = self.to_instance@ + data@;
        }
        slice_to_vec(data)
    }

    /// The upstream sent `data`: account the bytes and hand back exactly
    /// what must be written to the client, in order.  The caller acquires
    /// `data.len()` tokens from every bucket of the consumer's limiter set
    /// before this step.
    pub fn on_instance_read(&mut self, state: &mut State, data: &[u8]) -> (out: Vec<u8>)
        requires
            old(self).phase == Phase::Open,
            old(state).wf(),
            data@.len() > 0,
        ensures
            final(state).wf(),
            out@ == data@,
            final(self).phase == Phase::Open,
            final(self).instance_in@ == old(self).instance_in@ + data@,
            final(self).to_client@ == old(self).to_client@ + out@,
            final(self).client_in@ == old(self).client_in@,
            final(self).to_instance@ == old(self).to_instance@,
            final(self).ctx == old(self).ctx,
            final(self).labels == old(self).labels,
            old(self).streams_ok() ==> final(self).streams_ok(),
            final(state).consumers@ == old(state).consumers@,
            final(state).limiter@ == old(state).limiter@,
            final(state).tiers@ == old(state).tiers@,
            final(state).open_count@ == old(state).open_count@,
            crate::metrics::bytes_of(final(state).metrics@, old(self).ctx.consumer.key@)
                == crate::metrics::sat_add(
                crate::metrics::bytes_of(old(state).metrics@, old(self).ctx.consumer.key@),
                data@.len() as u64,
            ),
            crate::metrics::denied_nondecreasing(old(state).metrics@, final(state).metrics@),
            counts_ok(*old(state)) ==> counts_ok(*final(state)),
    {
        state.count_bytes(self.ctx.consumer.key.as_slice(), &self.labels, data.len() as u64);
        proof {
            self.instance_in@ = self.instance_in@ + data@;
            self.to_client@ = self.to_client@ + data@;
        }
        slice_to_vec(data)
    }

    /// A read returned nothing, a write failed, or token acquisition was
    /// refused: the connection closes.  The consumer's count (if it is
    /// still on file), the gauge and the open-connection count move down
    /// one; the streams stand as they are.
    pub fn close(&mut self, state: &mut State)
        requires
            old(self).phase == Phase::Open,
            old(state).wf(),
        ensures
            final(state).wf(),
            final(self).phase == Phase::Closed,
            final(self).client_in@ == old(self).client_in@,
            final(self).to_instance@ == old(self).to_instance@,
            final(self).instance_in@ == old(self).instance_in@,
            final(self).to_client@ == old(self).to_client@,
            final(self).ctx == old(self).ctx,
            old(self).streams_ok() ==> final(self).streams_ok(),
            final(state).consumers@ == map_dec(old(state).consumers@, old(self).ctx.consumer.key@),
            final(state).limiter@ == old(state).limiter@,
            final(state).tiers@ == old(state).tiers@,
            final(state).open_count@ == old(state).open_count@.insert(
                old(self).ctx.consumer.key@,
                if open_of(old(state).open_count@, old(self).ctx.consumer.key@) > 0 {
                    (open_of(old(state).open_count@, old(self).ctx.consumer.key@) - 1) as nat
                } else {
                    0
                },
            ),
            crate::metrics::denied_nondecreasing(old(state).metrics@, final(state).metrics@),
            counts_ok(*old(state)) ==> counts_ok(*final(state)),
    {
        state.connection_closed(self.ctx.consumer.key.as_slice(), &self.labels);
        self.phase = Phase::Closed;
    }
}

} // verus!
