//! Batching captured audio for the frontend: bytes are collected and sent
//! in batches every [`FLUSH_INTERVAL_MS`]; when forwarding stops, what is
//! left goes out in one last batch.
use vstd::prelude::*;

verus! {

/// Milliseconds between two batches.
pub const FLUSH_INTERVAL_MS: u64 = 200;

/// Something that happens to the forwarder.
pub enum ForwardEvent {
    /// Captured bytes arrived.
    Received(Seq<u8>),
    /// The forwarding loop checks whether a batch is due, `elapsed_ms`
    /// after the last batch went out.
    FlushCheck(u64),
    /// Forwarding ends (stop requested, or the capture ended).
    Stop,
}

/// The forwarder's pending bytes after `event`, and the batch it sends
/// (if any).
pub open spec fn forward_step(pending: Seq<u8>, event: ForwardEvent) -> (Seq<u8>, Option<Seq<u8>>) {
    match event {
        ForwardEvent::Received(data) => (pending + data, None),
        ForwardEvent::FlushCheck(elapsed_ms) => if elapsed_ms >= FLUSH_INTERVAL_MS && pending.len()
            > 0 {
            (Seq::empty(), Some(pending))
        } else {
            (pending, None)
        },
        ForwardEvent::Stop => if pending.len() > 0 {
            (Seq::empty(), Some(pending))
        } else {
            (Seq::empty(), None)
        },
    }
}

/// The bytes of a batch, or nothing.
pub open spec fn batch_bytes(batch: Option<Seq<u8>>) -> Seq<u8> {
    match batch {
        Some(b) => b,
        None => Seq::empty(),
    }
}

/// Pending bytes after `events`, starting from `pending`, and all bytes
/// sent meanwhile, in order.
pub open spec fn forward_run(pending: Seq<u8>, events: Seq<ForwardEvent>) -> (Seq<u8>, Seq<u8>)
    decreases events.len(),
{
    if events.len() == 0 {
        (pending, Seq::empty())
    } else {
        let (before, sent_before) = forward_run(pending, events.drop_last());
        let (after, batch) = forward_step(before, events.last());
        (after, sent_before + batch_bytes(batch))
    }
}

/// All bytes received in `events`, in order.
pub open spec fn received_bytes(events: Seq<ForwardEvent>) -> Seq<u8>
    decreases events.len(),
{
    if events.len() == 0 {
        Seq::empty()
    } else {
        received_bytes(events.drop_last()) + match events.last() {
            ForwardEvent::Received(data) => data,
            _ => Seq::empty(),
        }
    }
}

/// The batch an exec result stands for.
pub open spec fn batch_view(batch: Option<Vec<u8>>) -> Option<Seq<u8>> {
    match batch {
        Some(b) => Some(b@),
        None => None,
    }
}

/// The batching state of one forwarding loop.
pub struct AudioForwarder {
    pending: Vec<u8>,
}

impl AudioForwarder {
    /// Bytes received and not yet sent, oldest first.
    pub closed spec fn pending(&self) -> Seq<u8> {
        self.pending@
    }

    /// A forwarder with nothing pending.
    pub fn new() -> (forwarder: AudioForwarder)
        ensures
            forwarder.pending() == Seq::<u8>::empty(),
    {
        AudioForwarder { pending: Vec::new() }
    }

    /// Adds captured bytes to the pending batch.
    pub fn push(&mut self, data: &[u8])
        ensures
            (final(self).pending(), None::<Seq<u8>>) == forward_step(
                old(self).pending(),
                ForwardEvent::Received(data@),
            ),
    {
        self.pending.extend_from_slice(data);
    }

    /// Hands out the pending bytes as a batch when `elapsed_ms` reaches
    /// [`FLUSH_INTERVAL_MS`] and something is pending; otherwise nothing
    /// changes.
    pub fn take_batch(&mut self, elapsed_ms: u64) -> (batch: Option<Vec<u8>>)
        ensures
            (final(self).pending(), batch_view(batch)) == forward_step(
                old(self).pending(),
                ForwardEvent::FlushCheck(elapsed_ms),
            ),
            batch matches Some(b) ==> b@ == old(self).pending() && final(self).pending().len()
                == 0,
            batch is None ==> final(self).pending() == old(self).pending(),
            batch is Some <==> (elapsed_ms >= FLUSH_INTERVAL_MS && old(self).pending().len() > 0),
    {
        if elapsed_ms >= FLUSH_INTERVAL_MS && self.pending.len() > 0 {
            let mut batch: Vec<u8> = Vec::new();
            std::mem::swap(&mut batch, &mut self.pending);
            Some(batch)
        } else {
            None
        }
    }

    /// Ends forwarding: hands out whatever is still pending as a last batch
    /// (nothing when nothing is pending).
    pub fn stop(&mut self) -> (batch: Option<Vec<u8>>)
        ensures
            (final(self).pending(), batch_view(batch)) == forward_step(
                old(self).pending(),
                ForwardEvent::Stop,
            ),
    {
        let mut batch: Vec<u8> = Vec::new();
        std::mem::swap(&mut batch, &mut self.pending);
        if batch.len() > 0 {
            Some(batch)
        } else {
            None
        }
    }
}

/// A due flush sends every pending byte and leaves nothing pending; a
/// check that is not due, or finds nothing pending, sends nothing and
/// changes nothing.
pub proof fn lemma_flush_sends_all_pending(pending: Seq<u8>, elapsed_ms: u64)
    ensures
        ({
            let (after, batch) = forward_step(pending, ForwardEvent::FlushCheck(elapsed_ms));
            if elapsed_ms >= FLUSH_INTERVAL_MS && pending.len() > 0 {
                &&& batch is Some
                &&& batch_bytes(batch) == pending
                &&& after.len() == 0
            } else {
                &&& batch is None
                &&& after == pending
            }
        }),
{
}

/// No byte is lost, duplicated or reordered: what has been sent, followed
/// by what is still pending, is what was pending at first followed by
/// everything received.
pub proof fn lemma_forward_conserves_bytes(pending: Seq<u8>, events: Seq<ForwardEvent>)
    ensures
        forward_run(pending, events).1 + forward_run(pending, events).0 == pending
            + received_bytes(events),
    decreases events.len(),
{
    if events.len() > 0 {
        let init = events.drop_last();
        lemma_forward_conserves_bytes(pending, init);
        let (before, sent_before) = forward_run(pending, init);
        match events.last() {
            ForwardEvent::Received(data) => {
                assert(sent_before + (before + data) =~= (sent_before + before) + data);
            },
            ForwardEvent::FlushCheck(elapsed_ms) => {
                if elapsed_ms >= FLUSH_INTERVAL_MS && before.len() > 0 {
                    assert(sent_before + before + Seq::<u8>::empty() =~= sent_before + before);
                } else {
                    assert(sent_before + Seq::<u8>::empty() =~= sent_before);
                }
            },
            ForwardEvent::Stop => {
                if before.len() > 0 {
                    assert(sent_before + before + Seq::<u8>::empty() =~= sent_before + before);
                } else {
                    assert(sent_before + Seq::<u8>::empty() + Seq::<u8>::empty() =~= sent_before
                        + before);
                }
            },
        }
        assert(received_bytes(events) == received_bytes(init) + match events.last() {
            ForwardEvent::Received(data) => data,
            _ => Seq::empty(),
        });
    } else {
        assert(Seq::<u8>::empty() + pending =~= pending + Seq::<u8>::empty());
    }
}

/// Once forwarding stops nothing is left pending, so everything received
/// has been sent, in order.
pub proof fn lemma_stop_sends_everything(events: Seq<ForwardEvent>)
    requires
        events.len() > 0,
        events.last() is Stop,
    ensures
        forward_run(Seq::empty(), events).0 == Seq::<u8>::empty(),
        forward_run(Seq::empty(), events).1 == received_bytes(events),
{
    lemma_forward_conserves_bytes(Seq::empty(), events);
    let r = forward_run(Seq::<u8>::empty(), events);
    assert(r.1 + r.0 == received_bytes(events));
    assert(r.1 + r.0 =~= r.1);
}

} // verus!
