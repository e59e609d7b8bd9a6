//! The per-connection reassembly worker and its result. A `Monitor` owns one
//! connection's state exclusively: it classifies each delivered segment as
//! initiator- or responder-direction, keeps each direction's list strictly
//! ordered by sequence number, tracks the simplified close state, and is
//! drained exactly once into a `ReconstructedPackets`.

use vstd::prelude::*;
use crate::stream::close::close_step;
use crate::stream::close::step_close_state;
use crate::stream::close::CloseState;
use crate::stream::order::insert_segment;
use crate::stream::order::spec_insert;
use crate::stream::order::sorted_by_seq;
use crate::wire::ConnectionKey;
use crate::wire::Segment;

verus! {

/// Which direction of a reconstructed connection an operation selects.
#[derive(PartialEq, Eq, Structural, Clone, Copy, Debug)]
pub enum PacketDirection {
    /// The direction of the first captured segment.
    Init,
    /// The reverse direction.
    Resp,
    /// Both directions at once; no operation supports this and each fails
    /// fast on it.
    Both,
}

/// Payload bytes of the segments in order, concatenated.
pub open spec fn concat_payloads(s: Seq<Segment>) -> Seq<u8>
    decreases s.len(),
{
    if s.len() == 0 {
        Seq::empty()
    } else {
        concat_payloads(s.drop_last()) + s.last().payload@
    }
}

/// The reconstruction a worker's current lists would form.
pub open spec fn recon_model_of(m: Monitor) -> ReconstructionModel {
    ReconstructionModel { key: m.key, init: m.init_packets@, resp: m.resp_packets@ }
}

/// The immutable result of one connection's reassembly: the two ordered
/// segment lists and the connection identity they were collected under.
/// Produced exactly once per worker lifetime and never mutated after.
pub struct ReconstructedPackets {
    pub key: ConnectionKey,
    pub init_packets: Vec<Segment>,
    pub resp_packets: Vec<Segment>,
}

/// The mathematical value of a `ReconstructedPackets`.
#[verifier::ext_equal]
pub struct ReconstructionModel {
    pub key: ConnectionKey,
    pub init: Seq<Segment>,
    pub resp: Seq<Segment>,
}

impl ReconstructedPackets {
    pub open spec fn model(self) -> ReconstructionModel {
        ReconstructionModel {
            key: self.key,
            init: self.init_packets@,
            resp: self.resp_packets@,
        }
    }

    pub fn new(key: ConnectionKey, init_packets: Vec<Segment>, resp_packets: Vec<Segment>) -> (r:
        ReconstructedPackets)
        ensures
            r.key == key,
            r.init_packets == init_packets,
            r.resp_packets == resp_packets,
    {
        ReconstructedPackets { key, init_packets, resp_packets }
    }

    /// Canonical identity of the connection: the 4-tuple the worker was
    /// created under.
    pub fn connection_identity(&self) -> (k: ConnectionKey)
        ensures
            k == self.key,
    {
        self.key
    }

    /// The same identity with source and destination swapped.
    pub fn mirror_identity(&self) -> (k: ConnectionKey)
        ensures
            k == self.key.mirror_spec(),
    {
        self.key.mirror()
    }

    /// The reassembled initiator-direction segments in order.
    pub fn initiator_segments(&self) -> (s: &Vec<Segment>)
        ensures
            s@ == self.init_packets@,
    {
        &self.init_packets
    }

    /// The reassembled responder-direction segments in order.
    pub fn responder_segments(&self) -> (s: &Vec<Segment>)
        ensures
            s@ == self.resp_packets@,
    {
        &self.resp_packets
    }

    /// Payload-only bytes of the initiator direction, concatenated in
    /// reassembled order.
    pub fn initiator_message(&self) -> (msg: Vec<u8>)
        ensures
            msg@ == concat_payloads(self.init_packets@),
    {
        concat_message(&self.init_packets)
    }

    /// Payload-only bytes of the responder direction, concatenated in
    /// reassembled order.
    pub fn responder_message(&self) -> (msg: Vec<u8>)
        ensures
            msg@ == concat_payloads(self.resp_packets@),
    {
        concat_message(&self.resp_packets)
    }
}

fn concat_message(segments: &Vec<Segment>) -> (msg: Vec<u8>)
    ensures
        msg@ == concat_payloads(segments@),
{
    let mut msg: Vec<u8> = Vec::new();
    let n = segments.len();
    let mut i: usize = 0;
    while i < n
        invariant
            i <= n,
            n == segments@.len(),
            msg@ == concat_payloads(segments@.subrange(0, i as int)),
        decreases n - i,
    {
        let payload_len = segments[i].payload.len();
        let mut k: usize = 0;
        while k < payload_len
            invariant
                k <= payload_len,
                i < n,
                n == segments@.len(),
                payload_len == segments@[i as int].payload@.len(),
                msg@ == concat_payloads(segments@.subrange(0, i as int))
                    + segments@[i as int].payload@.subrange(0, k as int),
            decreases payload_len - k,
        {
            let b = segments[i].payload[k];
            msg.push(b);
            assert(segments@[i as int].payload@.subrange(0, k + 1)
                == segments@[i as int].payload@.subrange(0, k as int).push(b));
            k = k + 1;
        }
        proof {
            let prefix = segments@.subrange(0, i + 1);
            assert(prefix.drop_last() == segments@.subrange(0, i as int));
            assert(prefix.last() == segments@[i as int]);
            assert(segments@[i as int].payload@.subrange(
                0,
                segments@[i as int].payload@.len() as int,
            ) == segments@[i as int].payload@);
        }
        i = i + 1;
    }
    assert(segments@.subrange(0, n as int) == segments@);
    msg
}

/// One connection's reassembly state, owned exclusively by its worker.
pub struct Monitor {
    /// The identity the worker was created under: the initiator direction.
    pub key: ConnectionKey,
    /// The mirrored identity: the responder direction.
    pub reverse_key: ConnectionKey,
    /// Initiator-direction segments, strictly ascending by sequence number.
    pub init_packets: Vec<Segment>,
    /// Responder-direction segments, strictly ascending by sequence number.
    pub resp_packets: Vec<Segment>,
    /// When the worker was created (milliseconds).
    pub start_time: u64,
    /// When a segment last arrived (milliseconds).
    pub last_update: u64,
    /// The simplified close state.
    pub tcp_state: CloseState,
}

/// How a worker answers one delivered segment: the segment lands in the
/// initiator list exactly when its identity equals the worker's primary key
/// and in the responder list otherwise (in particular on the mirror key),
/// ordered insertion governs the chosen list, the other list is untouched,
/// the activity stamp is refreshed, and the close state takes one step.
pub open spec fn push_rel(m0: Monitor, m1: Monitor, seg: Segment, now: u64) -> bool {
    &&& m1.key == m0.key
    &&& m1.reverse_key == m0.reverse_key
    &&& m1.start_time == m0.start_time
    &&& m1.last_update == now
    &&& m1.tcp_state == close_step(m0.tcp_state, seg.fin, seg.ack)
    &&& if seg.key == m0.key {
        m1.resp_packets == m0.resp_packets && m1.init_packets@ == spec_insert(
            m0.init_packets@,
            seg,
        )
    } else {
        m1.init_packets == m0.init_packets && m1.resp_packets@ == spec_insert(
            m0.resp_packets@,
            seg,
        )
    }
}

/// Reordering law at the worker: however a run of initiator-direction
/// segments is interleaved in time, a worker that started empty holds
/// exactly their reassembly afterwards — with `lemma_reordering_reassembly`,
/// the same list for every arrival order of the same distinct segments.
/// `states` are the worker's states around each delivery and `times` the
/// delivery times.
pub proof fn lemma_worker_reassembles(states: Seq<Monitor>, deliveries: Seq<Segment>, times: Seq<
    u64,
>)
    requires
        states.len() == deliveries.len() + 1,
        times.len() == deliveries.len(),
        states[0].init_packets@ == Seq::<Segment>::empty(),
        forall|i: int| 0 <= i < deliveries.len() ==> (#[trigger] deliveries[i]).key
            == states[0].key,
        forall|i: int|
            0 <= i < deliveries.len() ==> push_rel(
                states[i],
                states[i + 1],
                #[trigger] deliveries[i],
                times[i],
            ),
    ensures
        states.last().key == states[0].key,
        states.last().init_packets@ == crate::stream::order::reassemble(deliveries),
    decreases deliveries.len(),
{
    if deliveries.len() == 0 {
        assert(states.last() == states[0]);
    } else {
        let n = deliveries.len() as int;
        lemma_worker_reassembles(
            states.subrange(0, n),
            deliveries.subrange(0, n - 1),
            times.subrange(0, n - 1),
        );
        assert(states.subrange(0, n)[0] == states[0]);
        assert(states.subrange(0, n).last() == states[n - 1]);
        assert(deliveries.subrange(0, n - 1) =~= deliveries.drop_last());
        assert(push_rel(states[n - 1], states[n], deliveries[n - 1], times[n - 1]));
        assert(deliveries[n - 1].key == states[n - 1].key);
        assert(states.last() == states[n]);
    }
}

impl Monitor {
    /// Both direction lists are strictly ordered and the reverse key is the
    /// mirror of the primary key.
    pub open spec fn wf(self) -> bool {
        &&& self.reverse_key == self.key.mirror_spec()
        &&& sorted_by_seq(self.init_packets@)
        &&& sorted_by_seq(self.resp_packets@)
    }

    /// A fresh worker for the connection identified by `key`, created at
    /// `now`, with nothing received yet.
    pub fn new(key: ConnectionKey, now: u64) -> (m: Monitor)
        ensures
            m.wf(),
            m.key == key,
            m.reverse_key == key.mirror_spec(),
            m.init_packets@ == Seq::<Segment>::empty(),
            m.resp_packets@ == Seq::<Segment>::empty(),
            m.start_time == now,
            m.last_update == now,
            m.tcp_state == CloseState::Established,
    {
        Monitor {
            key,
            reverse_key: key.mirror(),
            init_packets: Vec::new(),
            resp_packets: Vec::new(),
            start_time: now,
            last_update: now,
            tcp_state: CloseState::Established,
        }
    }

    /// Deliver one segment to this worker at time `now`.
    pub fn push(&mut self, seg: Segment, now: u64)
        requires
            old(self).wf(),
        ensures
            final(self).wf(),
            push_rel(*old(self), *final(self), seg, now),
    {
        self.tcp_state = step_close_state(self.tcp_state, seg.fin, seg.ack);
        self.last_update = now;
        if seg.key == self.key {
            insert_segment(&mut self.init_packets, seg);
        } else {
            insert_segment(&mut self.resp_packets, seg);
        }
    }

    /// Package the two segment lists into the worker's one result, leaving
    /// the lists empty. Called exactly once, when the worker terminates by
    /// close or by idle-eviction.
    pub fn take_reconstruction(&mut self) -> (r: ReconstructedPackets)
        requires
            old(self).wf(),
        ensures
            final(self).wf(),
            r.key == old(self).key,
            r.init_packets == old(self).init_packets,
            r.resp_packets == old(self).resp_packets,
            final(self).key == old(self).key,
            final(self).reverse_key == old(self).reverse_key,
            final(self).init_packets@ == Seq::<Segment>::empty(),
            final(self).resp_packets@ == Seq::<Segment>::empty(),
            final(self).start_time == old(self).start_time,
            final(self).last_update == old(self).last_update,
            final(self).tcp_state == old(self).tcp_state,
    {
        let mut init_packets: Vec<Segment> = Vec::new();
        let mut resp_packets: Vec<Segment> = Vec::new();
        std::mem::swap(&mut init_packets, &mut self.init_packets);
        std::mem::swap(&mut resp_packets, &mut self.resp_packets);
        ReconstructedPackets { key: self.key, init_packets, resp_packets }
    }
}

} // verus!
