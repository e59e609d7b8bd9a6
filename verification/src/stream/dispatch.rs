//! The dispatcher: the single owner of the connection table. For each
//! captured frame it decodes a TCP segment, looks the segment's identity and
//! its mirror up in the table, and either delivers the segment to the
//! matching worker, removes a stale entry whose worker has already
//! terminated, or spawns a fresh worker seeded with the segment. It also
//! enforces idle-eviction with a periodic sweep, so a connection that stalls
//! after one segment is still evicted.

use vstd::prelude::*;
use crate::stream::close::close_step;
use crate::stream::close::CloseState;
use crate::stream::monitor::push_rel;
use crate::stream::monitor::recon_model_of;
use crate::stream::monitor::Monitor;
use crate::stream::monitor::ReconstructedPackets;
use crate::wire::decode_frame;
use crate::wire::decode_spec;
use crate::wire::same_connection;
use crate::wire::ConnectionKey;
use crate::wire::DecodeError;
use crate::wire::Segment;
use crate::wire::SegmentModel;

verus! {

/// How long a worker may sit without a new segment before it is evicted
/// idle (milliseconds).
pub const IDLE_TIMEOUT_MS: u64 = 10000;

/// The dispatcher's record of one worker: the worker itself and whether it
/// has already terminated (emitted its one reconstruction). A terminated
/// worker's entry stays in the table until the next frame for its identity
/// reveals it as stale.
pub struct WorkerHandler {
    pub monitor: Monitor,
    pub done: bool,
}

impl WorkerHandler {
    pub fn new(monitor: Monitor) -> (r: WorkerHandler)
        ensures
            r.monitor == monitor,
            !r.done,
    {
        WorkerHandler { monitor, done: false }
    }
}

/// What became of one captured frame.
pub enum RouteOutcome {
    /// The frame could not be decoded into a TCP segment and was dropped.
    DecodeFailed(DecodeError),
    /// The segment was delivered to the existing worker for its connection.
    Delivered,
    /// The segment was delivered and the worker thereby observed a graceful
    /// close: the worker terminated and this is its reconstruction.
    Completed(ReconstructedPackets),
    /// The table entry for the segment's connection referred to a worker
    /// that had already terminated: the entry was removed and the frame was
    /// dropped, not retried.
    StaleRemoved,
    /// No entry matched: a fresh worker was spawned, seeded with this
    /// segment, and registered under the segment's identity.
    Spawned,
}

/// The segment's identity matches the entry's primary key (initiator
/// direction) or its mirror (responder direction).
pub open spec fn entry_matches(h: WorkerHandler, k: ConnectionKey) -> bool {
    h.monitor.key == k || h.monitor.reverse_key == k
}

/// The worker has been idle at least `IDLE_TIMEOUT_MS` at time `now`.
pub open spec fn expired(m: Monitor, now: u64) -> bool {
    now >= m.last_update + IDLE_TIMEOUT_MS
}

/// A live worker whose idle bound has elapsed is evicted by the sweep.
pub open spec fn should_evict(h: WorkerHandler, now: u64) -> bool {
    !h.done && expired(h.monitor, now)
}

/// The worker's state after its lists were drained into its reconstruction:
/// identity, timestamps and close state kept, both lists empty.
pub open spec fn drained(m0: Monitor, m1: Monitor) -> bool {
    &&& m1.key == m0.key
    &&& m1.reverse_key == m0.reverse_key
    &&& m1.init_packets@ == Seq::<Segment>::empty()
    &&& m1.resp_packets@ == Seq::<Segment>::empty()
    &&& m1.start_time == m0.start_time
    &&& m1.last_update == m0.last_update
    &&& m1.tcp_state == m0.tcp_state
}

/// How one live entry answers a delivered segment `m`: some segment with
/// exactly the decoded fields is pushed onto the worker; if the worker
/// thereby reaches Closed it terminates, the entry is marked done, and the
/// outcome carries its reconstruction, otherwise the entry keeps the pushed
/// worker and the outcome reports plain delivery.
pub open spec fn delivered_entry_rel(
    h0: WorkerHandler,
    h1: WorkerHandler,
    m: SegmentModel,
    now: u64,
    r: RouteOutcome,
) -> bool {
    exists|seg: Segment, mid: Monitor|
        {
            &&& seg.model() == m
            &&& #[trigger] push_rel(h0.monitor, mid, seg, now)
            &&& if mid.tcp_state == CloseState::Closed {
                &&& h1.done
                &&& drained(mid, h1.monitor)
                &&& r matches RouteOutcome::Completed(rp) && rp.model() == recon_model_of(mid)
            } else {
                &&& h1.monitor == mid
                &&& h1.done == h0.done
                &&& r matches RouteOutcome::Delivered
            }
        }
}

/// A fresh worker spawned for segment `m` at time `now`: appended to the
/// table, live, registered under the segment's identity, seeded with
/// exactly that segment in its initiator list, with the close state already
/// stepped by the segment's flags.
pub open spec fn spawned_rel(
    d0: StreamReaderThread,
    d1: StreamReaderThread,
    m: SegmentModel,
    now: u64,
) -> bool {
    &&& d1.conn_list@.len() == d0.conn_list@.len() + 1
    &&& d1.conn_list@.subrange(0, d0.conn_list@.len() as int) == d0.conn_list@
    &&& ({
        let h = d1.conn_list@.last();
        &&& !h.done
        &&& h.monitor.key == m.key
        &&& h.monitor.reverse_key == m.key.mirror_spec()
        &&& h.monitor.start_time == now
        &&& h.monitor.last_update == now
        &&& h.monitor.tcp_state == close_step(CloseState::Established, m.fin, m.ack)
        &&& h.monitor.init_packets@.len() == 1
        &&& h.monitor.init_packets@[0].model() == m
        &&& h.monitor.resp_packets@ == Seq::<Segment>::empty()
    })
}

/// What routing one frame means, relating the dispatcher before and after:
/// an undecodable frame changes nothing and reports why; a decoded segment
/// whose identity (or mirror) has a table entry is delivered there if the
/// worker is live and removes the entry if it is stale; a segment with no
/// entry spawns a fresh worker. At most one entry can match, so the chosen
/// entry is the matching one.
pub open spec fn route_rel(
    d0: StreamReaderThread,
    d1: StreamReaderThread,
    b: Seq<u8>,
    now: u64,
    r: RouteOutcome,
) -> bool {
    &&& d1.port_filter == d0.port_filter
    &&& d1.is_delete_read_conn == d0.is_delete_read_conn
    &&& d1.ifname == d0.ifname
    &&& match decode_spec(b) {
        Err(e) => d1 == d0 && r == RouteOutcome::DecodeFailed(e),
        Ok(m) => {
            if exists|i: int|
                0 <= i < d0.conn_list@.len() && entry_matches(#[trigger] d0.conn_list@[i], m.key) {
                let i = choose|i: int|
                    0 <= i < d0.conn_list@.len() && entry_matches(
                        #[trigger] d0.conn_list@[i],
                        m.key,
                    );
                if d0.conn_list@[i].done {
                    &&& d1.conn_list@ == d0.conn_list@.remove(i)
                    &&& r matches RouteOutcome::StaleRemoved
                } else {
                    &&& d1.conn_list@.len() == d0.conn_list@.len()
                    &&& (forall|j: int|
                        0 <= j < d0.conn_list@.len() && j != i ==> d1.conn_list@[j]
                            == d0.conn_list@[j])
                    &&& delivered_entry_rel(d0.conn_list@[i], d1.conn_list@[i], m, now, r)
                }
            } else {
                spawned_rel(d0, d1, m, now) && r matches RouteOutcome::Spawned
            }
        },
    }
}

/// The models of the reconstructions the idle sweep at `now` emits, in
/// table order: one per entry it evicts.
pub open spec fn sweep_results(s: Seq<WorkerHandler>, now: u64) -> Seq<
    crate::stream::monitor::ReconstructionModel,
>
    decreases s.len(),
{
    if s.len() == 0 {
        Seq::empty()
    } else {
        let rest = sweep_results(s.drop_last(), now);
        if should_evict(s.last(), now) {
            rest.push(recon_model_of(s.last().monitor))
        } else {
            rest
        }
    }
}

/// How the sweep leaves one entry: evicted entries are marked done with
/// their worker drained, all others are untouched.
pub open spec fn evict_entry_rel(h0: WorkerHandler, h1: WorkerHandler, now: u64) -> bool {
    if should_evict(h0, now) {
        h1.done && drained(h0.monitor, h1.monitor)
    } else {
        h1 == h0
    }
}

/// The capture-side dispatcher: owns the connection table exclusively. The
/// port filter is accepted as configuration but does not restrict which
/// connections are tracked.
pub struct StreamReaderThread {
    pub conn_list: Vec<WorkerHandler>,
    pub port_filter: Vec<u16>,
    pub is_delete_read_conn: bool,
    pub ifname: String,
}

impl StreamReaderThread {
    /// Every worker is well formed and no two entries address the same
    /// physical connection in either orientation.
    pub open spec fn wf(self) -> bool {
        &&& (forall|i: int|
            0 <= i < self.conn_list@.len() ==> (#[trigger] self.conn_list@[i]).monitor.wf())
        &&& (forall|i: int, j: int|
            0 <= i < j < self.conn_list@.len() ==> !same_connection(
                self.conn_list@[i].monitor.key,
                self.conn_list@[j].monitor.key,
            ))
    }

    pub fn new(port_filter: Vec<u16>, is_delete_read_conn: bool, ifname: String) -> (r:
        StreamReaderThread)
        ensures
            r.wf(),
            r.conn_list@ == Seq::<WorkerHandler>::empty(),
            r.port_filter == port_filter,
            r.is_delete_read_conn == is_delete_read_conn,
            r.ifname == ifname,
    {
        StreamReaderThread { conn_list: Vec::new(), port_filter, is_delete_read_conn, ifname }
    }

    /// The index of the entry whose primary or mirror key equals `k`, if
    /// one exists.
    fn find_entry(&self, k: ConnectionKey) -> (r: Option<usize>)
        ensures
            match r {
                Some(i) => i < self.conn_list@.len() && entry_matches(
                    self.conn_list@[i as int],
                    k,
                ),
                None => forall|j: int|
                    0 <= j < self.conn_list@.len() ==> !entry_matches(
                        #[trigger] self.conn_list@[j],
                        k,
                    ),
            },
    {
        let n = self.conn_list.len();
        let mut i: usize = 0;
        while i < n
            invariant
                i <= n,
                n == self.conn_list@.len(),
                forall|j: int|
                    0 <= j < i ==> !entry_matches(#[trigger] self.conn_list@[j], k),
            decreases n - i,
        {
            let h = &self.conn_list[i];
            if h.monitor.key == k || h.monitor.reverse_key == k {
                return Some(i);
            }
            i = i + 1;
        }
        None
    }

    /// Route one captured frame at time `now`.
    pub fn handle_frame(&mut self, buffer: &[u8], now: u64) -> (r: RouteOutcome)
        requires
            old(self).wf(),
        ensures
            final(self).wf(),
            route_rel(*old(self), *final(self), buffer@, now, r),
    {
        let seg = match decode_frame(buffer) {
            Err(e) => {
                return RouteOutcome::DecodeFailed(e);
            },
            Ok(seg) => seg,
        };
        let ghost m = decode_spec(buffer@)->Ok_0;
        let ghost sg = seg;
        proof {
            assert(sg.model() =~= m);
        }
        match self.find_entry(seg.key) {
            Some(i) => {
                proof {
                    assert(entry_matches(old(self).conn_list@[i as int], m.key));
                    let ci = choose|ci: int|
                        0 <= ci < old(self).conn_list@.len() && entry_matches(
                            #[trigger] old(self).conn_list@[ci],
                            m.key,
                        );
                    lemma_entry_match_unique(*old(self), m.key, i as int, ci);
                }
                let mut h = self.conn_list.remove(i);
                if h.done {
                    proof {
                        lemma_wf_after_remove(*old(self), *self, i as int);
                    }
                    RouteOutcome::StaleRemoved
                } else {
                    h.monitor.push(seg, now);
                    let ghost mid = h.monitor;
                    let closed = match h.monitor.tcp_state {
                        CloseState::Closed => true,
                        _ => false,
                    };
                    if closed {
                        let rp = h.monitor.take_reconstruction();
                        h.done = true;
                        self.conn_list.insert(i, h);
                        proof {
                            lemma_unchanged_but_replaced(
                                old(self).conn_list@,
                                self.conn_list@,
                                i as int,
                            );
                            lemma_wf_after_replace(*old(self), *self, i as int);
                            assert(delivered_entry_rel(
                                old(self).conn_list@[i as int],
                                self.conn_list@[i as int],
                                m,
                                now,
                                RouteOutcome::Completed(rp),
                            )) by {
                                assert(push_rel(
                                    old(self).conn_list@[i as int].monitor,
                                    mid,
                                    sg,
                                    now,
                                ));
                                assert(rp.model() =~= recon_model_of(mid));
                            }
                        }
                        RouteOutcome::Completed(rp)
                    } else {
                        self.conn_list.insert(i, h);
                        proof {
                            lemma_unchanged_but_replaced(
                                old(self).conn_list@,
                                self.conn_list@,
                                i as int,
                            );
                            lemma_wf_after_replace(*old(self), *self, i as int);
                            assert(delivered_entry_rel(
                                old(self).conn_list@[i as int],
                                self.conn_list@[i as int],
                                m,
                                now,
                                RouteOutcome::Delivered,
                            )) by {
                                assert(push_rel(
                                    old(self).conn_list@[i as int].monitor,
                                    mid,
                                    sg,
                                    now,
                                ));
                            }
                        }
                        RouteOutcome::Delivered
                    }
                }
            },
            None => {
                let mut monitor = Monitor::new(seg.key, now);
                let ghost fresh = monitor;
                monitor.push(seg, now);
                let ghost pushed = monitor;
                let handler = WorkerHandler::new(monitor);
                self.conn_list.push(handler);
                proof {
                    assert(self.conn_list@.subrange(0, old(self).conn_list@.len() as int)
                        =~= old(self).conn_list@);
                    assert(self.conn_list@.last().monitor == pushed);
                    assert(pushed.init_packets@ == seq![sg]);
                    assert(pushed.init_packets@.len() == 1);
                    assert(pushed.init_packets@[0] == sg);
                    assert(sg.model() == m);
                    lemma_wf_after_spawn(*old(self), *self, m.key);
                    assert(spawned_rel(*old(self), *self, m, now));
                }
                RouteOutcome::Spawned
            },
        }
    }

    /// Evict every worker whose idle bound has elapsed at `now`, in table
    /// order, and hand back their reconstructions. The entries stay in the
    /// table, marked terminated, until a later frame for their identity
    /// reveals them as stale.
    pub fn sweep_idle(&mut self, now: u64) -> (evicted: Vec<ReconstructedPackets>)
        requires
            old(self).wf(),
        ensures
            final(self).wf(),
            final(self).port_filter == old(self).port_filter,
            final(self).is_delete_read_conn == old(self).is_delete_read_conn,
            final(self).ifname == old(self).ifname,
            final(self).conn_list@.len() == old(self).conn_list@.len(),
            forall|i: int|
                0 <= i < old(self).conn_list@.len() ==> evict_entry_rel(
                    old(self).conn_list@[i],
                    #[trigger] final(self).conn_list@[i],
                    now,
                ),
            evicted@.map_values(|rp: ReconstructedPackets| rp.model()) == sweep_results(
                old(self).conn_list@,
                now,
            ),
    {
        let ghost l0 = old(self).conn_list@;
        let mut evicted: Vec<ReconstructedPackets> = Vec::new();
        let n = self.conn_list.len();
        let mut i: usize = 0;
        while i < n
            invariant
                i <= n,
                n == l0.len(),
                self.conn_list@.len() == n,
                self.port_filter == old(self).port_filter,
                self.is_delete_read_conn == old(self).is_delete_read_conn,
                self.ifname == old(self).ifname,
                l0 == old(self).conn_list@,
                old(self).wf(),
                forall|j: int| i <= j < n ==> self.conn_list@[j] == l0[j],
                forall|j: int|
                    0 <= j < i ==> evict_entry_rel(l0[j], #[trigger] self.conn_list@[j], now),
                evicted@.map_values(|rp: ReconstructedPackets| rp.model()) == sweep_results(
                    l0.subrange(0, i as int),
                    now,
                ),
            decreases n - i,
        {
            let ghost prefix = l0.subrange(0, i as int);
            let ghost prefix1 = l0.subrange(0, i + 1);
            proof {
                assert(prefix1.drop_last() =~= prefix);
                assert(prefix1.last() == l0[i as int]);
                assert(l0[i as int].monitor.wf());
            }
            let evict = !self.conn_list[i].done && is_expired(&self.conn_list[i].monitor, now);
            if evict {
                let ghost lpre = self.conn_list@;
                let mut h = self.conn_list.remove(i);
                let rp = h.monitor.take_reconstruction();
                h.done = true;
                self.conn_list.insert(i, h);
                evicted.push(rp);
                proof {
                    assert forall|j: int| 0 <= j < n && j != i implies self.conn_list@[j]
                        == lpre[j] by {
                        if j < i {
                            assert(self.conn_list@[j] == lpre.remove(i as int)[j]);
                        } else {
                            assert(self.conn_list@[j] == lpre.remove(i as int)[j - 1]);
                        }
                    }
                    assert(evict_entry_rel(l0[i as int], self.conn_list@[i as int], now));
                    assert(rp.model() == recon_model_of(l0[i as int].monitor));
                    assert(evicted@.map_values(|rp: ReconstructedPackets| rp.model())
                        =~= sweep_results(prefix1, now));
                }
            } else {
                proof {
                    assert(!should_evict(l0[i as int], now));
                    assert(evicted@.map_values(|rp: ReconstructedPackets| rp.model())
                        =~= sweep_results(prefix1, now));
                }
            }
            i = i + 1;
        }
        proof {
            assert(l0.subrange(0, n as int) =~= l0);
            assert forall|x: int| 0 <= x < self.conn_list@.len() implies (
            #[trigger] self.conn_list@[x]).monitor.wf() by {
                assert(evict_entry_rel(l0[x], self.conn_list@[x], now));
                assert(l0[x].monitor.wf());
            }
            assert forall|x: int, y: int| 0 <= x < y < self.conn_list@.len()
                implies !same_connection(
                self.conn_list@[x].monitor.key,
                self.conn_list@[y].monitor.key,
            ) by {
                assert(evict_entry_rel(l0[x], self.conn_list@[x], now));
                assert(evict_entry_rel(l0[y], self.conn_list@[y], now));
            }
        }
        evicted
    }
}

fn is_expired(m: &Monitor, now: u64) -> (r: bool)
    ensures
        r == expired(*m, now),
{
    now >= m.last_update && now - m.last_update >= IDLE_TIMEOUT_MS
}

/// At most one table entry matches a given identity, in either orientation.
proof fn lemma_entry_match_unique(d: StreamReaderThread, k: ConnectionKey, i: int, j: int)
    requires
        d.wf(),
        0 <= i < d.conn_list@.len(),
        0 <= j < d.conn_list@.len(),
        entry_matches(d.conn_list@[i], k),
        entry_matches(d.conn_list@[j], k),
    ensures
        i == j,
{
    if i != j {
        let a = d.conn_list@[i].monitor;
        let b = d.conn_list@[j].monitor;
        assert(a.wf() && b.wf());
        assert(same_connection(a.key, b.key));
        assert(same_connection(b.key, a.key));
        if i < j {
            assert(!same_connection(d.conn_list@[i].monitor.key, d.conn_list@[j].monitor.key));
        } else {
            assert(!same_connection(d.conn_list@[j].monitor.key, d.conn_list@[i].monitor.key));
        }
    }
}

/// After the entry at `i` is taken out and one put back in its place, every
/// other entry is unchanged.
proof fn lemma_unchanged_but_replaced(s0: Seq<WorkerHandler>, s1: Seq<WorkerHandler>, i: int)
    requires
        0 <= i < s0.len(),
        s1 == s0.remove(i).insert(i, s1[i]),
    ensures
        s1.len() == s0.len(),
        forall|j: int| 0 <= j < s0.len() && j != i ==> s1[j] == s0[j],
{
    let base = s0.remove(i);
    assert forall|j: int| 0 <= j < s0.len() && j != i implies s1[j] == s0[j] by {
        if j < i {
            assert(s1[j] == base[j]);
            assert(base[j] == s0[j]);
        } else {
            assert(s1[j] == base[j - 1]);
            assert(base[j - 1] == s0[j]);
        }
    }
}

/// Removing an entry keeps the table well formed.
proof fn lemma_wf_after_remove(d0: StreamReaderThread, d1: StreamReaderThread, i: int)
    requires
        d0.wf(),
        0 <= i < d0.conn_list@.len(),
        d1.conn_list@ == d0.conn_list@.remove(i),
    ensures
        d1.wf(),
{
    assert forall|x: int| 0 <= x < d1.conn_list@.len() implies (#[trigger] d1.conn_list@[x])
        .monitor.wf() by {
        if x < i {
            assert(d1.conn_list@[x] == d0.conn_list@[x]);
        } else {
            assert(d1.conn_list@[x] == d0.conn_list@[x + 1]);
        }
    }
    assert forall|x: int, y: int| 0 <= x < y < d1.conn_list@.len() implies !same_connection(
        d1.conn_list@[x].monitor.key,
        d1.conn_list@[y].monitor.key,
    ) by {
        let x0 = if x < i { x } else { x + 1 };
        let y0 = if y < i { y } else { y + 1 };
        assert(d1.conn_list@[x] == d0.conn_list@[x0]);
        assert(d1.conn_list@[y] == d0.conn_list@[y0]);
    }
}

/// Replacing an entry with one whose worker keeps the same identity keeps
/// the table well formed.
proof fn lemma_wf_after_replace(d0: StreamReaderThread, d1: StreamReaderThread, i: int)
    requires
        d0.wf(),
        0 <= i < d0.conn_list@.len(),
        d1.conn_list@.len() == d0.conn_list@.len(),
        forall|j: int| 0 <= j < d0.conn_list@.len() && j != i ==> d1.conn_list@[j]
            == d0.conn_list@[j],
        d1.conn_list@[i].monitor.wf(),
        d1.conn_list@[i].monitor.key == d0.conn_list@[i].monitor.key,
    ensures
        d1.wf(),
{
}

/// Appending an entry whose identity matches no existing entry keeps the
/// table well formed.
proof fn lemma_wf_after_spawn(d0: StreamReaderThread, d1: StreamReaderThread, k: ConnectionKey)
    requires
        d0.wf(),
        d1.conn_list@.len() == d0.conn_list@.len() + 1,
        forall|j: int| 0 <= j < d0.conn_list@.len() ==> d1.conn_list@[j] == d0.conn_list@[j],
        forall|j: int|
            0 <= j < d0.conn_list@.len() ==> !entry_matches(#[trigger] d0.conn_list@[j], k),
        d1.conn_list@.last().monitor.wf(),
        d1.conn_list@.last().monitor.key == k,
    ensures
        d1.wf(),
{
    let n = d0.conn_list@.len() as int;
    assert forall|x: int, y: int| 0 <= x < y < d1.conn_list@.len() implies !same_connection(
        d1.conn_list@[x].monitor.key,
        d1.conn_list@[y].monitor.key,
    ) by {
        if y == n {
            let a = d0.conn_list@[x].monitor;
            assert(a.wf());
            assert(!entry_matches(d0.conn_list@[x], k));
        }
    }
}

} // verus!
