use blatta_stream::stream::CloseState;
use blatta_stream::stream::CommandOutcome;
use blatta_stream::stream::Message;
use blatta_stream::stream::Monitor;
use blatta_stream::stream::ReadyServeThread;
use blatta_stream::stream::ReconstructedPackets;
use blatta_stream::stream::RouteOutcome;
use blatta_stream::stream::StreamReaderThread;
use blatta_stream::stream::close::step_close_state;
use blatta_stream::wire::ConnectionKey;
use blatta_stream::wire::Segment;

fn key_ab() -> ConnectionKey {
    ConnectionKey { src_addr: 0x0a000001, src_port: 40000, dst_addr: 0x0a000002, dst_port: 80 }
}

fn segment(key: ConnectionKey, seq: u32, fin: bool, ack: bool, payload: &[u8]) -> Segment {
    Segment { key, seq, fin, ack, payload: payload.to_vec() }
}

fn be16(v: u16) -> [u8; 2] {
    [(v >> 8) as u8, (v & 0xff) as u8]
}

fn be32(v: u32) -> [u8; 4] {
    [(v >> 24) as u8, (v >> 16) as u8, (v >> 8) as u8, (v & 0xff) as u8]
}

fn make_frame(key: ConnectionKey, seq: u32, fin: bool, ack: bool, payload: &[u8]) -> Vec<u8> {
    let mut frame = vec![0u8; 12];
    frame.extend_from_slice(&[0x08, 0x00]);
    let total_len = (20 + 20 + payload.len()) as u16;
    let mut ip = vec![0u8; 20];
    ip[0] = 0x45;
    ip[2] = be16(total_len)[0];
    ip[3] = be16(total_len)[1];
    ip[9] = 6;
    ip[12..16].copy_from_slice(&be32(key.src_addr));
    ip[16..20].copy_from_slice(&be32(key.dst_addr));
    frame.extend_from_slice(&ip);
    let mut tcp = vec![0u8; 20];
    tcp[0..2].copy_from_slice(&be16(key.src_port));
    tcp[2..4].copy_from_slice(&be16(key.dst_port));
    tcp[4..8].copy_from_slice(&be32(seq));
    tcp[12] = 0x50;
    tcp[13] = (if fin { 1 } else { 0 }) | (if ack { 0x10 } else { 0 });
    frame.extend_from_slice(&tcp);
    frame.extend_from_slice(payload);
    frame
}

fn dispatcher() -> StreamReaderThread {
    StreamReaderThread::new(vec![80u16], false, String::from("eth0"))
}

#[test]
fn reordering_any_permutation_sorts() {
    let key = key_ab();
    let deliveries = [(200u32, b"B"), (100u32, b"A"), (300u32, b"C")];
    let perms: [[usize; 3]; 6] =
        [[0, 1, 2], [0, 2, 1], [1, 0, 2], [1, 2, 0], [2, 0, 1], [2, 1, 0]];
    for perm in perms.iter() {
        let mut monitor = Monitor::new(key, 0);
        for &p in perm.iter() {
            let (seq, payload) = deliveries[p];
            monitor.push(segment(key, seq, false, false, payload), 0);
        }
        let seqs: Vec<u32> = monitor.init_packets.iter().map(|s| s.seq).collect();
        assert_eq!(seqs, vec![100, 200, 300]);
        let rp = monitor.take_reconstruction();
        assert_eq!(rp.initiator_segments().len(), 3);
        assert_eq!(rp.responder_segments().len(), 0);
        assert_eq!(rp.initiator_message(), b"ABC".to_vec());
    }
}

#[test]
fn duplicate_sequence_number_dropped() {
    let key = key_ab();
    let mut monitor = Monitor::new(key, 0);
    monitor.push(segment(key, 100, false, false, b"A"), 0);
    monitor.push(segment(key, 100, false, false, b"X"), 1);
    assert_eq!(monitor.init_packets.len(), 1);
    assert_eq!(monitor.init_packets[0].payload, b"A".to_vec());
    // the duplicate still counts as activity
    assert_eq!(monitor.last_update, 1);
}

#[test]
fn mirror_segment_lands_in_responder_list() {
    let key = key_ab();
    let mut monitor = Monitor::new(key, 0);
    monitor.push(segment(key, 100, false, false, b"req"), 0);
    monitor.push(segment(key.mirror(), 500, false, false, b"resp"), 1);
    assert_eq!(monitor.init_packets.len(), 1);
    assert_eq!(monitor.resp_packets.len(), 1);
    let rp = monitor.take_reconstruction();
    assert_eq!(rp.initiator_message(), b"req".to_vec());
    assert_eq!(rp.responder_message(), b"resp".to_vec());
    assert_eq!(rp.connection_identity(), key);
    assert_eq!(rp.mirror_identity(), key.mirror());
}

#[test]
fn mirror_routing_no_second_worker() {
    let key = key_ab();
    let mut d = dispatcher();
    assert!(matches!(d.handle_frame(&make_frame(key, 100, false, false, b"req"), 0), RouteOutcome::Spawned));
    // the reverse direction reaches the same worker instead of spawning
    let outcome = d.handle_frame(&make_frame(key.mirror(), 500, false, false, b"resp"), 1);
    assert!(matches!(outcome, RouteOutcome::Delivered));
    assert_eq!(d.conn_list.len(), 1);
    assert_eq!(d.conn_list[0].monitor.resp_packets.len(), 1);
    assert_eq!(d.conn_list[0].monitor.resp_packets[0].payload, b"resp".to_vec());
}

#[test]
fn undecodable_frame_is_reported_and_dropped() {
    let mut d = dispatcher();
    let outcome = d.handle_frame(&[0u8; 5], 0);
    assert!(matches!(outcome, RouteOutcome::DecodeFailed(_)));
    assert_eq!(d.conn_list.len(), 0);
}

#[test]
fn close_state_progression() {
    let mut s = CloseState::Established;
    s = step_close_state(s, false, true);
    assert_eq!(s, CloseState::Established); // no FIN yet: no transition
    s = step_close_state(s, true, false);
    assert_eq!(s, CloseState::FinWait1);
    s = step_close_state(s, false, false);
    assert_eq!(s, CloseState::FinWait2);
    s = step_close_state(s, false, false);
    assert_eq!(s, CloseState::TimeWait);
    s = step_close_state(s, false, false);
    assert_eq!(s, CloseState::TimeWait); // no ACK: no transition
    s = step_close_state(s, false, true);
    assert_eq!(s, CloseState::Closed);
    s = step_close_state(s, true, true);
    assert_eq!(s, CloseState::Closed); // final
}

#[test]
fn graceful_close_completes_worker() {
    let key = key_ab();
    let mut d = dispatcher();
    assert!(matches!(d.handle_frame(&make_frame(key, 100, true, false, b"A"), 0), RouteOutcome::Spawned));
    assert!(matches!(d.handle_frame(&make_frame(key, 200, false, false, b"B"), 1), RouteOutcome::Delivered));
    assert!(matches!(d.handle_frame(&make_frame(key, 300, false, false, b"C"), 2), RouteOutcome::Delivered));
    let outcome = d.handle_frame(&make_frame(key, 400, false, true, b""), 3);
    match outcome {
        RouteOutcome::Completed(rp) => {
            assert_eq!(rp.initiator_message(), b"ABC".to_vec());
            assert_eq!(rp.connection_identity(), key);
        }
        _ => panic!("expected the close to complete the worker"),
    }
    // the worker terminated but its entry lingers until the next frame
    assert_eq!(d.conn_list.len(), 1);
}

#[test]
fn stale_entry_recovery() {
    let key = key_ab();
    let mut d = dispatcher();
    d.handle_frame(&make_frame(key, 100, true, false, b"old"), 0);
    d.handle_frame(&make_frame(key, 200, false, false, b""), 1);
    d.handle_frame(&make_frame(key, 300, false, false, b""), 2);
    assert!(matches!(d.handle_frame(&make_frame(key, 400, false, true, b""), 3), RouteOutcome::Completed(_)));
    // the next frame reveals the stale entry: removed, frame dropped
    let outcome = d.handle_frame(&make_frame(key, 500, false, false, b"lost"), 4);
    assert!(matches!(outcome, RouteOutcome::StaleRemoved));
    assert_eq!(d.conn_list.len(), 0);
    // the frame after that spawns a fresh worker with no inherited state
    let outcome = d.handle_frame(&make_frame(key, 600, false, false, b"new"), 5);
    assert!(matches!(outcome, RouteOutcome::Spawned));
    assert_eq!(d.conn_list.len(), 1);
    assert_eq!(d.conn_list[0].monitor.init_packets.len(), 1);
    assert_eq!(d.conn_list[0].monitor.init_packets[0].payload, b"new".to_vec());
    assert!(!d.conn_list[0].done);
}

#[test]
fn idle_eviction_after_timeout() {
    let key = key_ab();
    let mut d = dispatcher();
    d.handle_frame(&make_frame(key, 100, false, false, b"only"), 1000);
    // not yet idle long enough
    assert_eq!(d.sweep_idle(10999).len(), 0);
    // one idle bound after the last activity the worker is evicted
    let evicted = d.sweep_idle(11000);
    assert_eq!(evicted.len(), 1);
    assert_eq!(evicted[0].initiator_message(), b"only".to_vec());
    // it emits exactly once
    assert_eq!(d.sweep_idle(20000).len(), 0);
    assert_eq!(d.conn_list.len(), 1);
    assert!(d.conn_list[0].done);
}

#[test]
fn end_to_end_out_of_order_reassembly() {
    let key = key_ab();
    let mut d = dispatcher();
    d.handle_frame(&make_frame(key, 200, false, false, b"B"), 0);
    d.handle_frame(&make_frame(key, 100, false, false, b"A"), 1);
    d.handle_frame(&make_frame(key, 300, false, false, b"C"), 2);
    let mut ready = ReadyServeThread::new();
    for rp in d.sweep_idle(20000) {
        ready.push_conn(rp);
    }
    let rp = ready.pop_conn().expect("one reconstruction must be ready");
    assert_eq!(rp.initiator_message(), b"ABC".to_vec());
    assert!(ready.pop_conn().is_none());
}

#[test]
fn ready_queue_is_fifo() {
    let mut ready = ReadyServeThread::new();
    let r1 = ReconstructedPackets::new(key_ab(), vec![segment(key_ab(), 1, false, false, b"1")], vec![]);
    let r2 = ReconstructedPackets::new(key_ab(), vec![segment(key_ab(), 2, false, false, b"2")], vec![]);
    ready.push_conn(r1);
    ready.push_conn(r2);
    let first = ready.pop_conn().unwrap();
    assert_eq!(first.initiator_message(), b"1".to_vec());
    let second = ready.pop_conn().unwrap();
    assert_eq!(second.initiator_message(), b"2".to_vec());
    assert!(ready.pop_conn().is_none());
}

#[test]
fn ready_queue_commands() {
    let mut ready = ReadyServeThread::new();
    assert!(matches!(ready.handle_command(Message::ReadyConnRequest), CommandOutcome::NoneAvailable));
    ready.push_conn(ReconstructedPackets::new(key_ab(), vec![], vec![]));
    assert!(matches!(ready.handle_command(Message::StopThread), CommandOutcome::Stopped));
    // the stop left the queue alone
    match ready.handle_command(Message::ReadyConnRequest) {
        CommandOutcome::Served(rp) => assert_eq!(rp.connection_identity(), key_ab()),
        _ => panic!("expected the queued reconstruction"),
    }
}

#[test]
fn reordering_near_sequence_wraparound_values() {
    // large sequence numbers are ordered as plain unsigned values
    let key = key_ab();
    let mut monitor = Monitor::new(key, 0);
    monitor.push(segment(key, u32::MAX, false, false, b"Z"), 0);
    monitor.push(segment(key, 0, false, false, b"a"), 0);
    monitor.push(segment(key, u32::MAX - 1, false, false, b"y"), 0);
    let seqs: Vec<u32> = monitor.init_packets.iter().map(|s| s.seq).collect();
    assert_eq!(seqs, vec![0, u32::MAX - 1, u32::MAX]);
    assert_eq!(monitor.take_reconstruction().initiator_message(), b"ayZ".to_vec());
}

#[test]
fn distinct_connections_get_distinct_workers() {
    let key_a = key_ab();
    let key_b = ConnectionKey { src_addr: 0x0a000003, src_port: 55, dst_addr: 0x0a000004, dst_port: 443 };
    let mut d = dispatcher();
    assert!(matches!(d.handle_frame(&make_frame(key_a, 1, false, false, b"a"), 0), RouteOutcome::Spawned));
    assert!(matches!(d.handle_frame(&make_frame(key_b, 1, false, false, b"b"), 0), RouteOutcome::Spawned));
    assert_eq!(d.conn_list.len(), 2);
    // each stream keeps to its own worker
    d.handle_frame(&make_frame(key_a, 2, false, false, b"A"), 1);
    d.handle_frame(&make_frame(key_b.mirror(), 2, false, false, b"B"), 1);
    assert_eq!(d.conn_list[0].monitor.init_packets.len(), 2);
    assert_eq!(d.conn_list[1].monitor.init_packets.len(), 1);
    assert_eq!(d.conn_list[1].monitor.resp_packets.len(), 1);
}

#[test]
fn empty_payload_segments_count_for_reassembly_only() {
    let key = key_ab();
    let mut monitor = Monitor::new(key, 0);
    monitor.push(segment(key, 10, false, false, b""), 0);
    monitor.push(segment(key, 20, false, false, b"data"), 0);
    monitor.push(segment(key, 30, false, false, b""), 0);
    assert_eq!(monitor.init_packets.len(), 3);
    assert_eq!(monitor.take_reconstruction().initiator_message(), b"data".to_vec());
}
