use blatta_stream::rnn::classifier_input;
use blatta_stream::rnn::preprocessing;
use blatta_stream::rnn::ModelError;
use blatta_stream::rnn::RecurrentLayer;
use blatta_stream::stream::PacketDirection;
use blatta_stream::stream::ReconstructedPackets;
use blatta_stream::wire::ConnectionKey;
use blatta_stream::wire::Segment;

fn key() -> ConnectionKey {
    ConnectionKey { src_addr: 1, src_port: 2, dst_addr: 3, dst_port: 4 }
}

fn reconstruction(init_payload: &[u8], resp_payload: &[u8]) -> ReconstructedPackets {
    let init = vec![Segment { key: key(), seq: 1, fin: false, ack: false, payload: init_payload.to_vec() }];
    let resp = vec![Segment {
        key: key().mirror(),
        seq: 1,
        fin: false,
        ack: false,
        payload: resp_payload.to_vec(),
    }];
    ReconstructedPackets::new(key(), init, resp)
}

#[test]
fn preprocessing_stride_one() {
    let w = preprocessing(vec![0, 1, 2, 3, 4, 5], 2, 1);
    assert_eq!(w, vec![vec![0i64, 1, 2], vec![1i64, 2, 3], vec![2i64, 3, 4], vec![3i64, 4, 5]]);
}

#[test]
fn preprocessing_stride_two() {
    let w = preprocessing(vec![0, 1, 2, 3, 4, 5], 2, 2);
    assert_eq!(w, vec![vec![0i64, 1, 2], vec![2i64, 3, 4]]);
}

#[test]
fn preprocessing_short_message_gives_no_rows() {
    let w = preprocessing(vec![9, 9], 2, 1);
    assert_eq!(w.len(), 0);
}

#[test]
fn length_guard_rejects_short_message() {
    // initiator message of 5 bytes is not longer than seq_len * stride = 5
    let rp = reconstruction(b"abcde", b"0123456789");
    let r = classifier_input(&rp, PacketDirection::Init, 5, 1);
    assert_eq!(r.unwrap_err(), ModelError::MessageTooShort);
    // the responder direction is long enough and is judged on its own
    let r = classifier_input(&rp, PacketDirection::Resp, 5, 1);
    assert!(r.is_ok());
}

#[test]
fn length_guard_boundary() {
    // exactly one byte longer than the minimum window passes
    let rp = reconstruction(b"abcdef", b"");
    let r = classifier_input(&rp, PacketDirection::Init, 5, 1).unwrap();
    assert_eq!(r, vec![vec![b'a' as i64, b'b' as i64, b'c' as i64, b'd' as i64, b'e' as i64, b'f' as i64]]);
}

#[test]
fn combined_direction_fails_fast() {
    let rp = reconstruction(b"abcdefgh", b"abcdefgh");
    let r = classifier_input(&rp, PacketDirection::Both, 2, 1);
    assert_eq!(r.unwrap_err(), ModelError::UnsupportedDirection);
}

#[test]
fn recurrent_layer_choices_differ() {
    assert_ne!(RecurrentLayer::Lstm, RecurrentLayer::Gru);
    assert_eq!(RecurrentLayer::Lstm, RecurrentLayer::Lstm);
}
