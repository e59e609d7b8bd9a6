//! The classifier boundary: what the core guarantees to the downstream
//! anomaly model. A reconstruction's selected direction must be longer than
//! the configured minimum window (`seq_len * stride`), the combined
//! direction is unsupported and fails fast, and a long-enough message is cut
//! into the model's sliding input windows. The model itself (training and
//! scoring) is an external collaborator; only this handoff contract is the
//! core's business.

use vstd::prelude::*;
use crate::stream::monitor::concat_payloads;
use crate::stream::monitor::PacketDirection;
use crate::stream::monitor::ReconstructedPackets;

verus! {

/// Which recurrent layer the downstream model is configured with.
#[derive(PartialEq, Eq, Structural, Clone, Copy, Debug)]
pub enum RecurrentLayer {
    Lstm,
    Gru,
}

/// Why the classifier boundary rejects a request.
#[derive(PartialEq, Eq, Structural, Clone, Copy, Debug)]
pub enum ModelError {
    /// The selected direction's message is not longer than the configured
    /// minimum window `seq_len * stride`.
    MessageTooShort,
    /// The combined direction is unsupported; the request fails fast.
    UnsupportedDirection,
}

/// The sliding windows cut from a message: row `r` starts at byte
/// `r * stride` and holds `seq_len + 1` consecutive bytes widened to `i64`
/// (`seq_len` model inputs and one prediction target), and rows are cut as
/// long as a full window fits in the message.
pub open spec fn windows_ok(msg: Seq<u8>, seq_len: int, stride: int, w: Seq<Seq<i64>>) -> bool {
    &&& (forall|r: int|
        0 <= r < w.len() ==> (#[trigger] w[r]).len() == seq_len + 1 && r * stride + seq_len
            < msg.len())
    &&& (forall|r: int, c: int|
        0 <= r < w.len() && 0 <= c <= seq_len ==> #[trigger] w[r][c] == msg[r * stride + c] as i64)
    &&& w.len() * stride + seq_len >= msg.len()
}

/// Cut a message into the model's sliding input windows: one row per start
/// `0, stride, 2 * stride, ...` as long as `seq_len + 1` bytes fit.
pub fn preprocessing(message: Vec<u8>, seq_len: usize, stride: usize) -> (w: Vec<Vec<i64>>)
    requires
        stride >= 1,
    ensures
        windows_ok(message@, seq_len as int, stride as int, w@.map_values(|row: Vec<i64>| row@)),
{
    let mut w: Vec<Vec<i64>> = Vec::new();
    let len = message.len();
    let mut i: usize = 0;
    proof {
        assert(w@.len() * stride == 0) by (nonlinear_arith)
            requires
                w@.len() == 0,
        ;
    }
    while i < len && len - i > seq_len
        invariant
            stride >= 1,
            len == message@.len(),
            i <= len,
            i as int == w@.len() * stride || (i == len && w@.len() * stride + seq_len >= len),
            forall|r: int|
                0 <= r < w@.len() ==> (#[trigger] w@[r])@.len() == seq_len + 1 && r * stride
                    + seq_len < len,
            forall|r: int, c: int|
                0 <= r < w@.len() && 0 <= c <= seq_len ==> #[trigger] w@[r]@[c] == message@[r
                    * stride + c] as i64,
        decreases len - i,
    {
        let ghost r = w@.len();
        assert(i as int == r * stride);
        let mut row: Vec<i64> = Vec::new();
        let mut c: usize = 0;
        while c <= seq_len
            invariant
                c <= seq_len + 1,
                i + seq_len < len,
                len == message@.len(),
                row@.len() == c,
                forall|x: int| 0 <= x < c ==> #[trigger] row@[x] == message@[i + x] as i64,
            decreases seq_len + 1 - c,
        {
            row.push(message[i + c] as i64);
            c = c + 1;
        }
        assert(row@.len() == seq_len + 1);
        let ghost w0 = w@;
        w.push(row);
        proof {
            assert((r + 1) * stride == r * stride + stride) by (nonlinear_arith);
            assert forall|x: int| 0 <= x < w@.len() implies (#[trigger] w@[x])@.len() == seq_len + 1
                && x * stride + seq_len < len by {
                if x == r {
                    assert(w@[x] == row);
                    assert(x * stride + seq_len < len);
                } else {
                    assert(w@[x] == w0[x]);
                }
            }
            assert forall|x: int, y: int|
                0 <= x < w@.len() && 0 <= y <= seq_len implies #[trigger] w@[x]@[y] == message@[x
                * stride + y] as i64 by {
                if x < r {
                } else {
                    assert(w@[x] == row);
                    assert(row@[y] == message@[i + y] as i64);
                    assert(x * stride + y == i + y);
                }
            }
        }
        if stride >= len - i {
            i = len;
        } else {
            i = i + stride;
        }
    }
    assert(w@.len() * stride + seq_len >= len);
    w
}

/// Select the requested direction's message from a reconstruction, enforce
/// the minimum-length guard, and cut the model's input windows. Fails with
/// `UnsupportedDirection` on the combined direction, with `MessageTooShort`
/// exactly when the selected message is no longer than `seq_len * stride`,
/// and otherwise hands back the windows of that message.
pub fn classifier_input(
    rp: &ReconstructedPackets,
    direction: PacketDirection,
    seq_len: usize,
    stride: usize,
) -> (r: Result<Vec<Vec<i64>>, ModelError>)
    requires
        stride >= 1,
    ensures
        direction == PacketDirection::Both ==> r == Err::<Vec<Vec<i64>>, ModelError>(
            ModelError::UnsupportedDirection,
        ),
        direction == PacketDirection::Init ==> classified_rel(
            concat_payloads(rp.init_packets@),
            seq_len as int,
            stride as int,
            r,
        ),
        direction == PacketDirection::Resp ==> classified_rel(
            concat_payloads(rp.resp_packets@),
            seq_len as int,
            stride as int,
            r,
        ),
{
    let msg = match direction {
        PacketDirection::Init => rp.initiator_message(),
        PacketDirection::Resp => rp.responder_message(),
        PacketDirection::Both => {
            return Err(ModelError::UnsupportedDirection);
        },
    };
    if message_too_short(msg.len(), seq_len, stride) {
        return Err(ModelError::MessageTooShort);
    }
    Ok(preprocessing(msg, seq_len, stride))
}

/// What `classifier_input` owes for one selected message: the exact guard
/// (`MessageTooShort` if and only if the message is not longer than the
/// minimum window) and, on success, the message's windows.
pub open spec fn classified_rel(
    msg: Seq<u8>,
    seq_len: int,
    stride: int,
    r: Result<Vec<Vec<i64>>, ModelError>,
) -> bool {
    if msg.len() <= seq_len * stride {
        r == Err::<Vec<Vec<i64>>, ModelError>(ModelError::MessageTooShort)
    } else {
        r matches Ok(w) && windows_ok(msg, seq_len, stride, w@.map_values(|row: Vec<i64>| row@))
    }
}

/// The guard itself: the message is not longer than `seq_len * stride`.
fn message_too_short(msg_len: usize, seq_len: usize, stride: usize) -> (r: bool)
    ensures
        r == (msg_len <= seq_len * stride),
{
    proof {
        assert((seq_len as u128) * (stride as u128) < 0x100000000000000000000000000000000int)
            by (nonlinear_arith)
            requires
                seq_len <= 0xffffffffffffffffu64,
                stride <= 0xffffffffffffffffu64,
        ;
    }
    (msg_len as u128) <= (seq_len as u128) * (stride as u128)
}

} // verus!
