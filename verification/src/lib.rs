//! Data plane of a lightweight network intrusion detection sensor: decodes
//! captured link-layer frames into TCP segments, demultiplexes them onto
//! per-connection reassembly workers, tracks a simplified connection-close
//! state, and hands completed reconstructions to a FIFO ready queue for a
//! downstream consumer.

pub mod rnn;
pub mod stream;
pub mod wire;
