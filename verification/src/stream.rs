//! The stream-reconstruction engine: the simplified connection-close state
//! machine, ordered segment insertion, the per-connection reassembly worker,
//! the completed-reconstruction type, the ready queue service, and the
//! dispatcher that routes decoded frames to workers.

pub mod close;
pub mod dispatch;
pub mod monitor;
pub mod order;
pub mod ready;

pub use close::CloseState;
pub use dispatch::RouteOutcome;
pub use dispatch::StreamReaderThread;
pub use dispatch::WorkerHandler;
pub use monitor::Monitor;
pub use monitor::PacketDirection;
pub use monitor::ReconstructedPackets;
pub use order::insert_segment;
pub use ready::CommandOutcome;
pub use ready::Message;
pub use ready::ReadyServeThread;
