//! Verified core of a line-oriented serial terminal: a newline framer over a
//! growing byte buffer, the `[name](value)` event protocol, a USB
//! device-presence monitor built on snapshot differences, and the state
//! machine of one serial session with its cooperative cancellation flag.
pub mod devices;
pub mod framer;
pub mod ports;
pub mod protocol;
pub mod session;
mod strutil;
pub mod timefmt;

pub use devices::DeviceId;
pub use devices::DeviceSnapshot;
pub use devices::PresenceMonitor;
pub use framer::FrameError;
pub use framer::LineCodec;
pub use session::CancellationFlag;
pub use session::SessionState;
