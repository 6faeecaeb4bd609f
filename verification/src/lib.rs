//! DongLoRa multiplexer: lets several clients share one dongle.
//!
//! [`MuxInner`] holds the connected clients, the configuration lock and the commands in flight,
//! and says what every frame leads to. [`link`] reads the connections and keeps the dongle open.
//! What each input does is in [`behaviour`], and what holds of all this together in [`laws`].
pub mod behaviour;
pub mod clock;
pub mod framing;
pub mod intercept;
pub mod laws;
pub mod link;
pub mod model;
pub mod mux;
pub mod protocol;
pub mod queue;
mod seqs;
pub mod session;
pub mod tags;
pub mod text;

pub use clock::now_us;
pub use framing::{FrameEvent, FrameReader};
pub use intercept::{decide, synthesize_err, Decision, MuxState};
pub use link::{
    link_step, ClientReader, DongleReader, DongleStep, LinkAction, LinkEvent, PingProbe, PingStep,
};
pub use model::{ClientAction, Departure, DropReport, Outgoing, WriterWork, SYNTHETIC_CLIENT};
pub use mux::MuxInner;
pub use protocol::{ErrorCode, Modulation};
pub use queue::SendOutcome;
pub use session::{ClientIds, ClientSession};
pub use tags::{ClientId, Pending, TagMapper};
pub use text::{serial_lock_path, socket_lock_path, tcp_bind_addr};
