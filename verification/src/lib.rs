//! A verified core for a local HTTP relay that forwards questions to a
//! line-delimited-JSON inference backend and re-frames its output as
//! Server-Sent-Events.
//!
//! The library holds the logic worth proving: line reassembly from byte
//! chunks, backend frame decoding, the stream re-framer state machine, and
//! the JSON/SSE byte framing of outbound events. The asynchronous HTTP
//! shell around it lives outside the verified crate.

mod clock;
mod emit;
mod frame;
mod lines;
mod reframe;

pub use clock::health_now;
pub use emit::answer_of_body;
pub use emit::backend_error_text;
pub use emit::backend_request_json;
pub use emit::backend_status_ok;
pub use emit::compose_prompt;
pub use emit::event_json;
pub use emit::health_json;
pub use emit::sse_frame;
pub use frame::BackendFrame;
pub use frame::decode_frame;
pub use lines::LineReassembler;
pub use reframe::EventKind;
pub use reframe::OutEvent;
pub use reframe::Phase;
pub use reframe::Reframer;
