//! Streams that cross the air as wireless M-Bus telegrams, the records
//! and the meter of wired M-Bus under the frame of EN 13757-4.
//!
//! Wireless M-Bus is the meter on the wall talking to the concentrator in
//! the street: 868 MHz in Europe, a meter transmitting on its own in mode
//! T or S, or asked and answering in mode C. What is here is the link
//! layer (a length, a control field, the meter's manufacturer and address,
//! the control information, a CRC on every block) and the conversations
//! that carry a Stream over it: as variable-length records over as many
//! telegrams as it takes, written by `SND_UD` and acknowledged, read back
//! by `REQ_UD2` and `RSP_UD`, or taken as the meter sends it unasked in
//! `SND_NR`. There is no ceiling.
//!
//! The library decides and the program around it acts: the radio, the
//! packing of a Stream into records and the meter's own memory stand
//! outside. The origin URI names the air and the meter:
//! `wmbus://<air>/<manufacturer>-<ident>`.

pub mod crc;
pub mod device;
pub mod device_laws;
pub mod error;
pub mod frame;
pub mod frame_laws;
pub mod loopback;
pub mod loopback_laws;
pub mod record;
pub mod session;
pub mod text;
pub mod text_laws;

pub use device::{WirelessMBusTransport, ANSWER_ROOM};
pub use error::TransportError;
pub use frame::{Frame, MAX_DATA};
