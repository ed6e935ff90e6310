//! Real-time playback of multi-track MIDI sequences on an output device.
//!
//! - [`midi_file`]: the events of a sequence file, the merge of its tracks into one
//!   timeline, and the compilation of that timeline for playback.
//! - [`timeline`]: what the merge keeps of its tracks, proved.
//! - [`player`]: the scheduler that paces the timeline by tempo and division.
//! - [`driver`]: the output port, which packs short messages, reads the driver's
//!   statuses and holds the long messages in flight.
//! - [`inflight`]: which long messages leave the port when it is polled, proved.
//! - [`thread_boost`]: the record of the playback thread's scheduling boost.
//!
//! Nothing here touches the device, the clock or the cancellation flag. The caller
//! makes the driver calls and reads the clock and the flag; it hands what it saw
//! to the functions of this crate and carries out what they answer.

pub mod driver;
pub mod inflight;
pub mod midi_file;
pub mod player;
pub mod thread_boost;
pub mod timeline;
