//! Live synchronization core for a demo tool driven by an external
//! timeline editor.
//!
//! The library keeps a mirror of named animation tracks, advances a
//! playback clock, speaks a small length-prefixed binary protocol with
//! the editor, and decides when to reconnect after a transport fault.
//! All I/O (sockets, windowing, timers) stays with the host; the host
//! feeds events and byte buffers in and carries encoded frames out.

pub mod codec;
pub mod device;
pub mod error;
pub mod state;
pub mod track;
