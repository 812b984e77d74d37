//! SMPTE linear timecode (LTC): the 80-bit frame, its biphase-mark audio signal, a streaming
//! decoder, WAV files, and the state behind a command line and a terminal interface.

pub mod analyze;
pub mod biphase;
pub mod cli;
pub mod decoder;
pub mod frame;
pub mod generate;
pub mod numbering;
pub mod rate;
pub mod roundtrip;
pub mod text;
pub mod tui;
pub mod wav;
