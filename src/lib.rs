//! PCM audio container codec and pitch estimation on integer samples:
//! `wav` reads and writes the RIFF/WAVE layout, `amdf` finds the period of
//! a window of samples, `notation` maps frequencies to note names, and
//! `detect` runs the three together over a whole recording.
pub mod sample;
pub mod wav;
pub mod amdf;
pub mod notation;
pub mod detect;
