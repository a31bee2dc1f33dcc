//! Text preparation and playback bookkeeping for reading PDF pages aloud.

pub mod text;
pub mod pattern;
pub mod cleaning;
pub mod book;
pub mod speech;
pub mod sentences;
pub mod steps;
