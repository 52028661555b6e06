//! Converts a beatmap (a tempo timeline and timed hit objects) into a
//! two-lane track: the dominant tempo, the tempo changes, the highlighted
//! sections and one text-encoded stream of notes per lane.
//!
//! [`convert`] holds the conversion as a whole; [`tempo`], [`kiai`],
//! [`slider`] and [`lanes`] hold its parts, [`osu`] what goes in and
//! [`te`] what comes out. [`request`] and [`names`] read what the user asks
//! for and name what is handed back.
//!
//! Every quantity with a fractional part is held as a whole number of
//! steps of a ten-thousandth, and a tempo in thousandths of a beat per
//! minute, see [`fixed`]. Hit objects keep their times in whole
//! milliseconds.

pub mod convert;
pub mod error;
pub mod fixed;
pub mod kiai;
pub mod lanes;
pub mod names;
pub mod osu;
pub mod request;
pub mod scan;
pub mod slider;
pub mod te;
pub mod tempo;
pub mod text;
pub mod thumb;
