//! Raw bytes decoded into pixels, and pixels played back as frames of rows.
//!
//! [`video::Video`] turns a byte buffer into a sequence of [`pixel::Pixel`]s
//! and cuts ranges of it into rows. [`player::VideoPlayer`] owns a video,
//! the frame dimensions and a cursor, and hands out one frame at a time.

pub mod pixel;
pub mod player;
pub mod video;
