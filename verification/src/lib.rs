//! Reading and writing Brickadia save files.
//!
//! A save file is the magic `BRS`, a version word and a run of sections, most
//! of them wrapped in a two-length header and deflated with zlib. The bricks
//! themselves are packed bit by bit. Every version of the format from the
//! second on can be read; only the newest one is written.
//!
//! [`Reader::new`] takes the bytes of a file and reads it in stages;
//! [`read_save`] reads it whole into a [`WriteData`], and [`write_save`]
//! writes one. What is written reads back as it was: that is part of what
//! [`write_save`] promises, and [`roundtrip`] holds the proof.
//!
//! The data model lives in [`save`]. The layers of the format, from the
//! bottom up: bits in [`bits`], [`bit_writer`] and [`bit_reader`], numbers
//! packed into bits in [`packing`], numbers and strings in bytes in [`wire`],
//! [`text`] and [`fields`], compressed sections in [`section`], the headers
//! in [`header`], the bricks in [`brick`], the components in [`component`],
//! and whole files in [`read`] and [`write`].

pub mod bit_reader;
pub mod bit_writer;
pub mod bits;
pub mod brick;
pub mod component;
pub mod error;
pub mod fields;
pub mod header;
pub mod packing;
pub mod read;
pub mod roundtrip;
pub mod save;
pub mod section;
mod states;
pub mod text;
pub mod wire;
pub mod write;

pub use error::{Error, IoError};
pub use read::{read_save, BrickReader, Reader};
pub use write::{write_save, WriteData};
pub use save::{
    Brick, BrickOwner, Color, ColorMode, Direction, Rotation, Screenshot, ScreenshotFormat,
    Timestamp, User, Uuid, Version, MAX_VERSION_READ, MIN_VERSION_READ,
};
