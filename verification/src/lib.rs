//! A store for short notes.
//!
//! A profile is a list of notes, kept as one document that may be sealed
//! under a password, with a plain-text mirror file for each note beside
//! it.
//!
//! - [`item`] and [`profile`]: a note, a profile, and what adding,
//!   editing, deleting and moving a note do to it.
//! - [`mirror`] and [`sync`]: the mirror file of a note, and taking the
//!   mirror files of a directory back into the notes; [`roundtrip`]: what
//!   was written is read back.
//! - [`crypt`] and [`document`]: sealing a document, and the bytes that
//!   are stored for it.
//! - [`store`]: where a profile lives, and the steps of saving one.
//! - [`listing`] and [`lineformat`]: choosing, ordering and showing notes.
//! - [`clock`], [`prompt`], [`text`], [`utils`], [`errors`]: time stamps,
//!   answers, text, and failures.

pub mod clock;
pub mod crypt;
pub mod document;
pub mod errors;
pub mod item;
pub mod lineformat;
pub mod listing;
pub mod mirror;
pub mod profile;
pub mod prompt;
pub mod roundtrip;
pub mod store;
pub mod sync;
pub mod text;
pub mod utils;
