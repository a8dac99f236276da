//! Decoder library for a 1990s racing-game asset container.
//!
//! The container file holds a directory of three-character keys mapping to
//! compressed byte ranges (`archive`).  Every resource is unpacked by a
//! dictionary-based run-length decompressor (`zip`), and sprite and glyph
//! resources are further expanded by a cell codec (`bitmap`) whose blitter
//! is driven by a generated table of per-byte skip/draw runs.  Around the
//! codecs stand the screen-sized pixel buffer (`graphics`), full-frame
//! sprites (`sprite`), the bevelled menu frame (`frame`), two text printers
//! (`font`, `sprite_font`), and the game's option and key types (`options`,
//! `input`).
//!
//! Every byte of decode logic is specified exactly: each decoder's contract
//! equates its result with a pure function of the input bytes, so decoding
//! is deterministic and never panics on corrupt input.

pub mod archive;
pub mod bitmap;
pub mod errors;
pub mod font;
pub mod frame;
pub mod graphics;
pub mod input;
pub mod options;
pub mod sprite;
pub mod sprite_font;
pub mod zip;

pub use errors::ErrorKind;
