//! Decoder library for the DAT asset containers of the classic Lemmings
//! games: the reversed-order bit source, the section framer and the
//! command-driven LZ decoder, together with the fixed-offset parsers for
//! ground metadata, bitplane imagery, the main asset file, and a level
//! compositor over the decoded sprites.

pub mod bit_iter_dat;
pub mod bit_iter_ms_first;
pub mod decompressor;
pub mod file_finder;
pub mod ground;
pub mod grounds_loader;
pub mod image;
pub mod level;
pub mod level_renderer;
pub mod maindat;
