//! Verified compilers for the Korean replacement graphics of a Mega Drive
//! title: manifest checks, byte-level consumer checks, tile codecs, surface
//! rendering and preview rasterisation.

pub mod text;
pub mod grid;
pub mod hex;
pub mod rom;
pub mod tiles;
pub mod palette;
pub mod digest;
pub mod sets;
pub mod pack;
pub mod preview;
pub mod sprite;
pub mod bad_end_gaan;
pub mod font_effect;
pub mod demon_byun;
pub mod compile_slogan;
pub mod bayoen_jin;
pub mod intro_bechi;
pub mod escape_doors;
pub mod exam_seals;
pub mod insert;
pub mod intro_pokan;
pub mod intro_doki;
pub mod karaoke;
pub mod exam_card;
pub mod credits_top;
pub mod credits_timed;
pub mod bdf;
pub mod bdf_text;
