//! Core engine of a legacy "2ch-compatible" bulletin-board wire protocol:
//! Shift-JIS form decoding, text sanitizing, trip/author-id derivation, and
//! rendering of the `subject.txt` / `.dat` / `SETTING.TXT` text formats.
pub mod codec;
pub mod datetime;
pub mod dtos;
pub mod errors;
pub mod form;
pub mod identity;
pub mod outside;
pub mod render;
pub mod sanitize;
pub mod strutil;

