//! Const-style bounded containers and a template mini-language.
//!
//! The crate has two halves:
//!
//! * Fixed-capacity, order-preserving containers: [`kvec::KVec`],
//!   [`kstr::KStr`], [`kmap::KMap`] and [`kset::KSet`]. Their capacity is a
//!   type-level bound, and growing past it is ruled out by contract rather
//!   than by silent truncation.
//! * A single-pass template scanner, [`template::Template`], that compiles a
//!   placeholder mini-language (`"{key:^10!.red/blue}"`) into an ordered
//!   sequence of parts, together with a decoder, [`style`], for the dotted
//!   style tokens (`red.on_blue.bold`) that the scanner captures.
//!
//! The scanner and decoder are specified against a mathematical model of the
//! grammar ([`template::scan_bytes`], [`style::spec_decode`]): what the
//! executable code returns is proved equal to what the model says, byte for
//! byte, and scanning never panics — input outside the grammar is reported
//! as a fault value instead.

pub mod ascii;
pub mod kmap;
pub mod kset;
pub mod kstr;
pub mod kvec;
pub mod style;
pub mod template;
