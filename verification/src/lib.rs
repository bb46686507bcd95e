//! A chess board kept as the bytes of its coloured terminal rendering.
//!
//! `location` names the squares, `piece` decodes what stands on a square, and
//! `board` reads and rewrites the rendered bytes: it finds the pieces, paints the
//! background of the squares a selected piece may reach, and moves pieces.

pub mod location;
pub mod piece;
pub mod board;
