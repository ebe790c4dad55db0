//! Core logic of a mod installer for a Steam game: discovery of the game's
//! installation directory across Steam libraries, mapping-driven placement of
//! archive contents, and the allowlist-based uninstaller.
//!
//! Everything that touches the real filesystem, the network or a window lives
//! outside this crate; the functions here work on plain values and on an
//! in-memory model of the installation tree, and carry proofs of what they do.

pub mod archive;
pub mod bepmod;
pub mod fsmodel;
pub mod locate;
pub mod modindex;
pub mod plan;
pub mod registry;
pub mod settings;
pub mod text;
pub mod uninstall;
pub mod vdf;
