//! The verified core of a scripted game-protocol client.
//!
//! Its main part records a session: every protocol message received is
//! framed and appended to the packet entry of a replay archive, and when the
//! session ends a metadata entry is added and the archive is sealed. Beside
//! it stand the plain values that the client hands to its scripts.

pub mod archive;
pub mod build_info;
pub mod capture;
pub mod clock;
pub mod error;
pub mod fluid_state;
pub mod framing;
pub mod metadata;
pub mod player;
pub mod recorder;
