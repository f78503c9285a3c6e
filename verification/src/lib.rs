//! Blocking of distracting websites through a marked region of a hosts file.

pub mod domains;
pub mod hosts;
pub mod laws;
pub mod paths;
pub mod text;
pub mod text_proofs;
