//! Mascot bundles: their manifest, their animations and their sprite files.

pub mod animation;
pub mod bundle;
pub mod manifest;
pub mod sprites;
