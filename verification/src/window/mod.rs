//! What a mascot window needs from a sprite: click-through testing, the byte layout the
//! compositor wants, and telling a tap from a fling.

pub mod alpha;
pub mod hit_test;
pub mod input;
