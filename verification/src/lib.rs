//! A read/write library for a packed game-asset archive format and the
//! self-describing tagged-value encoding its metadata and index rely
//! on, together with the recoloring directive generators built on the
//! same color-code text.
//!
//! A packed archive can be opened from its bytes, read at random
//! through its index, and built back up entry by entry; a directory
//! tree presents the same four operations over a recorded walk.

pub mod asset;
pub mod chest;
pub mod directives;
pub mod error;
pub mod hat;
pub mod image;
pub mod outfit;
pub mod pants;
pub mod stream;
pub mod symbol;
pub mod template;
