//! Recreates one path of a source tree on a target tree: every prefix of the
//! path is made under the target root with the kind (directory or regular
//! file), owner, group and permission bits of the same prefix under the source
//! root.
//!
//! - `paths` splits the requested path into components and pairs each prefix
//!   under the two roots.
//! - `materialize` plans the operations that mirror one source entry, and
//!   models what they do to a tree.
//! - `driver` walks the pairs one step at a time, stopping at the first failure.
//! - `walk` states what a whole successful walk leaves behind.
//! - `rgb` packs and unpacks 24-bit colours.
use vstd::prelude::*;

pub mod driver;
pub mod error;
pub mod materialize;
pub mod paths;
pub mod rgb;
pub mod walk;

verus! {

} // verus!
