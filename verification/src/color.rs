//! Exact 8-bit RGB colors for the rendered image.

use vstd::prelude::*;

verus! {

/// An RGB triple of 8-bit channel values. Equality is exact,
/// channel-wise comparison.
#[derive(Clone, Copy, Debug, PartialEq, Eq, Structural)]
pub enum Color {
    RGB(u8, u8, u8),
}

} // verus!
