//! Rendering vocabulary shared with the drawing layers.

use vstd::prelude::*;

verus! {

/// How a sprite blends over what is beneath it.
#[derive(Debug, Clone, Copy, PartialEq, Eq, Structural)]
pub enum BlendMode {
    Alpha,
    Additive,
    Multiply,
    Screen,
}

} // verus!
