//! The states of a reader.
//!
//! A state is a type without values worth naming. Only the types of this
//! module are states: the trait that marks them is not handed out.

use vstd::prelude::*;

verus! {

/// A mark that only the states of a reader carry.
pub trait Sealed {

}

/// How far a reader has come.
pub trait State: Sealed {

}

/// The headers are read; the screenshot comes next.
pub struct Init {}

impl Sealed for Init {

}

impl State for Init {

}

/// The screenshot is behind; the bricks come next.
pub struct PostScreenshot {}

impl Sealed for PostScreenshot {

}

impl State for PostScreenshot {

}

/// The bricks are behind; the components come next.
pub struct PostBricks {}

impl Sealed for PostBricks {

}

impl State for PostBricks {

}

/// The components are behind; nothing is left.
pub struct PostComponents {}

impl Sealed for PostComponents {

}

impl State for PostComponents {

}

} // verus!
