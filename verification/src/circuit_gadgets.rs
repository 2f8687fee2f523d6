//! Values that the gadgets of the proving circuits evaluate to.

pub mod util;
