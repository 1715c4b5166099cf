//! The weights of the primitives that carry no geometry.

use vstd::prelude::*;

verus! {

/// A bend: its net and whether it turns clockwise.
#[derive(Debug, Clone, Copy, PartialEq, Eq, Structural)]
pub struct BendWeight {
    pub net: i32,
    pub cw: bool,
}

/// Where a loose primitive stands in its band.
#[derive(Debug, Clone, Copy, PartialEq, Eq, Structural)]
pub enum Label {
    End,
    Outer,
    Core,
}

impl Label {
    pub fn is_end(&self) -> (r: bool)
        ensures
            r == (*self == Label::End),
    {
        matches!(self, Label::End)
    }

    pub fn is_outer(&self) -> (r: bool)
        ensures
            r == (*self == Label::Outer),
    {
        matches!(self, Label::Outer)
    }

    pub fn is_core(&self) -> (r: bool)
        ensures
            r == (*self == Label::Core),
    {
        matches!(self, Label::Core)
    }
}

} // verus!
