//! Which language version the output must run on, and the switch that forces the pass on.
use vstd::prelude::*;

verus! {

/// The oldest language version the output has to run on.
#[derive(Clone, Copy, Debug, PartialEq, Eq, Structural)]
pub enum TransformTarget {
    ES5,
    ES2015,
    ES2016,
    ES2017,
    ES2018,
    ES2019,
    ES2020,
    ES2021,
    ES2022,
    ESNext,
}

/// Position of a target in release order.
pub open spec fn target_rank(t: TransformTarget) -> nat {
    match t {
        TransformTarget::ES5 => 0,
        TransformTarget::ES2015 => 1,
        TransformTarget::ES2016 => 2,
        TransformTarget::ES2017 => 3,
        TransformTarget::ES2018 => 4,
        TransformTarget::ES2019 => 5,
        TransformTarget::ES2020 => 6,
        TransformTarget::ES2021 => 7,
        TransformTarget::ES2022 => 8,
        TransformTarget::ESNext => 9,
    }
}

impl TransformTarget {
    /// Position of this target in release order.
    pub fn rank(&self) -> (r: u8)
        ensures
            r as nat == target_rank(*self),
    {
        match self {
            TransformTarget::ES5 => 0,
            TransformTarget::ES2015 => 1,
            TransformTarget::ES2016 => 2,
            TransformTarget::ES2017 => 3,
            TransformTarget::ES2018 => 4,
            TransformTarget::ES2019 => 5,
            TransformTarget::ES2020 => 6,
            TransformTarget::ES2021 => 7,
            TransformTarget::ES2022 => 8,
            TransformTarget::ESNext => 9,
        }
    }

    /// `true` when `self` is an older version than `other`.
    pub fn is_before(&self, other: &TransformTarget) -> (r: bool)
        ensures
            r == (target_rank(*self) < target_rank(*other)),
    {
        self.rank() < other.rank()
    }
}

/// Configuration of the transformer.
#[derive(Clone, Copy, Debug, PartialEq, Eq, Structural)]
pub struct TransformOptions {
    /// The oldest version the output has to run on.
    pub target: TransformTarget,
    /// Rewrite logical assignments whatever the target.
    pub logical_assignment_operators: bool,
}

} // verus!
