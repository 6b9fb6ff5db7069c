use vstd::prelude::*;

verus! {

/// How a flex child is inscribed into the space it is given.
#[derive(PartialEq, Eq, Structural, Clone, Copy, Debug, Default)]
pub enum FlexFit {
    /// The child is forced to fill the space.
    Tight,
    /// The child may be smaller than the space.
    #[default]
    Loose,
}

/// How children are placed along the main axis of a flex layout.
#[derive(PartialEq, Eq, Structural, Clone, Copy, Debug, Default, Hash)]
pub enum MainAxisAlignment {
    /// As close to the start as possible.
    #[default]
    Start,
    /// As close to the end as possible.
    End,
    /// As close to the middle as possible.
    Center,
    /// Free space evenly between the children.
    SpaceBetween,
    /// Free space evenly between the children, half of it before the first
    /// and after the last.
    SpaceAround,
    /// Free space evenly between the children and before the first and after
    /// the last.
    SpaceEvenly,
}

/// How children are placed along the cross axis of a flex layout.
#[derive(PartialEq, Eq, Structural, Clone, Copy, Debug, Default, Hash)]
pub enum CrossAxisAlignment {
    /// Start edges aligned with the start of the cross axis.
    #[default]
    Start,
    /// As close to the end as possible.
    End,
    /// Centres aligned with the middle of the cross axis.
    Center,
    /// Filling the whole cross axis.
    Stretch,
}

/// How much space the main axis takes.
#[derive(PartialEq, Eq, Structural, Clone, Copy, Debug, Default, Hash)]
pub enum MainAxisSize {
    Min,
    #[default]
    Max,
}

/// Direction of a flex layout.
#[derive(PartialEq, Eq, Structural, Clone, Copy, Debug, Default, Hash)]
pub enum Axis {
    #[default]
    Horizontal,
    Vertical,
}

impl Axis {
    /// The other axis.
    pub fn cross(self) -> (a: Self)
        ensures
            a != self,
    {
        match self {
            Axis::Horizontal => Axis::Vertical,
            Axis::Vertical => Axis::Horizontal,
        }
    }
}

} // verus!
