//! Rectangles.
use vstd::prelude::*;
use vstd::std_specs::ops::AddSpec;

verus! {

/// A rectangle by its corner and its extent, over any kind of number.
#[verifier::reject_recursive_types(T)]
pub struct RectBase<T> where T: Copy + core::ops::Add<T, Output = T> {
    pub x: T,
    pub y: T,
    pub width: T,
    pub height: T,
}

/// Unsigned rect
pub type Rect = RectBase<u16>;

impl<T> RectBase<T> where T: Copy + core::ops::Add<T, Output = T> {
    pub fn new(x: T, y: T, width: T, height: T) -> (rect: Self)
        ensures
            rect.x == x,
            rect.y == y,
            rect.width == width,
            rect.height == height,
    {
        Self { x, y, width, height }
    }

    /// The left edge.
    pub fn left(&self) -> (edge: T)
        ensures
            edge == self.x,
    {
        self.x
    }

    /// The right edge: the left edge plus the width.
    pub fn right(&self) -> (edge: T)
        requires
            self.x.add_req(self.width),
        ensures
            T::obeys_add_spec() ==> edge == self.x.add_spec(self.width),
    {
        self.x + self.width
    }

    /// The top edge.
    pub fn top(&self) -> (edge: T)
        ensures
            edge == self.y,
    {
        self.y
    }

    /// The bottom edge: the top edge plus the height.
    pub fn bottom(&self) -> (edge: T)
        requires
            self.y.add_req(self.height),
        ensures
            T::obeys_add_spec() ==> edge == self.y.add_spec(self.height),
    {
        self.y + self.height
    }
}

/// World Config
pub struct Config {
    pub bounds: Rect,
}

} // verus!
