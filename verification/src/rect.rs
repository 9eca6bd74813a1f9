//! A rectangle and its area.

use vstd::prelude::*;

verus! {

/// A rectangle with integer sides.
#[derive(Debug)]
pub struct Rectangle {
    pub width: u32,
    pub length: u32,
}

/// Area of a rectangle; the product must fit the result type.
pub fn area(rect: &Rectangle) -> (a: u32)
    requires
        rect.width * rect.length <= u32::MAX,
    ensures
        a == rect.width * rect.length,
{
    rect.width * rect.length
}

} // verus!
