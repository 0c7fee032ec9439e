use vstd::prelude::*;

verus! {

use crate::vectors::Vector;

/// A decoded player intent; the driver translates whatever raw key events
/// it reads into these.
#[derive(Copy, Clone, PartialEq, Eq, Structural, Debug)]
pub enum Input {
    Up,
    Down,
    Left,
    Right,
    Escape,
}

/// The one-tile step a movement intent asks for; `Escape` asks for none.
pub fn input_delta(input: &Input) -> (r: Option<Vector>)
    ensures
        r == (match input {
            Input::Up => Some(Vector { x: 0i32, y: -1i32 }),
            Input::Down => Some(Vector { x: 0i32, y: 1i32 }),
            Input::Left => Some(Vector { x: -1i32, y: 0i32 }),
            Input::Right => Some(Vector { x: 1i32, y: 0i32 }),
            Input::Escape => None::<Vector>,
        }),
{
    match input {
        Input::Up => Some(Vector::new(0, -1)),
        Input::Down => Some(Vector::new(0, 1)),
        Input::Left => Some(Vector::new(-1, 0)),
        Input::Right => Some(Vector::new(1, 0)),
        Input::Escape => None,
    }
}

} // verus!
