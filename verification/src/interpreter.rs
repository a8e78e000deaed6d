//! The variables of an evaluator: frames of named values, innermost last.

use crate::primitives::{fields_view, Prim, PrimView};
use vstd::prelude::*;

verus! {

/// The values that are bound in one scope, each with its name. A later
/// binding of a name hides an earlier one.
pub type Frame = Vec<(String, Prim)>;

/// The mathematical value of a [`Frame`].
pub type FrameView = Seq<(Seq<char>, PrimView)>;

/// The values of a stack of frames.
pub open spec fn frames_view(stack: Seq<Vec<(String, Prim)>>) -> Seq<FrameView> {
    Seq::new(stack.len(), |i: int| fields_view(stack[i]@))
}

/// The value of `name` in a frame: that of its last binding there.
pub open spec fn bound_in(frame: FrameView, name: Seq<char>) -> Option<PrimView>
    decreases frame.len(),
{
    if frame.len() == 0 {
        None
    } else if frame.last().0 == name {
        Some(frame.last().1)
    } else {
        bound_in(frame.drop_last(), name)
    }
}

/// The value of `name` in a stack of frames: that in the innermost frame
/// that binds it.
pub open spec fn spec_find_symbol(stack: Seq<FrameView>, name: Seq<char>) -> Option<PrimView>
    decreases stack.len(),
{
    if stack.len() == 0 {
        None
    } else {
        match bound_in(stack.last(), name) {
            Some(value) => Some(value),
            None => spec_find_symbol(stack.drop_last(), name),
        }
    }
}

/// Looks `name` up in one frame.
pub fn find_in_frame<'a>(frame: &'a Vec<(String, Prim)>, name: &String) -> (found: Option<
    &'a Prim,
>)
    ensures
        match found {
            Some(value) => bound_in(fields_view(frame@), name@) == Some(value@),
            None => bound_in(fields_view(frame@), name@) is None,
        },
{
    let ghost all = fields_view(frame@);
    let mut i = frame.len();
    assert(all.take(i as int) =~= all);
    while i > 0
        invariant
            i <= frame.len(),
            all == fields_view(frame@),
            bound_in(all, name@) == bound_in(all.take(i as int), name@),
        decreases i,
    {
        proof {
            assert(all.take(i as int).drop_last() =~= all.take(i as int - 1));
            assert(all.take(i as int).last() == all[i as int - 1]);
        }
        i -= 1;
        if frame[i].0 == *name {
            return Some(&frame[i].1);
        }
    }
    None
}

/// Looks `name` up in the frames, innermost first.
pub fn find_symbol<'a>(state: &'a Vec<Vec<(String, Prim)>>, name: &String) -> (found: Option<
    &'a Prim,
>)
    ensures
        match found {
            Some(value) => spec_find_symbol(frames_view(state@), name@) == Some(value@),
            None => spec_find_symbol(frames_view(state@), name@) is None,
        },
{
    let ghost all = frames_view(state@);
    let mut i = state.len();
    assert(all.take(i as int) =~= all);
    while i > 0
        invariant
            i <= state.len(),
            all == frames_view(state@),
            spec_find_symbol(all, name@) == spec_find_symbol(all.take(i as int), name@),
        decreases i,
    {
        proof {
            assert(all.take(i as int).drop_last() =~= all.take(i as int - 1));
            assert(all.take(i as int).last() == all[i as int - 1]);
        }
        i -= 1;
        match find_in_frame(&state[i], name) {
            Some(value) => {
                return Some(value);
            },
            None => {},
        }
    }
    None
}

} // verus!
