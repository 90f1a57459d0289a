use crate::pixel::white;
use crate::screen::{far_depth, Screen, ScreenView};
use vstd::prelude::*;

verus! {

/// A command for the frame driver. `M` is the mesh type and `V` the
/// three-component vector type of the renderer.
pub enum Action<M, V> {
    AddObject(Box<M>),
    Resize(u32, u32),
    MoveCamera(V),
    RotateObject(usize, V),
    End,
}

/// What is left for the renderer to do after the driver applied a command.
pub enum Effect<V> {
    /// Nothing: the command was fully applied, or it had no effect.
    Nothing,
    /// The screen was replaced; the camera takes the aspect ratio of the
    /// new size and keeps everything else.
    Reaspect(u32, u32),
    /// The camera moves by the vector.
    MoveCamera(V),
    /// The object at the index, which is in range, turns by the Euler angles.
    RotateObject(usize, V),
    /// The driver stops: no frame is presented.
    Stop,
}

/// A fresh screen of the given size.
pub open spec fn blank_screen(width: u32, height: u32) -> ScreenView {
    ScreenView {
        width: width as nat,
        height: height as nat,
        colors: Seq::new((width * height) as nat, |i: int| white()),
        depths: Seq::new((width * height) as nat, |i: int| far_depth()),
    }
}

/// Applies one command to the screen and the object list, and says what is
/// left to do for the camera and the objects' transforms.
pub fn apply_action<M, V>(screen: &mut Screen, objects: &mut Vec<M>, action: Action<M, V>) -> (r:
    Effect<V>)
    ensures
        match action {
            Action::AddObject(m) => final(objects)@ == old(objects)@.push(*m) && final(screen)@
                == old(screen)@ && r is Nothing,
            Action::Resize(w, h) => final(objects)@ == old(objects)@ && if w * h <= usize::MAX {
                final(screen)@ == blank_screen(w, h) && r == Effect::<V>::Reaspect(w, h)
            } else {
                final(screen)@ == old(screen)@ && r is Nothing
            },
            Action::MoveCamera(v) => final(objects)@ == old(objects)@ && final(screen)@ == old(
                screen,
            )@ && r == Effect::MoveCamera(v),
            Action::RotateObject(i, v) => final(objects)@ == old(objects)@ && final(screen)@
                == old(screen)@ && if i < old(objects)@.len() {
                r == Effect::RotateObject(i, v)
            } else {
                r is Nothing
            },
            Action::End => final(objects)@ == old(objects)@ && final(screen)@ == old(screen)@
                && r is Stop,
        },
{
    match action {
        Action::AddObject(m) => {
            objects.push(*m);
            Effect::Nothing
        },
        Action::Resize(w, h) => {
            assert((w as int) * (h as int) <= u64::MAX) by (nonlinear_arith)
                requires
                    w <= u32::MAX,
                    h <= u32::MAX,
            ;
            if (w as u64) * (h as u64) <= usize::MAX as u64 {
                *screen = Screen::new(w, h);
                Effect::Reaspect(w, h)
            } else {
                Effect::Nothing
            }
        },
        Action::MoveCamera(v) => Effect::MoveCamera(v),
        Action::RotateObject(i, v) => {
            if i < objects.len() {
                Effect::RotateObject(i, v)
            } else {
                Effect::Nothing
            }
        },
        Action::End => Effect::Stop,
    }
}

/// Starts a frame: every pixel white and every depth at infinity.
pub fn begin_frame(screen: &mut Screen)
    ensures
        final(screen)@ == old(screen)@.with_white_colors().with_far_depths(),
        final(screen)@.wf(),
{
    screen.clear_buffer();
    screen.clear_depth();
}

} // verus!
