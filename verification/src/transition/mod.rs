pub mod effects;

use vstd::prelude::*;

use crate::config::TransitionType;
use effects::{Effect, Frame};

verus! {

/// One output's change from the pixels on screen to a target image.
pub struct Transition {
    effect: Option<Effect>,
    target: Vec<u8>,
    width: u32,
    height: u32,
}

impl Transition {
    /// The effect still to run; `None` once the transition is complete.
    pub closed spec fn current(self) -> Option<Effect> {
        self.effect
    }

    /// The image the transition moves toward.
    pub closed spec fn target_view(self) -> Seq<u8> {
        self.target@
    }

    /// The output's size in pixels.
    pub closed spec fn size(self) -> (u32, u32) {
        (self.width, self.height)
    }

    /// The effect, while there is one, is well formed.
    pub open spec fn wf(self) -> bool {
        match self.current() {
            Some(e) => e.wf(),
            None => true,
        }
    }

    /// A transition of type `kind` toward `target` on an output of `dimensions`.
    pub fn new(kind: TransitionType, step: u8, center: (usize, usize), dimensions: (u32, u32), target: Vec<u8>) -> (t: Transition)
        ensures
            t.current() == Some(Effect::initial(kind, step, center, dimensions)),
            t.target_view() == target@,
            t.size() == dimensions,
            t.wf(),
    {
        Transition { effect: Some(Effect::new(kind, step, center, dimensions)), target, width: dimensions.0, height: dimensions.1 }
    }

    /// Whether the transition is complete.
    pub fn is_done(&self) -> (r: bool)
        ensures
            r == (self.current() is None),
    {
        self.effect.is_none()
    }

    /// The effect still to run, if any.
    pub fn effect(&self) -> (r: Option<Effect>)
        ensures
            r == self.current(),
    {
        self.effect
    }

    /// The length of the target image in bytes.
    pub fn target_len(&self) -> (r: usize)
        ensures
            r == self.target_view().len(),
    {
        self.target.len()
    }

    /// The output's size in pixels.
    pub fn dimensions(&self) -> (r: (u32, u32))
        ensures
            r == self.size(),
    {
        (self.width, self.height)
    }

    /// Draws the next frame on `canvas`; returns whether the transition is complete.
    pub fn frame(&mut self, canvas: &mut [u8], frame: &Frame) -> (done: bool)
        requires
            old(self).wf(),
            match old(self).current() {
                Some(e) => e.fits(*frame, old(canvas)@.len(), old(self).target_view().len()),
                None => true,
            },
        ensures
            final(self).wf(),
            final(self).target_view() == old(self).target_view(),
            final(self).size() == old(self).size(),
            match old(self).current() {
                None => {
                    &&& done
                    &&& final(canvas)@ == old(canvas)@
                    &&& final(self).current() is None
                },
                Some(e) => {
                    &&& final(canvas)@ == e.canvas_after(*frame, old(canvas)@, old(self).target_view())
                    &&& done == e.completes(old(canvas)@, old(self).target_view())
                    &&& final(self).current() == (if done { None } else { Some(e.next(*frame)) })
                },
            },
    {
        match self.effect {
            None => true,
            Some(effect) => {
                let mut effect = effect;
                let done = effect.execute(canvas, self.target.as_slice(), frame);
                if done {
                    self.effect = None;
                } else {
                    self.effect = Some(effect);
                }
                done
            },
        }
    }
}

} // verus!
