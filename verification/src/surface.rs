use vstd::prelude::*;

use crate::transition::effects::Frame;
use crate::transition::Transition;

verus! {

/// `a * b`, or `u32::MAX` where the product does not fit.
pub open spec fn saturating_product(a: u32, b: u32) -> u32 {
    if a * b > u32::MAX { u32::MAX } else { (a * b) as u32 }
}

/// Multiplies, saturating at `u32::MAX`.
pub fn saturating_mul(a: u32, b: u32) -> (r: u32)
    ensures
        r == saturating_product(a, b),
{
    match a.checked_mul(b) {
        Some(v) => v,
        None => u32::MAX,
    }
}

/// The bytes of a `width` by `height` frame of four-byte pixels, saturated.
pub open spec fn frame_bytes(width: u32, height: u32) -> u32 {
    saturating_product(saturating_product(width, height), 4)
}

/// The frame state of one wallpaper surface: its size, the pixels on screen
/// while a transition runs, and the transition.
pub struct SurfaceState {
    pub width: u32,
    pub height: u32,
    pub pixels: Vec<u8>,
    pub transition: Option<Transition>,
}

impl SurfaceState {
    /// A surface of `width` by `height` with nothing drawn yet.
    pub fn new(width: u32, height: u32) -> (r: SurfaceState)
        ensures
            r.width == width,
            r.height == height,
            r.pixels@.len() == 0,
            r.transition is None,
    {
        SurfaceState { width, height, pixels: Vec::new(), transition: None }
    }

    /// The bytes of one frame of the surface, saturated at `u32::MAX`.
    pub fn buffer_size(&self) -> (r: usize)
        ensures
            r == frame_bytes(self.width, self.height),
    {
        saturating_mul(saturating_mul(self.width, self.height), 4) as usize
    }

    /// Starts `transition` from a black screen.
    pub fn begin(&mut self, transition: Transition)
        ensures
            final(self).width == old(self).width,
            final(self).height == old(self).height,
            final(self).pixels@ == Seq::new(frame_bytes(old(self).width, old(self).height) as nat, |i: int| 0u8),
            final(self).transition == Some(transition),
    {
        let size = self.buffer_size();
        self.pixels = vec![0u8; size];
        self.transition = Some(transition);
        assert(self.pixels@ =~= Seq::new(frame_bytes(self.width, self.height) as nat, |i: int| 0u8));
    }

    /// Draws the next frame of the transition; returns whether it still runs.
    /// A finished transition is dropped.
    pub fn tick(&mut self, frame: &Frame) -> (running: bool)
        requires
            old(self).transition matches Some(t) ==> t.wf() && match t.current() {
                Some(e) => e.fits(*frame, old(self).pixels@.len(), t.target_view().len()),
                None => true,
            },
        ensures
            final(self).width == old(self).width,
            final(self).height == old(self).height,
            match old(self).transition {
                None => !running && final(self).pixels@ == old(self).pixels@ && final(self).transition is None,
                Some(t) => match t.current() {
                    None => !running && final(self).pixels@ == old(self).pixels@ && final(self).transition is None,
                    Some(e) => {
                        &&& final(self).pixels@ == e.canvas_after(*frame, old(self).pixels@, t.target_view())
                        &&& running == !e.completes(old(self).pixels@, t.target_view())
                        &&& running ==> (final(self).transition matches Some(next) && next.current() == Some(
                            e.next(*frame),
                        ) && next.target_view() == t.target_view() && next.size() == t.size() && next.wf())
                        &&& !running ==> final(self).transition is None
                    },
                },
            },
    {
        match self.transition.take() {
            None => false,
            Some(transition) => {
                let mut transition = transition;
                let finished = transition.frame(self.pixels.as_mut_slice(), frame);
                if !finished {
                    self.transition = Some(transition);
                }
                !finished
            },
        }
    }

    /// Drops the transition and the frame pixels.
    pub fn stop(&mut self)
        ensures
            final(self).width == old(self).width,
            final(self).height == old(self).height,
            final(self).pixels@.len() == 0,
            final(self).transition is None,
    {
        self.transition = None;
        self.pixels = Vec::new();
    }

    /// Drops the frame pixels once nothing animates.
    pub fn release(&mut self)
        ensures
            final(self).width == old(self).width,
            final(self).height == old(self).height,
            final(self).pixels@.len() == 0,
            final(self).transition == old(self).transition,
    {
        self.pixels = Vec::new();
    }
}

/// No output has a configured surface to draw on.
#[derive(Debug)]
pub struct NoSurfaces;

/// Chooses the surfaces a new wallpaper goes to: on the first wallpaper the
/// pending surfaces become the active ones (returns `Ok(true)`: the
/// transition starts from black); later ones go to the active surfaces
/// (`Ok(false)`). Fails when there are neither.
pub fn adopt_pending<S>(active: &mut Vec<S>, pending: &mut Vec<S>) -> (r: Result<bool, NoSurfaces>)
    ensures
        old(active)@.len() == 0 && old(pending)@.len() == 0 ==> r is Err,
        r is Err ==> old(active)@.len() == 0 && old(pending)@.len() == 0,
        r is Err ==> final(active)@ == old(active)@ && final(pending)@ == old(pending)@,
        r == Ok::<bool, NoSurfaces>(true) <==> (old(active)@.len() == 0 && old(pending)@.len() > 0),
        r == Ok::<bool, NoSurfaces>(true) ==> final(active)@ == old(pending)@ && final(pending)@.len() == 0,
        r == Ok::<bool, NoSurfaces>(false) ==> final(active)@ == old(active)@ && final(pending)@ == old(pending)@,
{
    if active.len() == 0 && pending.len() == 0 {
        return Err(NoSurfaces);
    }
    if active.len() == 0 {
        std::mem::swap(active, pending);
        Ok(true)
    } else {
        Ok(false)
    }
}

/// Whether a memory pool of `current` bytes, if there is one, holds a frame of `needed` bytes.
pub fn pool_suffices(current: Option<usize>, needed: usize) -> (r: bool)
    ensures
        r == (current matches Some(len) && len >= needed),
{
    match current {
        Some(len) => len >= needed,
        None => false,
    }
}

} // verus!
