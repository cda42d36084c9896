//! The seam between what produces frames and what shows them.

use crate::error::Error;
use crate::framebuffer::Framebuffer;
use crate::span::Span;
use vstd::prelude::*;

verus! {

/// Anything that yields frames into a framebuffer.
///
/// The caller owns and reuses the target framebuffer, sizing it to the desired viewport before
/// each call: implementations render into it rather than allocating their own.
pub trait FrameSource {
    /// Whether the source is in a state in which it can be asked for frames.
    spec fn ready(&self) -> bool;

    /// Renders the next frame into `target`.
    ///
    /// Returns `Ok(true)` if a frame was produced, or `Ok(false)` when the source is exhausted
    /// (for example, the end of a non-looping video).
    fn next_frame(&mut self, target: &mut Framebuffer) -> (r: Result<bool, Error>)
        requires
            old(self).ready(),
            old(target).wf(),
        ensures
            final(self).ready(),
            final(target).wf(),
    ;

    /// The delay to wait before showing the next frame, for animated sources.
    ///
    /// Returns `None` for static sources or when timing is driven externally.
    fn frame_delay(&self) -> (d: Option<Span>)
        requires
            self.ready(),
    ;
}

} // verus!
