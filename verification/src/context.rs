//! The size an animation draws into, and the interface every frame producer offers.

use vstd::prelude::*;

verus! {

/// The canvas an animation is laid out for.
#[derive(Debug, Clone, Copy, PartialEq, Eq)]
pub struct ScreenAnimationContext {
    /// Terminal columns the frame is centered in.
    pub resolved_width: usize,
    /// Terminal rows available.
    pub resolved_height: usize,
    /// Columns the animation itself draws.
    pub inner_width: usize,
    /// `narrow`, `medium`, `wide` or `hero`.
    pub size_class: &'static str,
}

/// Something that renders frames of an animation and steps it forward.
pub trait ScreenFrameProducer {
    /// The current frame, one string per terminal row.
    fn render_frame(&self) -> Vec<String>;

    /// Steps the animation by one frame.
    fn advance_frame(&mut self);

    /// Lays the animation out again for a new canvas.
    fn resize(&mut self, context: ScreenAnimationContext)
        requires
            context.inner_width * context.resolved_height <= usize::MAX,
            context.resolved_height <= 0x7fff_ffe7,
    ;
}

} // verus!
