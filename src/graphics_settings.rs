use vstd::prelude::*;

verus! {

/// The size of the framebuffer that a frame is drawn into.
#[derive(Clone, Copy, Debug, PartialEq, Eq, Structural)]
pub enum RenderResolution {
    W427h240,
    W640h360,
    W854h480,
    Native,
}

impl RenderResolution {
    pub open spec fn spec_size(&self, display_width: i32, display_height: i32) -> (i32, i32) {
        match self {
            RenderResolution::W427h240 => (427, 240),
            RenderResolution::W640h360 => (640, 360),
            RenderResolution::W854h480 => (854, 480),
            RenderResolution::Native => (display_width, display_height),
        }
    }

    /// Framebuffer width and height for a display of the given size: the fixed
    /// size of the variant, or the display's own for `Native`.
    pub fn framebuffer_size(&self, display_width: i32, display_height: i32) -> (r: (i32, i32))
        ensures
            r == self.spec_size(display_width, display_height),
    {
        match self {
            RenderResolution::W427h240 => (427, 240),
            RenderResolution::W640h360 => (640, 360),
            RenderResolution::W854h480 => (854, 480),
            RenderResolution::Native => (display_width, display_height),
        }
    }
}

/// How the window and the framebuffer are set up.
#[derive(Clone, Copy, Debug, PartialEq, Eq, Structural)]
pub struct GraphicsSettings {
    pub vsync: bool,
    pub fullscreen: bool,
    pub render_resolution: RenderResolution,
}

impl GraphicsSettings {
    /// Full screen, no vsync, an 854x480 framebuffer.
    pub fn new() -> (r: GraphicsSettings)
        ensures
            !r.vsync,
            r.fullscreen,
            r.render_resolution == RenderResolution::W854h480,
    {
        GraphicsSettings {
            vsync: false,
            fullscreen: true,
            render_resolution: RenderResolution::W854h480,
        }
    }
}

} // verus!
