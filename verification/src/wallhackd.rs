//! What can be asked of the program on its command line.

use vstd::prelude::*;

verus! {

/// The options of a headless start.
pub struct WHDCommandLine {
    /// Join a room without a window.
    pub headless_client: bool,
    /// Host a room without a window.
    pub headless_host: bool,
    pub username: Option<String>,
    pub matchmaker_addr: Option<String>,
    pub roomid: Option<String>,
    /// Where a headless client saves the canvas.
    pub save_canvas: Option<String>,
    /// From where a headless host loads the canvas.
    pub load_canvas: Option<String>,
}

/// Where on the screen an overlay window is put.
#[derive(Clone, Copy, Debug, PartialEq, Eq, Structural)]
pub enum OverlayWindowPos {
    TopLeft,
    Top,
    TopRight,
    MiddleLeft,
    Middle,
    MiddleRight,
    BottomLeft,
    Bottom,
    BottomRight,
}

/// Where along one axis of the screen a window is put: at the side where
/// the axis begins, in the middle, or at the side where it ends.
#[derive(Clone, Copy, Debug, PartialEq, Eq, Structural)]
pub enum Anchor {
    Start,
    Centre,
    End,
}

impl OverlayWindowPos {
    /// Where the window is put from left to right.
    pub open spec fn spec_horizontal(self) -> Anchor {
        match self {
            OverlayWindowPos::TopLeft | OverlayWindowPos::MiddleLeft | OverlayWindowPos::BottomLeft =>
                Anchor::Start,
            OverlayWindowPos::Top | OverlayWindowPos::Middle | OverlayWindowPos::Bottom =>
                Anchor::Centre,
            OverlayWindowPos::TopRight | OverlayWindowPos::MiddleRight | OverlayWindowPos::BottomRight =>
                Anchor::End,
        }
    }

    /// Where the window is put from top to bottom.
    pub open spec fn spec_vertical(self) -> Anchor {
        match self {
            OverlayWindowPos::TopLeft | OverlayWindowPos::Top | OverlayWindowPos::TopRight =>
                Anchor::Start,
            OverlayWindowPos::MiddleLeft | OverlayWindowPos::Middle | OverlayWindowPos::MiddleRight =>
                Anchor::Centre,
            OverlayWindowPos::BottomLeft | OverlayWindowPos::Bottom | OverlayWindowPos::BottomRight =>
                Anchor::End,
        }
    }

    /// Where the window is put from left to right.
    #[verifier::when_used_as_spec(spec_horizontal)]
    pub fn horizontal(self) -> (anchor: Anchor)
        ensures
            anchor == self.spec_horizontal(),
    {
        match self {
            OverlayWindowPos::TopLeft | OverlayWindowPos::MiddleLeft | OverlayWindowPos::BottomLeft =>
                Anchor::Start,
            OverlayWindowPos::Top | OverlayWindowPos::Middle | OverlayWindowPos::Bottom =>
                Anchor::Centre,
            OverlayWindowPos::TopRight | OverlayWindowPos::MiddleRight | OverlayWindowPos::BottomRight =>
                Anchor::End,
        }
    }

    /// Where the window is put from top to bottom.
    #[verifier::when_used_as_spec(spec_vertical)]
    pub fn vertical(self) -> (anchor: Anchor)
        ensures
            anchor == self.spec_vertical(),
    {
        match self {
            OverlayWindowPos::TopLeft | OverlayWindowPos::Top | OverlayWindowPos::TopRight =>
                Anchor::Start,
            OverlayWindowPos::MiddleLeft | OverlayWindowPos::Middle | OverlayWindowPos::MiddleRight =>
                Anchor::Centre,
            OverlayWindowPos::BottomLeft | OverlayWindowPos::Bottom | OverlayWindowPos::BottomRight =>
                Anchor::End,
        }
    }
}

} // verus!
