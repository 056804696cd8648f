//! Decisions of the present node: when the swapchain is recreated, and with what extent.
//! The node acquires a swapchain image, recreates the swapchain when it is out of date or
//! was found suboptimal, and presents the image; the caller performs each action and hands
//! back what the swapchain answered.

use vstd::prelude::*;

verus! {

/// Width and height of a surface.
#[derive(Clone, Copy, Debug, PartialEq, Eq, Structural)]
pub struct Extent2D {
    /// Width in pixels.
    pub width: u32,
    /// Height in pixels.
    pub height: u32,
}

/// What the present node does next.
#[derive(Clone, Copy, Debug, PartialEq, Eq, Structural)]
pub enum PresentAction {
    /// Acquire an image of the swapchain.
    Acquire,
    /// Recreate the swapchain, then acquire again.
    Recreate,
    /// Provide the acquired image to the graph and present it.
    Provide,
}

/// Answer of the swapchain to an acquisition.
#[derive(Clone, Copy, Debug, PartialEq, Eq, Structural)]
pub enum AcquireOutcome {
    /// An image was acquired; the swapchain may be suboptimal for the surface.
    Image {
        /// The swapchain no longer matches the surface exactly.
        suboptimal: bool,
    },
    /// The swapchain is out of date and must be recreated.
    OutOfDate,
}

/// State of the present node: whether the swapchain is to be recreated before the next
/// acquisition, and the extent used when the surface suggests none.
#[derive(Clone, Copy, Debug, PartialEq, Eq, Structural)]
pub struct PresentState {
    /// Recreate the swapchain before the next acquisition.
    pub do_recreate: bool,
    /// Extent used when the surface suggests none.
    pub fallback_extent: Extent2D,
}

impl PresentState {
    /// State of a node whose swapchain was just created.
    pub fn new(fallback_extent: Extent2D) -> (r: Self)
        ensures
            r == (PresentState { do_recreate: false, fallback_extent }),
    {
        PresentState { do_recreate: false, fallback_extent }
    }

    /// Change the fallback extent; a different one schedules a recreation.
    pub fn set_fallback_extent(&mut self, fallback_extent: Extent2D)
        ensures
            final(self).fallback_extent == fallback_extent,
            final(self).do_recreate == (old(self).do_recreate || old(self).fallback_extent != fallback_extent),
    {
        if self.fallback_extent != fallback_extent {
            self.do_recreate = true;
        }
        self.fallback_extent = fallback_extent;
    }

    /// First action of a frame: recreate when scheduled, else acquire.
    pub fn start(&self) -> (r: PresentAction)
        ensures
            r == if self.do_recreate {
                PresentAction::Recreate
            } else {
                PresentAction::Acquire
            },
    {
        if self.do_recreate {
            PresentAction::Recreate
        } else {
            PresentAction::Acquire
        }
    }

    /// Next action once the swapchain answered an acquisition: an image is provided, and a
    /// suboptimal swapchain is recreated at the next frame; an out-of-date one is recreated
    /// at once.
    pub fn acquired(&mut self, outcome: AcquireOutcome) -> (r: PresentAction)
        ensures
            match outcome {
                AcquireOutcome::Image { suboptimal } => {
                    &&& r == PresentAction::Provide
                    &&& final(self).do_recreate == (old(self).do_recreate || suboptimal)
                    &&& final(self).fallback_extent == old(self).fallback_extent
                },
                AcquireOutcome::OutOfDate => r == PresentAction::Recreate && *final(self) == *old(self),
            },
    {
        match outcome {
            AcquireOutcome::Image { suboptimal } => {
                if suboptimal {
                    self.do_recreate = true;
                }
                PresentAction::Provide
            },
            AcquireOutcome::OutOfDate => PresentAction::Recreate,
        }
    }

    /// Recreate the swapchain: its extent is the one the surface suggests, or the fallback;
    /// no recreation is scheduled any more, and an image is acquired next.
    pub fn recreate(&mut self, suggested: Option<Extent2D>) -> (r: (Extent2D, PresentAction))
        ensures
            r.0 == match suggested {
                Some(e) => e,
                None => old(self).fallback_extent,
            },
            r.1 == PresentAction::Acquire,
            !final(self).do_recreate,
            final(self).fallback_extent == old(self).fallback_extent,
    {
        let extent = match suggested {
            Some(e) => e,
            None => self.fallback_extent,
        };
        self.do_recreate = false;
        (extent, PresentAction::Acquire)
    }

    /// The swapchain answered a presentation: a suboptimal answer schedules a recreation.
    pub fn presented(&mut self, suboptimal: bool)
        ensures
            final(self).do_recreate == (old(self).do_recreate || suboptimal),
            final(self).fallback_extent == old(self).fallback_extent,
    {
        if suboptimal {
            self.do_recreate = true;
        }
    }
}

} // verus!
