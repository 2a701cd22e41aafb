//! The messages and effects that panes and windows exchange with their parents, and the
//! interaction modes of the spectrogram plot.
use vstd::prelude::*;

verus! {

/// An application-wide event that panes and windows react to.
#[derive(Debug, Clone, Copy, PartialEq, Eq, Structural)]
pub enum AppEvent {
    ConfigUpdated,
    SatellitesChanged,
}

/// A cross-cutting effect that escapes a pane's own message type and must be handled by the
/// workspace; `W` is the workspace's message type.
#[derive(Debug, Clone, PartialEq, Eq)]
pub enum PaneEffect<W> {
    ToWorkspace(W),
}

/// Return type for pane update functions: either a pane-local continuation or an escaped effect.
#[derive(Debug, Clone, PartialEq, Eq)]
pub enum PaneOut<M, W> {
    Msg(M),
    Effect(PaneEffect<W>),
}

/// A cross-cutting effect that escapes a window's own message type and must be handled by the
/// application; `A` is the application's message type.
#[derive(Debug, Clone, PartialEq, Eq)]
pub enum WindowEffect<A> {
    ToApp(A),
}

/// Return type for window update functions: either a window-local continuation or an escaped
/// effect.
#[derive(Debug, Clone, PartialEq, Eq)]
pub enum WindowOut<M, A> {
    Msg(M),
    Effect(WindowEffect<A>),
}

/// The direction in which a pane is split into two.
#[derive(Debug, Clone, Copy, PartialEq, Eq, Structural)]
pub enum SplitAxis {
    Horizontal,
    Vertical,
}

/// The placeholder pane shown while a workspace loads, offering the panes to open.
#[derive(Debug, Clone, Copy, PartialEq, Eq, Structural)]
pub struct Dummy;

impl Dummy {
    /// The pane's title.
    pub fn title(&self) -> (r: String)
        ensures
            r@ == "Loading..."@,
    {
        String::from_str("Loading...")
    }
}

/// What a rectangle dragged out on the plot does.
#[derive(Debug, Clone, Copy, PartialEq, Eq, Structural)]
pub enum RectAction {
    Delete,
    Zoom,
    MarkCentroid,
}

/// Which of the two mark collections a mark belongs to.
#[derive(Debug, Clone, Copy, PartialEq, Eq, Structural)]
pub enum MarkAction {
    Trackpoint,
    Signal,
}

/// A service whose state is updated only through messages.
pub trait ReadOnlyService {
    type UpdateMessage;

    fn update(&mut self, message: Self::UpdateMessage);
}

} // verus!
