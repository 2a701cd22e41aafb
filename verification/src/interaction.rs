//! The mouse and keyboard decisions of the spectrogram plot.
//!
//! The plot is in one of four interaction modes: idle, panning with the left button held,
//! drawing a rectangle (to delete marks in it, zoom to it, or mark its power centroid), or
//! placing marks. Each input event, together with where the cursor is and which modifiers are
//! held, decides the next mode and at most one command to the plot. Positions are of the
//! caller's type `P` (the cursor in plot-area coordinates); the caller turns the commands into
//! geometry.
use vstd::prelude::*;
use crate::layout::{MarkAction, RectAction};

verus! {

/// The interaction mode of the plot.
#[derive(Debug, Clone, Copy, PartialEq)]
pub enum MouseState<P> {
    Idle,
    /// Panning; holds the previous cursor position.
    Panning(P),
    /// Drawing a rectangle from `corner1` to `corner2`.
    DrawingRect { action: RectAction, corner1: P, corner2: P },
    /// Placing marks of the given kind.
    Marking(MarkAction),
}

/// A mouse button.
#[derive(Debug, Clone, Copy, PartialEq, Eq, Structural)]
pub enum MouseButton {
    Left,
    Right,
    Other,
}

/// The kind of a mouse event.
#[derive(Debug, Clone, Copy, PartialEq, Eq, Structural)]
pub enum MouseEvent {
    WheelScrolled,
    CursorMoved,
    ButtonPressed(MouseButton),
    ButtonReleased(MouseButton),
    Other,
}

/// Everything a mouse event is decided on.
#[derive(Debug, Clone, Copy, PartialEq)]
pub struct MouseInput<P, K> {
    pub event: MouseEvent,
    /// The cursor in plot-area coordinates, if the cursor position is known.
    pub plot_pos: Option<P>,
    /// Whether the cursor is over the plot area, the y axis, the x axis.
    pub over_plot: bool,
    pub over_y_axis: bool,
    pub over_x_axis: bool,
    pub shift: bool,
    pub control: bool,
    pub show_crosshair: bool,
    pub has_spectrogram: bool,
    /// The mark nearest to the cursor within the grab radius, if any, with its collection.
    pub closest_mark: Option<(MarkAction, K)>,
}

/// What happens to the crosshair.
#[derive(Debug, Clone, Copy, PartialEq, Eq, Structural)]
pub enum Crosshair {
    Keep,
    /// Move it to the cursor.
    MoveToCursor,
    Clear,
}

/// The command a mouse event sends to the plot.
#[derive(Debug, Clone, Copy, PartialEq)]
pub enum MouseCommand<P, K> {
    Nothing,
    Refresh,
    /// Zoom at the cursor on both axes, the time axis only, or the frequency axis only, by the
    /// wheel's delta.
    ZoomDelta,
    ZoomDeltaX,
    ZoomDeltaY,
    /// Delete the given mark.
    DeleteMark(MarkAction, K),
    /// Pan by the cursor movement from `from` to `to`; with `zero_y` (shift) the vertical part
    /// is dropped, with `zero_x` (control) the horizontal part.
    PanningDelta { from: P, to: P, zero_x: bool, zero_y: bool },
    /// The rectangle between the corners is done.
    FinishRect { action: RectAction, corner1: P, corner2: P },
    /// Add a mark of the given kind at the position.
    AddMark(MarkAction, P),
}

/// The result of a mouse event.
#[derive(Debug, Clone, Copy, PartialEq)]
pub struct MouseOutcome<P, K> {
    pub captured: bool,
    pub state: MouseState<P>,
    pub crosshair: Crosshair,
    pub command: MouseCommand<P, K>,
}

/// What a mouse event does to the crosshair: a cursor move with the crosshair shown puts it at
/// the cursor when over a loaded plot and hides it otherwise.
pub open spec fn crosshair_spec<P, K>(input: MouseInput<P, K>) -> Crosshair {
    if input.event == MouseEvent::CursorMoved && input.show_crosshair {
        if input.over_plot && input.has_spectrogram {
            Crosshair::MoveToCursor
        } else {
            Crosshair::Clear
        }
    } else {
        Crosshair::Keep
    }
}

/// The command an event sends when the mode does not handle it: a redraw if the crosshair moved.
pub open spec fn fallthrough_spec<P, K>(input: MouseInput<P, K>) -> MouseCommand<P, K> {
    if crosshair_spec(input) != Crosshair::Keep {
        MouseCommand::Refresh
    } else {
        MouseCommand::Nothing
    }
}

/// The outcome of a mouse event in mode `state`.
pub open spec fn mouse_spec<P, K>(state: MouseState<P>, input: MouseInput<P, K>) -> MouseOutcome<
    P,
    K,
> {
    match input.plot_pos {
        // without a cursor position nothing happens
        None => MouseOutcome {
            captured: false,
            state,
            crosshair: Crosshair::Keep,
            command: MouseCommand::Nothing,
        },
        Some(pos) => if input.event == MouseEvent::WheelScrolled {
            // the wheel zooms where the cursor is
            MouseOutcome {
                captured: true,
                state,
                crosshair: Crosshair::Keep,
                command: if input.over_plot {
                    if input.shift {
                        MouseCommand::ZoomDeltaX
                    } else if input.control {
                        MouseCommand::ZoomDeltaY
                    } else {
                        MouseCommand::ZoomDelta
                    }
                } else if input.over_y_axis {
                    MouseCommand::ZoomDeltaY
                } else if input.over_x_axis {
                    MouseCommand::ZoomDeltaX
                } else {
                    MouseCommand::Nothing
                },
            }
        } else {
            let (next, command) = match state {
                MouseState::Idle => if input.event == MouseEvent::ButtonPressed(MouseButton::Left)
                    && input.over_plot {
                    (MouseState::Panning(pos), MouseCommand::Nothing)
                } else if input.event == MouseEvent::ButtonPressed(MouseButton::Right) {
                    (
                        state,
                        match input.closest_mark {
                            Some((kind, mark)) if input.over_plot && input.has_spectrogram =>
                                MouseCommand::DeleteMark(kind, mark),
                            _ => MouseCommand::Nothing,
                        },
                    )
                } else {
                    (state, fallthrough_spec(input))
                },
                MouseState::Panning(prev) => if input.event == MouseEvent::ButtonReleased(
                    MouseButton::Left,
                ) {
                    (MouseState::Idle, fallthrough_spec(input))
                } else if input.event == MouseEvent::CursorMoved {
                    (
                        MouseState::Panning(pos),
                        MouseCommand::PanningDelta {
                            from: prev,
                            to: pos,
                            zero_x: input.control,
                            zero_y: input.shift,
                        },
                    )
                } else {
                    (state, fallthrough_spec(input))
                },
                MouseState::DrawingRect { action, corner1, .. } => if input.event
                    == MouseEvent::CursorMoved {
                    (MouseState::DrawingRect { action, corner1, corner2: pos }, MouseCommand::Refresh)
                } else if input.event == MouseEvent::ButtonPressed(MouseButton::Left) {
                    (
                        MouseState::Idle,
                        if input.has_spectrogram {
                            MouseCommand::FinishRect { action, corner1, corner2: pos }
                        } else {
                            MouseCommand::Nothing
                        },
                    )
                } else {
                    (state, fallthrough_spec(input))
                },
                MouseState::Marking(kind) => if input.event == MouseEvent::ButtonReleased(
                    MouseButton::Left,
                ) && input.over_plot {
                    (
                        state,
                        if input.has_spectrogram {
                            MouseCommand::AddMark(kind, pos)
                        } else {
                            MouseCommand::Nothing
                        },
                    )
                } else if input.event == MouseEvent::ButtonPressed(MouseButton::Left)
                    && !input.over_plot {
                    (MouseState::Idle, MouseCommand::Nothing)
                } else {
                    (state, fallthrough_spec(input))
                },
            };
            MouseOutcome { captured: true, state: next, crosshair: crosshair_spec(input), command }
        },
    }
}

/// Decides a mouse event.
pub fn handle_mouse<P: Copy, K: Copy>(state: MouseState<P>, input: MouseInput<P, K>) -> (r:
    MouseOutcome<P, K>)
    ensures
        r == mouse_spec(state, input),
        input.plot_pos is None ==> r == (MouseOutcome {
            captured: false,
            state,
            crosshair: Crosshair::Keep,
            command: MouseCommand::<P, K>::Nothing,
        }),
        input.plot_pos is Some && input.event == MouseEvent::WheelScrolled ==> {
            &&& r.captured
            &&& r.state == state
            &&& r.crosshair == Crosshair::Keep
            &&& input.over_plot && input.shift ==> r.command == MouseCommand::<P, K>::ZoomDeltaX
            &&& input.over_plot && !input.shift && input.control ==> r.command
                == MouseCommand::<P, K>::ZoomDeltaY
            &&& input.over_plot && !input.shift && !input.control ==> r.command
                == MouseCommand::<P, K>::ZoomDelta
            &&& !input.over_plot && input.over_y_axis ==> r.command
                == MouseCommand::<P, K>::ZoomDeltaY
            &&& !input.over_plot && !input.over_y_axis && input.over_x_axis ==> r.command
                == MouseCommand::<P, K>::ZoomDeltaX
            &&& !input.over_plot && !input.over_y_axis && !input.over_x_axis ==> r.command
                == MouseCommand::<P, K>::Nothing
        },
        input.plot_pos is Some && input.event != MouseEvent::WheelScrolled ==> {
            &&& r.captured
            &&& input.event == MouseEvent::CursorMoved && input.show_crosshair && input.over_plot
                && input.has_spectrogram ==> r.crosshair == Crosshair::MoveToCursor
            &&& input.event == MouseEvent::CursorMoved && input.show_crosshair && !(input.over_plot
                && input.has_spectrogram) ==> r.crosshair == Crosshair::Clear
            &&& !(input.event == MouseEvent::CursorMoved && input.show_crosshair) ==> r.crosshair
                == Crosshair::Keep
        },
        state is Idle && input.plot_pos is Some && input.event == MouseEvent::ButtonPressed(
            MouseButton::Left,
        ) && input.over_plot ==> r.state == MouseState::Panning(input.plot_pos->0) && r.command
            == MouseCommand::<P, K>::Nothing,
        state is Idle && input.plot_pos is Some && input.event == MouseEvent::ButtonPressed(
            MouseButton::Right,
        ) ==> r.state == state && r.command == (if input.over_plot && input.has_spectrogram
            && input.closest_mark is Some {
            MouseCommand::<P, K>::DeleteMark((input.closest_mark->0).0, (input.closest_mark->0).1)
        } else {
            MouseCommand::<P, K>::Nothing
        }),
        state matches MouseState::Panning(prev) ==> {
            &&& input.plot_pos is Some && input.event == MouseEvent::CursorMoved ==> r.state
                == MouseState::Panning(input.plot_pos->0) && r.command == (MouseCommand::<
                P,
                K,
            >::PanningDelta {
                from: prev,
                to: input.plot_pos->0,
                zero_x: input.control,
                zero_y: input.shift,
            })
            &&& input.plot_pos is Some && input.event == MouseEvent::ButtonReleased(
                MouseButton::Left,
            ) ==> r.state == MouseState::<P>::Idle
        },
        state matches MouseState::DrawingRect { action, corner1, .. } ==> {
            &&& input.plot_pos is Some && input.event == MouseEvent::CursorMoved ==> r.state == (
            MouseState::DrawingRect { action, corner1, corner2: input.plot_pos->0 }) && r.command
                == MouseCommand::<P, K>::Refresh
            &&& input.plot_pos is Some && input.event == MouseEvent::ButtonPressed(
                MouseButton::Left,
            ) ==> r.state == MouseState::<P>::Idle && r.command == (if input.has_spectrogram {
                MouseCommand::<P, K>::FinishRect { action, corner1, corner2: input.plot_pos->0 }
            } else {
                MouseCommand::<P, K>::Nothing
            })
        },
        state matches MouseState::Marking(kind) ==> {
            &&& input.plot_pos is Some && input.event == MouseEvent::ButtonReleased(
                MouseButton::Left,
            ) && input.over_plot ==> r.state == state && r.command == (if input.has_spectrogram {
                MouseCommand::<P, K>::AddMark(kind, input.plot_pos->0)
            } else {
                MouseCommand::<P, K>::Nothing
            })
            &&& input.plot_pos is Some && input.event == MouseEvent::ButtonPressed(
                MouseButton::Left,
            ) && !input.over_plot ==> r.state == MouseState::<P>::Idle && r.command
                == MouseCommand::<P, K>::Nothing
        },
{
    let pos = match input.plot_pos {
        None => {
            return MouseOutcome {
                captured: false,
                state,
                crosshair: Crosshair::Keep,
                command: MouseCommand::Nothing,
            };
        },
        Some(p) => p,
    };
    if input.event == MouseEvent::WheelScrolled {
        let command = if input.over_plot {
            if input.shift {
                MouseCommand::ZoomDeltaX
            } else if input.control {
                MouseCommand::ZoomDeltaY
            } else {
                MouseCommand::ZoomDelta
            }
        } else if input.over_y_axis {
            MouseCommand::ZoomDeltaY
        } else if input.over_x_axis {
            MouseCommand::ZoomDeltaX
        } else {
            MouseCommand::Nothing
        };
        return MouseOutcome { captured: true, state, crosshair: Crosshair::Keep, command };
    }
    let update_crosshair = input.event == MouseEvent::CursorMoved && input.show_crosshair;
    let crosshair = if update_crosshair {
        if input.over_plot && input.has_spectrogram {
            Crosshair::MoveToCursor
        } else {
            Crosshair::Clear
        }
    } else {
        Crosshair::Keep
    };
    let fallthrough = if update_crosshair {
        MouseCommand::Refresh
    } else {
        MouseCommand::Nothing
    };
    match state {
        MouseState::Idle => {
            if input.event == MouseEvent::ButtonPressed(MouseButton::Left) {
                if input.over_plot {
                    return MouseOutcome {
                        captured: true,
                        state: MouseState::Panning(pos),
                        crosshair,
                        command: MouseCommand::Nothing,
                    };
                }
            } else if input.event == MouseEvent::ButtonPressed(MouseButton::Right) {
                let command = if input.over_plot && input.has_spectrogram {
                    match input.closest_mark {
                        Some((action, point)) => MouseCommand::DeleteMark(action, point),
                        None => MouseCommand::Nothing,
                    }
                } else {
                    MouseCommand::Nothing
                };
                return MouseOutcome { captured: true, state, crosshair, command };
            }
            MouseOutcome { captured: true, state, crosshair, command: fallthrough }
        },
        MouseState::Panning(prev) => {
            if input.event == MouseEvent::ButtonReleased(MouseButton::Left) {
                MouseOutcome {
                    captured: true,
                    state: MouseState::Idle,
                    crosshair,
                    command: fallthrough,
                }
            } else if input.event == MouseEvent::CursorMoved {
                MouseOutcome {
                    captured: true,
                    state: MouseState::Panning(pos),
                    crosshair,
                    command: MouseCommand::PanningDelta {
                        from: prev,
                        to: pos,
                        zero_x: input.control,
                        zero_y: input.shift,
                    },
                }
            } else {
                MouseOutcome { captured: true, state, crosshair, command: fallthrough }
            }
        },
        MouseState::DrawingRect { action, corner1, .. } => {
            if input.event == MouseEvent::CursorMoved {
                MouseOutcome {
                    captured: true,
                    state: MouseState::DrawingRect { action, corner1, corner2: pos },
                    crosshair,
                    command: MouseCommand::Refresh,
                }
            } else if input.event == MouseEvent::ButtonPressed(MouseButton::Left) {
                let command = if input.has_spectrogram {
                    MouseCommand::FinishRect { action, corner1, corner2: pos }
                } else {
                    MouseCommand::Nothing
                };
                MouseOutcome { captured: true, state: MouseState::Idle, crosshair, command }
            } else {
                MouseOutcome { captured: true, state, crosshair, command: fallthrough }
            }
        },
        MouseState::Marking(kind) => {
            if input.event == MouseEvent::ButtonReleased(MouseButton::Left) && input.over_plot {
                let command = if input.has_spectrogram {
                    MouseCommand::AddMark(kind, pos)
                } else {
                    MouseCommand::Nothing
                };
                MouseOutcome { captured: true, state, crosshair, command }
            } else if input.event == MouseEvent::ButtonPressed(MouseButton::Left)
                && !input.over_plot {
                MouseOutcome {
                    captured: true,
                    state: MouseState::Idle,
                    crosshair,
                    command: MouseCommand::Nothing,
                }
            } else {
                MouseOutcome { captured: true, state, crosshair, command: fallthrough }
            }
        },
    }
}


/// The mode after a request to place marks of kind `kind`: an idle plot starts placing them, a
/// plot in any other mode stays in it.
pub fn start_marking<P: Copy>(state: MouseState<P>, kind: MarkAction) -> (r: MouseState<P>)
    ensures
        r == (if state is Idle {
            MouseState::Marking(kind)
        } else {
            state
        }),
{
    match state {
        MouseState::Idle => MouseState::Marking(kind),
        _ => state,
    }
}

/// A key, as far as the plot tells keys apart.
#[derive(Debug, Clone, Copy, PartialEq, Eq, Structural)]
pub enum Key {
    Escape,
    /// A key that types exactly this one character.
    Character(char),
    ArrowLeft,
    ArrowRight,
    ArrowUp,
    ArrowDown,
    Other,
}

/// Everything a keyboard event is decided on.
#[derive(Debug, Clone, Copy, PartialEq)]
pub struct KeyInput<P> {
    /// Whether the event is a key release; the plot acts on releases only.
    pub released: bool,
    pub key: Key,
    /// Whether the key is a modifier key (shift, control, alt, super).
    pub key_is_modifier: bool,
    pub shift: bool,
    /// The cursor in plot-area coordinates, if it is over the plot.
    pub cursor_pos: Option<P>,
    pub has_spectrogram: bool,
}

/// The direction of a keyboard pan: the arrow pans the view the other way, so `Left` moves the
/// plot area by `+step` on x, `Right` by `-step`, `Up` by `-step` on y and `Down` by `+step`.
#[derive(Debug, Clone, Copy, PartialEq, Eq, Structural)]
pub enum PanDirection {
    Left,
    Right,
    Up,
    Down,
}

/// The command a keyboard event sends to the plot.
#[derive(Debug, Clone, Copy, PartialEq, Eq, Structural)]
pub enum KeyCommand {
    Nothing,
    Refresh,
    MarkTrackpoints,
    MarkSignals,
    ResetView,
    FindSignals,
    TogglePredictions,
    /// Pan by a whole step, or by half a step when `fine` (shift held).
    Pan { direction: PanDirection, fine: bool },
}

/// The result of a keyboard event.
#[derive(Debug, Clone, Copy, PartialEq)]
pub struct KeyOutcome<P> {
    pub captured: bool,
    pub state: MouseState<P>,
    pub command: KeyCommand,
}

/// The command of a key that works wherever the cursor is, if it is one.
pub open spec fn global_key_command(key: Key, shift: bool) -> Option<KeyCommand> {
    match key {
        Key::Character(c) => if c == 's' {
            Some(KeyCommand::MarkTrackpoints)
        } else if c == 'd' && shift {
            Some(KeyCommand::MarkSignals)
        } else if c == 'r' {
            Some(KeyCommand::ResetView)
        } else if c == 'f' {
            Some(KeyCommand::FindSignals)
        } else if c == 'p' {
            Some(KeyCommand::TogglePredictions)
        } else {
            None
        },
        Key::ArrowLeft => Some(KeyCommand::Pan { direction: PanDirection::Left, fine: shift }),
        Key::ArrowRight => Some(KeyCommand::Pan { direction: PanDirection::Right, fine: shift }),
        Key::ArrowUp => Some(KeyCommand::Pan { direction: PanDirection::Up, fine: shift }),
        Key::ArrowDown => Some(KeyCommand::Pan { direction: PanDirection::Down, fine: shift }),
        _ => None,
    }
}

/// The rectangle a key starts drawing when the cursor is over a loaded, idle plot, if any.
pub open spec fn rect_key_action(key: Key, shift: bool) -> Option<RectAction> {
    match key {
        Key::Character(c) => if c == 'd' && !shift {
            Some(RectAction::Delete)
        } else if c == 'z' {
            Some(RectAction::Zoom)
        } else if c == 'm' {
            Some(RectAction::MarkCentroid)
        } else {
            None
        },
        _ => None,
    }
}

fn global_key(key: Key, shift: bool) -> (r: Option<KeyCommand>)
    ensures
        r == global_key_command(key, shift),
{
    match key {
        Key::Character(c) => if c == 's' {
            Some(KeyCommand::MarkTrackpoints)
        } else if c == 'd' && shift {
            Some(KeyCommand::MarkSignals)
        } else if c == 'r' {
            Some(KeyCommand::ResetView)
        } else if c == 'f' {
            Some(KeyCommand::FindSignals)
        } else if c == 'p' {
            Some(KeyCommand::TogglePredictions)
        } else {
            None
        },
        Key::ArrowLeft => Some(KeyCommand::Pan { direction: PanDirection::Left, fine: shift }),
        Key::ArrowRight => Some(KeyCommand::Pan { direction: PanDirection::Right, fine: shift }),
        Key::ArrowUp => Some(KeyCommand::Pan { direction: PanDirection::Up, fine: shift }),
        Key::ArrowDown => Some(KeyCommand::Pan { direction: PanDirection::Down, fine: shift }),
        _ => None,
    }
}

/// The outcome of a keyboard event in mode `state`.
pub open spec fn keyboard_spec<P>(state: MouseState<P>, input: KeyInput<P>) -> KeyOutcome<P> {
    if !input.released {
        KeyOutcome { captured: false, state, command: KeyCommand::Nothing }
    } else {
        let s1 = if state is Marking && !input.key_is_modifier {
            MouseState::Idle
        } else {
            state
        };
        if input.key == Key::Escape && s1 is DrawingRect {
            KeyOutcome { captured: true, state: MouseState::Idle, command: KeyCommand::Refresh }
        } else {
            let s2 = if input.key == Key::Escape && s1 is Marking {
                MouseState::Idle
            } else {
                s1
            };
            match global_key_command(input.key, input.shift) {
                Some(c) => KeyOutcome { captured: true, state: s2, command: c },
                None => match (input.cursor_pos, rect_key_action(input.key, input.shift)) {
                    (Some(pos), Some(action)) if s2 is Idle && input.has_spectrogram => KeyOutcome {
                        captured: true,
                        state: MouseState::DrawingRect { action, corner1: pos, corner2: pos },
                        command: KeyCommand::Nothing,
                    },
                    _ => KeyOutcome { captured: false, state: s2, command: KeyCommand::Nothing },
                },
            }
        }
    }
}

/// Decides a keyboard event. Any key but a modifier ends mark placing; escape also abandons a
/// rectangle being drawn; the letter and arrow keys send their commands; and with the cursor
/// over a loaded, idle plot, `d`, `z` and `m` start a rectangle at the cursor.
pub fn handle_keyboard<P: Copy>(state: MouseState<P>, input: KeyInput<P>) -> (r: KeyOutcome<P>)
    ensures
        r == keyboard_spec(state, input),
        !input.released ==> r == (KeyOutcome { captured: false, state, command: KeyCommand::Nothing }),
        input.released && input.cursor_pos is Some && input.has_spectrogram && (state is Idle || (
        state is Marking && !input.key_is_modifier)) ==> {
            &&& input.key == Key::Character('d') && !input.shift ==> r == (KeyOutcome {
                captured: true,
                state: MouseState::DrawingRect {
                    action: RectAction::Delete,
                    corner1: input.cursor_pos->0,
                    corner2: input.cursor_pos->0,
                },
                command: KeyCommand::Nothing,
            })
            &&& input.key == Key::Character('z') ==> r == (KeyOutcome {
                captured: true,
                state: MouseState::DrawingRect {
                    action: RectAction::Zoom,
                    corner1: input.cursor_pos->0,
                    corner2: input.cursor_pos->0,
                },
                command: KeyCommand::Nothing,
            })
            &&& input.key == Key::Character('m') ==> r == (KeyOutcome {
                captured: true,
                state: MouseState::DrawingRect {
                    action: RectAction::MarkCentroid,
                    corner1: input.cursor_pos->0,
                    corner2: input.cursor_pos->0,
                },
                command: KeyCommand::Nothing,
            })
        },
{
    if !input.released {
        return KeyOutcome { captured: false, state, command: KeyCommand::Nothing };
    }
    let mut state = state;
    if !input.key_is_modifier {
        if let MouseState::Marking(_) = state {
            state = MouseState::Idle;
        }
    }
    if input.key == Key::Escape {
        match state {
            MouseState::DrawingRect { .. } => {
                return KeyOutcome {
                    captured: true,
                    state: MouseState::Idle,
                    command: KeyCommand::Refresh,
                };
            },
            MouseState::Marking(_) => {
                state = MouseState::Idle;
            },
            _ => {},
        }
    }
    if let Some(command) = global_key(input.key, input.shift) {
        return KeyOutcome { captured: true, state, command };
    }
    let pos = match input.cursor_pos {
        None => {
            return KeyOutcome { captured: false, state, command: KeyCommand::Nothing };
        },
        Some(p) => p,
    };
    let idle = match state {
        MouseState::Idle => true,
        _ => false,
    };
    let action = match input.key {
        Key::Character(c) => if c == 'd' && !input.shift {
            Some(RectAction::Delete)
        } else if c == 'z' {
            Some(RectAction::Zoom)
        } else if c == 'm' {
            Some(RectAction::MarkCentroid)
        } else {
            None
        },
        _ => None,
    };
    match action {
        Some(action) if idle && input.has_spectrogram => KeyOutcome {
            captured: true,
            state: MouseState::DrawingRect { action, corner1: pos, corner2: pos },
            command: KeyCommand::Nothing,
        },
        _ => KeyOutcome { captured: false, state, command: KeyCommand::Nothing },
    }
}

/// Releasing escape never leaves the plot drawing a rectangle or placing marks, and any other
/// non-modifier key ends mark placing.
pub proof fn lemma_escape_and_keys_end_modes<P>(state: MouseState<P>, input: KeyInput<P>)
    requires
        input.released,
        !input.key_is_modifier,
    ensures
        !(keyboard_spec(state, input).state is Marking),
        input.key == Key::Escape ==> !(keyboard_spec(state, input).state is DrawingRect),
{
}

/// A left click while drawing always ends the drawing.
pub proof fn lemma_click_ends_drawing<P, K>(action: RectAction, c1: P, c2: P, input: MouseInput<P, K>)
    requires
        input.plot_pos is Some,
        input.event == MouseEvent::ButtonPressed(MouseButton::Left),
    ensures
        mouse_spec(MouseState::DrawingRect { action, corner1: c1, corner2: c2 }, input).state
            == MouseState::<P>::Idle,
{
}

/// A rectangle started with a key at one cursor position and closed with a left click at another
/// is exactly the rectangle between those two positions, with the key's action.
pub proof fn lemma_key_then_click_finishes_rect<P, K>(
    key_input: KeyInput<P>,
    click: MouseInput<P, K>,
    start: P,
    end: P,
    action: RectAction,
)
    requires
        key_input.released,
        key_input.cursor_pos == Some(start),
        key_input.has_spectrogram,
        global_key_command(key_input.key, key_input.shift) is None,
        rect_key_action(key_input.key, key_input.shift) == Some(action),
        click.plot_pos == Some(end),
        click.event == MouseEvent::ButtonPressed(MouseButton::Left),
        click.has_spectrogram,
    ensures
        keyboard_spec(MouseState::<P>::Idle, key_input).state == (MouseState::DrawingRect {
            action,
            corner1: start,
            corner2: start,
        }),
        mouse_spec(keyboard_spec(MouseState::<P>::Idle, key_input).state, click).command == (
        MouseCommand::<P, K>::FinishRect { action, corner1: start, corner2: end }),
        mouse_spec(keyboard_spec(MouseState::<P>::Idle, key_input).state, click).state
            == MouseState::<P>::Idle,
{
    assert(key_input.key != Key::Escape);
}

/// A press, moves and the release of the left button pan by the sum of the moves: each move
/// pans from where the previous one ended.
pub proof fn lemma_pan_moves_chain<P, K>(start: P, m1: MouseInput<P, K>, m2: MouseInput<P, K>, a: P, b: P)
    requires
        m1.event == MouseEvent::CursorMoved,
        m1.plot_pos == Some(a),
        m2.event == MouseEvent::CursorMoved,
        m2.plot_pos == Some(b),
    ensures
        mouse_spec(MouseState::Panning(start), m1).command matches MouseCommand::PanningDelta {
            from,
            to,
            ..
        } && from == start && to == a,
        mouse_spec(mouse_spec(MouseState::Panning(start), m1).state, m2).command matches MouseCommand::PanningDelta {
            from,
            to,
            ..
        } && from == a && to == b,
{
}

/// Dragging pans along the cursor: each move while panning pans from the previous position to
/// the cursor and keeps panning from there. Control drops the horizontal part of the pan (only
/// vertical panning), shift the vertical part (only horizontal panning).
pub proof fn lemma_pan_drag_axes<P, K>(prev: P, input: MouseInput<P, K>, pos: P)
    requires
        input.event == MouseEvent::CursorMoved,
        input.plot_pos == Some(pos),
    ensures
        mouse_spec(MouseState::Panning(prev), input).captured,
        mouse_spec(MouseState::Panning(prev), input).state == MouseState::Panning(pos),
        mouse_spec(MouseState::Panning(prev), input).command == (MouseCommand::<P, K>::PanningDelta {
            from: prev,
            to: pos,
            zero_x: input.control,
            zero_y: input.shift,
        }),
        input.control && !input.shift ==> mouse_spec(MouseState::Panning(prev), input).command == (
        MouseCommand::<P, K>::PanningDelta { from: prev, to: pos, zero_x: true, zero_y: false }),
        input.shift && !input.control ==> mouse_spec(MouseState::Panning(prev), input).command == (
        MouseCommand::<P, K>::PanningDelta { from: prev, to: pos, zero_x: false, zero_y: true }),
        !input.shift && !input.control ==> mouse_spec(MouseState::Panning(prev), input).command == (
        MouseCommand::<P, K>::PanningDelta { from: prev, to: pos, zero_x: false, zero_y: false }),
{
}

/// The rectangle keys: with the cursor over a loaded plot that is idle (or placing marks, which
/// any non-modifier key ends), releasing `d` (without shift) starts a rectangle that deletes the
/// marks in it, `z` one that zooms to it, and `m` one that marks its power centroid; the
/// rectangle starts as the single point under the cursor.
pub proof fn lemma_rect_keys<P>(state: MouseState<P>, input: KeyInput<P>, pos: P)
    requires
        input.released,
        input.cursor_pos == Some(pos),
        input.has_spectrogram,
        state is Idle || (state is Marking && !input.key_is_modifier),
    ensures
        rect_key_action(Key::Character('d'), false) == Some(RectAction::Delete),
        rect_key_action(Key::Character('z'), input.shift) == Some(RectAction::Zoom),
        rect_key_action(Key::Character('m'), input.shift) == Some(RectAction::MarkCentroid),
        input.key == Key::Character('d') && !input.shift ==> keyboard_spec(state, input) == (
        KeyOutcome {
            captured: true,
            state: MouseState::DrawingRect {
                action: RectAction::Delete,
                corner1: pos,
                corner2: pos,
            },
            command: KeyCommand::Nothing,
        }),
        input.key == Key::Character('z') ==> keyboard_spec(state, input) == (KeyOutcome {
            captured: true,
            state: MouseState::DrawingRect { action: RectAction::Zoom, corner1: pos, corner2: pos },
            command: KeyCommand::Nothing,
        }),
        input.key == Key::Character('m') ==> keyboard_spec(state, input) == (KeyOutcome {
            captured: true,
            state: MouseState::DrawingRect {
                action: RectAction::MarkCentroid,
                corner1: pos,
                corner2: pos,
            },
            command: KeyCommand::Nothing,
        }),
{
}

/// In mark placing mode every release of the left button over a loaded plot adds a mark of the
/// mode's kind at the cursor, and the mode stays on.
pub proof fn lemma_marking_clicks_add_marks<P, K>(kind: MarkAction, input: MouseInput<P, K>, pos: P)
    requires
        input.plot_pos == Some(pos),
        input.event == MouseEvent::ButtonReleased(MouseButton::Left),
        input.over_plot,
        input.has_spectrogram,
    ensures
        mouse_spec(MouseState::<P>::Marking(kind), input).command == MouseCommand::<P, K>::AddMark(
            kind,
            pos,
        ),
        mouse_spec(MouseState::<P>::Marking(kind), input).state == MouseState::<P>::Marking(kind),
{
}

/// The hotkeys, on release and in any mode: `r` resets the view, `p` toggles the predictions,
/// `f` finds signals, `s` places track points, shift+`d` marks signals, and the arrows pan by a
/// whole step, or half a step with shift.
pub proof fn lemma_hotkeys<P>(state: MouseState<P>, input: KeyInput<P>)
    requires
        input.released,
    ensures
        input.key == Key::Character('r') ==> keyboard_spec(state, input).command
            == KeyCommand::ResetView,
        input.key == Key::Character('p') ==> keyboard_spec(state, input).command
            == KeyCommand::TogglePredictions,
        input.key == Key::Character('f') ==> keyboard_spec(state, input).command
            == KeyCommand::FindSignals,
        input.key == Key::Character('s') ==> keyboard_spec(state, input).command
            == KeyCommand::MarkTrackpoints,
        input.key == Key::Character('d') && input.shift ==> keyboard_spec(state, input).command
            == KeyCommand::MarkSignals,
        input.key == Key::ArrowLeft ==> keyboard_spec(state, input).command == (KeyCommand::Pan {
            direction: PanDirection::Left,
            fine: input.shift,
        }),
        input.key == Key::ArrowRight ==> keyboard_spec(state, input).command == (KeyCommand::Pan {
            direction: PanDirection::Right,
            fine: input.shift,
        }),
        input.key == Key::ArrowUp ==> keyboard_spec(state, input).command == (KeyCommand::Pan {
            direction: PanDirection::Up,
            fine: input.shift,
        }),
        input.key == Key::ArrowDown ==> keyboard_spec(state, input).command == (KeyCommand::Pan {
            direction: PanDirection::Down,
            fine: input.shift,
        }),
{
}

} // verus!
