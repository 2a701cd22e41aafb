use rstrf::interaction::{
    handle_keyboard, handle_mouse, start_marking, Crosshair, Key, KeyCommand, KeyInput, MouseButton,
    MouseCommand, MouseEvent, MouseInput, MouseState, PanDirection,
};
use rstrf::layout::{MarkAction, RectAction};

type P = (f32, f32);

fn mouse(event: MouseEvent, pos: Option<P>) -> MouseInput<P, u32> {
    MouseInput {
        event,
        plot_pos: pos,
        over_plot: true,
        over_y_axis: false,
        over_x_axis: false,
        shift: false,
        control: false,
        show_crosshair: false,
        has_spectrogram: true,
        closest_mark: None,
    }
}

fn key(key: Key, pos: Option<P>) -> KeyInput<P> {
    KeyInput {
        released: true,
        key,
        key_is_modifier: false,
        shift: false,
        cursor_pos: pos,
        has_spectrogram: true,
    }
}

#[test]
fn no_cursor_position_ignores_the_event() {
    let r = handle_mouse(MouseState::Idle, mouse(MouseEvent::ButtonPressed(MouseButton::Left), None));
    assert!(!r.captured);
    assert_eq!(r.state, MouseState::Idle);
    assert_eq!(r.command, MouseCommand::Nothing);
}

#[test]
fn wheel_zoom_depends_on_modifiers_and_axis() {
    let p = Some((0.5, 0.5));
    let mut m = mouse(MouseEvent::WheelScrolled, p);
    assert_eq!(handle_mouse(MouseState::Idle, m).command, MouseCommand::ZoomDelta);
    m.shift = true;
    assert_eq!(handle_mouse(MouseState::Idle, m).command, MouseCommand::ZoomDeltaX);
    m.shift = false;
    m.control = true;
    assert_eq!(handle_mouse(MouseState::Idle, m).command, MouseCommand::ZoomDeltaY);
    m.control = false;
    m.over_plot = false;
    m.over_x_axis = true;
    assert_eq!(handle_mouse(MouseState::Idle, m).command, MouseCommand::ZoomDeltaX);
    m.over_x_axis = false;
    m.over_y_axis = true;
    assert_eq!(handle_mouse(MouseState::Idle, m).command, MouseCommand::ZoomDeltaY);
}

#[test]
fn press_move_release_pans_between_positions() {
    let r = handle_mouse(MouseState::Idle, mouse(MouseEvent::ButtonPressed(MouseButton::Left), Some((0.1, 0.1))));
    assert_eq!(r.state, MouseState::Panning((0.1, 0.1)));
    let mut moved = mouse(MouseEvent::CursorMoved, Some((0.3, 0.2)));
    moved.shift = true;
    let r = handle_mouse(r.state, moved);
    assert_eq!(
        r.command,
        MouseCommand::PanningDelta { from: (0.1, 0.1), to: (0.3, 0.2), zero_x: false, zero_y: true }
    );
    let r2 = handle_mouse(r.state, mouse(MouseEvent::CursorMoved, Some((0.4, 0.4))));
    assert_eq!(
        r2.command,
        MouseCommand::PanningDelta { from: (0.3, 0.2), to: (0.4, 0.4), zero_x: false, zero_y: false }
    );
    let r3 = handle_mouse(r2.state, mouse(MouseEvent::ButtonReleased(MouseButton::Left), Some((0.4, 0.4))));
    assert_eq!(r3.state, MouseState::Idle);
}

#[test]
fn right_click_deletes_the_closest_mark() {
    let mut m = mouse(MouseEvent::ButtonPressed(MouseButton::Right), Some((0.2, 0.2)));
    m.closest_mark = Some((MarkAction::Signal, 9));
    let r = handle_mouse(MouseState::Idle, m);
    assert_eq!(r.command, MouseCommand::DeleteMark(MarkAction::Signal, 9));
    m.has_spectrogram = false;
    assert_eq!(handle_mouse(MouseState::Idle, m).command, MouseCommand::Nothing);
}

#[test]
fn crosshair_follows_the_cursor_when_shown() {
    let mut m = mouse(MouseEvent::CursorMoved, Some((0.2, 0.2)));
    m.show_crosshair = true;
    let r = handle_mouse(MouseState::Idle, m);
    assert_eq!(r.crosshair, Crosshair::MoveToCursor);
    assert_eq!(r.command, MouseCommand::Refresh);
    m.over_plot = false;
    assert_eq!(handle_mouse(MouseState::Idle, m).crosshair, Crosshair::Clear);
    m.show_crosshair = false;
    assert_eq!(handle_mouse(MouseState::Idle, m).crosshair, Crosshair::Keep);
}

#[test]
fn key_then_click_finishes_the_rectangle() {
    let k = handle_keyboard(MouseState::Idle, key(Key::Character('z'), Some((0.1, 0.2))));
    assert!(k.captured);
    assert_eq!(
        k.state,
        MouseState::DrawingRect { action: RectAction::Zoom, corner1: (0.1, 0.2), corner2: (0.1, 0.2) }
    );
    let moved = handle_mouse(k.state, mouse(MouseEvent::CursorMoved, Some((0.5, 0.5))));
    assert_eq!(moved.command, MouseCommand::Refresh);
    let done = handle_mouse(moved.state, mouse(MouseEvent::ButtonPressed(MouseButton::Left), Some((0.6, 0.7))));
    assert_eq!(
        done.command,
        MouseCommand::FinishRect { action: RectAction::Zoom, corner1: (0.1, 0.2), corner2: (0.6, 0.7) }
    );
    assert_eq!(done.state, MouseState::Idle);
}

#[test]
fn d_deletes_with_a_rectangle_and_shift_d_marks_signals() {
    let k = handle_keyboard(MouseState::Idle, key(Key::Character('d'), Some((0.0, 0.0))));
    assert_eq!(
        k.state,
        MouseState::DrawingRect { action: RectAction::Delete, corner1: (0.0, 0.0), corner2: (0.0, 0.0) }
    );
    let mut shifted = key(Key::Character('d'), Some((0.0, 0.0)));
    shifted.shift = true;
    let k = handle_keyboard(MouseState::Idle, shifted);
    assert_eq!(k.command, KeyCommand::MarkSignals);
    assert_eq!(k.state, MouseState::Idle);
}

#[test]
fn escape_abandons_a_rectangle_and_any_key_ends_marking() {
    let drawing = MouseState::DrawingRect { action: RectAction::MarkCentroid, corner1: (0.0, 0.0), corner2: (1.0, 1.0) };
    let k = handle_keyboard(drawing, key(Key::Escape, None));
    assert_eq!(k.state, MouseState::Idle);
    assert_eq!(k.command, KeyCommand::Refresh);
    let k = handle_keyboard(MouseState::Marking(MarkAction::Trackpoint), key(Key::Other, None));
    assert_eq!(k.state, MouseState::Idle);
    let mut modifier = key(Key::Other, None);
    modifier.key_is_modifier = true;
    let k = handle_keyboard(MouseState::Marking(MarkAction::Trackpoint), modifier);
    assert_eq!(k.state, MouseState::Marking(MarkAction::Trackpoint));
}

#[test]
fn arrows_pan_finely_with_shift() {
    let k = handle_keyboard(MouseState::Idle, key(Key::ArrowLeft, None));
    assert_eq!(k.command, KeyCommand::Pan { direction: PanDirection::Left, fine: false });
    let mut up = key(Key::ArrowUp, None);
    up.shift = true;
    assert_eq!(handle_keyboard(MouseState::Idle, up).command, KeyCommand::Pan { direction: PanDirection::Up, fine: true });
}

#[test]
fn key_presses_are_not_acted_on() {
    let mut pressed = key(Key::Character('s'), None);
    pressed.released = false;
    let k = handle_keyboard(MouseState::Idle, pressed);
    assert!(!k.captured);
    assert_eq!(k.command, KeyCommand::Nothing);
    let k = handle_keyboard(MouseState::Idle, key(Key::Character('s'), None));
    assert_eq!(k.command, KeyCommand::MarkTrackpoints);
}

#[test]
fn marking_adds_a_mark_on_release_and_leaves_on_a_click_outside() {
    let s = MouseState::Marking(MarkAction::Signal);
    let r = handle_mouse(s, mouse(MouseEvent::ButtonReleased(MouseButton::Left), Some((0.3, 0.3))));
    assert_eq!(r.command, MouseCommand::AddMark(MarkAction::Signal, (0.3, 0.3)));
    assert_eq!(r.state, s);
    let mut outside = mouse(MouseEvent::ButtonPressed(MouseButton::Left), Some((1.3, 0.3)));
    outside.over_plot = false;
    assert_eq!(handle_mouse(s, outside).state, MouseState::Idle);
}

#[test]
fn marking_starts_only_from_idle() {
    let s: MouseState<P> = start_marking(MouseState::Idle, MarkAction::Trackpoint);
    assert_eq!(s, MouseState::Marking(MarkAction::Trackpoint));
    let panning: MouseState<P> = MouseState::Panning((0.0, 0.0));
    assert_eq!(start_marking(panning, MarkAction::Signal), panning);
}
