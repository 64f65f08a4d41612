//! Which part of the window receives input, and what a key press does.
use vstd::prelude::*;

use crate::settings::{lemma_advance_counts_weeks, WorldDate};

verus! {

#[derive(Debug, Clone, Copy, PartialEq, Eq, Structural)]
pub enum Focus {
    World,
    Ui,
}

/// The keys the viewer responds to, by physical position; any other is `Other`
#[derive(Debug, Clone, Copy, PartialEq, Eq, Structural)]
pub enum Key {
    U,
    Escape,
    ArrowUp,
    ArrowDown,
    ArrowRight,
    ArrowLeft,
    W,
    S,
    A,
    D,
    Space,
    ShiftLeft,
    ControlLeft,
    Other,
}

/// A camera control held by a key
#[derive(Debug, Clone, Copy, PartialEq, Eq, Structural)]
pub enum Movement {
    Forward,
    Backward,
    Left,
    Right,
    Up,
    Down,
    Sprint,
}

/// What a key does to the active scene
#[derive(Debug, Clone, Copy, PartialEq, Eq, Structural)]
pub enum SceneKeyEffect {
    Unchanged,
    /// Scale the scene up by a tenth
    Grow,
    /// Scale the scene down by a tenth
    Shrink,
    /// Move the scene to this date
    SetDate(WorldDate),
}

/// The outcome of a key event
#[derive(Debug, Clone, Copy, PartialEq, Eq, Structural)]
pub struct KeyResponse {
    /// The focus to switch to, grabbing or releasing the cursor, if it changes
    pub focus: Option<Focus>,
    pub scene: SceneKeyEffect,
    /// The camera control the key sets (held while `pressed`), if the key reaches the camera
    pub movement: Option<Movement>,
}

/// Whether the control panel is shown and which part of the window has the input
#[derive(Debug, Clone, Copy, PartialEq, Eq, Structural)]
pub struct InputState {
    pub show_ui: bool,
    pub focus: Focus,
}

/// The camera control a key sets, if any
pub open spec fn spec_movement_for(key: Key) -> Option<Movement> {
    match key {
        Key::W => Some(Movement::Forward),
        Key::S => Some(Movement::Backward),
        Key::A => Some(Movement::Left),
        Key::D => Some(Movement::Right),
        Key::Space => Some(Movement::Up),
        Key::ShiftLeft => Some(Movement::Down),
        Key::ControlLeft => Some(Movement::Sprint),
        _ => None,
    }
}

/// The camera control a key sets, if any
pub fn movement_for(key: Key) -> (m: Option<Movement>)
    ensures
        m == spec_movement_for(key),
{
    match key {
        Key::W => Some(Movement::Forward),
        Key::S => Some(Movement::Backward),
        Key::A => Some(Movement::Left),
        Key::D => Some(Movement::Right),
        Key::Space => Some(Movement::Up),
        Key::ShiftLeft => Some(Movement::Down),
        Key::ControlLeft => Some(Movement::Sprint),
        _ => None,
    }
}

/// What a pressed key does to the scene while the world has focus: arrows up and down
/// scale it, arrows right and left move its date by `step` weeks forward or back
pub open spec fn spec_scene_effect(key: Key, pressed: bool, step: u32, date: WorldDate) -> SceneKeyEffect {
    if !pressed {
        SceneKeyEffect::Unchanged
    } else {
        match key {
            Key::ArrowUp => SceneKeyEffect::Grow,
            Key::ArrowDown => SceneKeyEffect::Shrink,
            Key::ArrowRight => SceneKeyEffect::SetDate(date.spec_advance_weeks((step as i32) as int)),
            Key::ArrowLeft => SceneKeyEffect::SetDate(date.spec_advance_weeks(-((step as i32) as int))),
            _ => SceneKeyEffect::Unchanged,
        }
    }
}

/// The state after a key event and the response to it. A press of `U` toggles the
/// panel and gives the focus to it when shown, to the world when hidden. Otherwise
/// keys act only while the world has focus: a press of `Escape` gives the focus to
/// the panel; any other key may change the scene and reaches the camera.
pub open spec fn spec_key_event(s: InputState, key: Key, pressed: bool, step: u32, date: WorldDate) -> (InputState, KeyResponse) {
    if key == Key::U && pressed {
        let show = !s.show_ui;
        let focus = if show { Focus::Ui } else { Focus::World };
        (
            InputState { show_ui: show, focus },
            KeyResponse { focus: Some(focus), scene: SceneKeyEffect::Unchanged, movement: None },
        )
    } else if s.focus == Focus::World && key == Key::Escape && pressed {
        (
            InputState { show_ui: s.show_ui, focus: Focus::Ui },
            KeyResponse { focus: Some(Focus::Ui), scene: SceneKeyEffect::Unchanged, movement: None },
        )
    } else if s.focus == Focus::World {
        (
            s,
            KeyResponse {
                focus: None,
                scene: spec_scene_effect(key, pressed, step, date),
                movement: spec_movement_for(key),
            },
        )
    } else {
        (s, KeyResponse { focus: None, scene: SceneKeyEffect::Unchanged, movement: None })
    }
}

impl InputState {
    /// The panel hidden and the world focused
    pub fn new() -> (s: Self)
        ensures
            !s.show_ui,
            s.focus == Focus::World,
    {
        InputState { show_ui: false, focus: Focus::World }
    }

    /// Handles a key event; `step` is the scene's progress step in weeks and `date` the
    /// active scene's date. A step of 2^31 reads as `i32::MIN`, which cannot be
    /// negated, so it is not accepted for a left arrow.
    pub fn handle_key(&mut self, key: Key, pressed: bool, step: u32, date: WorldDate) -> (r: KeyResponse)
        requires
            !(key == Key::ArrowLeft && pressed && old(self).focus == Focus::World && step == 0x8000_0000),
        ensures
            (*final(self), r) == spec_key_event(*old(self), key, pressed, step, date),
    {
        if key == Key::U && pressed {
            self.show_ui = !self.show_ui;
            let focus = if self.show_ui { Focus::Ui } else { Focus::World };
            self.focus = focus;
            return KeyResponse { focus: Some(focus), scene: SceneKeyEffect::Unchanged, movement: None };
        }
        if self.focus == Focus::World {
            if key == Key::Escape && pressed {
                self.focus = Focus::Ui;
                return KeyResponse { focus: Some(Focus::Ui), scene: SceneKeyEffect::Unchanged, movement: None };
            }
            let scene = if pressed {
                let weeks = #[verifier::truncate] (step as i32);
                match key {
                    Key::ArrowUp => SceneKeyEffect::Grow,
                    Key::ArrowDown => SceneKeyEffect::Shrink,
                    Key::ArrowRight => SceneKeyEffect::SetDate(date.advance_weeks(weeks)),
                    Key::ArrowLeft => {
                        assert(step != 0x8000_0000u32 ==> (step as i32) != i32::MIN) by (bit_vector);
                        SceneKeyEffect::SetDate(date.advance_weeks(-weeks))
                    },
                    _ => SceneKeyEffect::Unchanged,
                }
            } else {
                SceneKeyEffect::Unchanged
            };
            KeyResponse { focus: None, scene, movement: movement_for(key) }
        } else {
            KeyResponse { focus: None, scene: SceneKeyEffect::Unchanged, movement: None }
        }
    }
}

/// Pressing `U` twice leaves the panel and the focus as the first press found them,
/// when the panel's visibility and the focus agree (shown with the panel focused, or
/// hidden with the world focused)
pub proof fn lemma_toggle_twice(s: InputState, step: u32, date: WorldDate)
    requires
        s.show_ui == (s.focus == Focus::Ui),
    ensures
        spec_key_event(spec_key_event(s, Key::U, true, step, date).0, Key::U, true, step, date).0 == s,
{
}

/// While the panel has focus, only `U` does anything
pub proof fn lemma_ui_focus_ignores_keys(s: InputState, key: Key, pressed: bool, step: u32, date: WorldDate)
    requires
        s.focus == Focus::Ui,
        !(key == Key::U && pressed),
    ensures
        spec_key_event(s, key, pressed, step, date) == (
            s,
            KeyResponse { focus: None, scene: SceneKeyEffect::Unchanged, movement: None },
        ),
{
}

/// While the world has focus, a key event that neither toggles the panel nor hands it
/// the focus reaches the camera: `W` and `S` move forward and back, `A` strafes left and
/// `D` right, `Space` rises, left `Shift` sinks and left `Control` sprints, each of
/// these controls from exactly that key, and any other key moves nothing.
pub proof fn lemma_keys_steer_the_camera(s: InputState, key: Key, pressed: bool, step: u32, date: WorldDate)
    requires
        s.focus == Focus::World,
        !(key == Key::U && pressed),
        !(key == Key::Escape && pressed),
    ensures
        ({
            let m = spec_key_event(s, key, pressed, step, date).1.movement;
            &&& (m == Some(Movement::Forward) <==> key == Key::W)
            &&& (m == Some(Movement::Backward) <==> key == Key::S)
            &&& (m == Some(Movement::Left) <==> key == Key::A)
            &&& (m == Some(Movement::Right) <==> key == Key::D)
            &&& (m == Some(Movement::Up) <==> key == Key::Space)
            &&& (m == Some(Movement::Down) <==> key == Key::ShiftLeft)
            &&& (m == Some(Movement::Sprint) <==> key == Key::ControlLeft)
            &&& (m is None <==> !(key == Key::W || key == Key::S || key == Key::A || key == Key::D || key
                == Key::Space || key == Key::ShiftLeft || key == Key::ControlLeft))
        }),
{
}

/// While the world has focus, pressing an arrow key changes the scene: up grows it,
/// down shrinks it, right moves its date `step` weeks on and left `step` weeks back
/// (stopping at year 0), within the years a `u32` counts; no other key, and no release,
/// changes the scene.
pub proof fn lemma_arrows_change_the_scene(s: InputState, key: Key, pressed: bool, step: u32, date: WorldDate)
    requires
        s.focus == Focus::World,
        !(key == Key::U && pressed),
        !(key == Key::Escape && pressed),
        step < 0x8000_0000,
        0 <= date.total_weeks() + step < 52 * 0x1_0000_0000,
    ensures
        ({
            let e = spec_key_event(s, key, pressed, step, date).1.scene;
            &&& (pressed && key == Key::ArrowUp) ==> e == SceneKeyEffect::Grow
            &&& (pressed && key == Key::ArrowDown) ==> e == SceneKeyEffect::Shrink
            &&& (pressed && key == Key::ArrowRight) ==> (e matches SceneKeyEffect::SetDate(d) && d.total_weeks()
                == date.total_weeks() + step && d.week < 52)
            &&& (pressed && key == Key::ArrowLeft && step <= date.total_weeks()) ==> (e matches SceneKeyEffect::SetDate(d)
                && d.total_weeks() == date.total_weeks() - step && d.week < 52)
            &&& (pressed && key == Key::ArrowLeft && step > date.total_weeks()) ==> e == SceneKeyEffect::SetDate(
                WorldDate { year: 0, week: 0 },
            )
            &&& !(pressed && (key == Key::ArrowUp || key == Key::ArrowDown || key == Key::ArrowRight || key
                == Key::ArrowLeft)) ==> e == SceneKeyEffect::Unchanged
        }),
{
    assert(((step as i32) as int) == step as int) by (bit_vector)
        requires
            step < 0x8000_0000u32,
    ;
    lemma_advance_counts_weeks(date, step as int);
    lemma_advance_counts_weeks(date, -(step as int));
}

} // verus!
