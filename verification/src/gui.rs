//! Requests the control panel makes of the application for one frame.
use vstd::prelude::*;

verus! {

#[derive(Default)]
pub struct UiActions {
    pub reset_scene: bool,
    pub reset_camera: bool,
    pub reset_display: bool,
    pub save_scene: bool,
    pub save_scene_name: String,
    pub set_orbit: bool,
    pub set_fps: bool,
    pub scene_dirty: bool,
    pub new_scene_seed: Option<u64>,
}

} // verus!
