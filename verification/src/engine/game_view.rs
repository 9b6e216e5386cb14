//! The game view's playback state: playing, paused, single steps, the
//! camera it follows and whether it fills the window.
use vstd::prelude::*;
use crate::engine::editor::DisplayMode;

verus! {

/// The state of the game view that its controls change. Zoom, frame
/// times and the frame counter are measured in doubles by the window and
/// are not held here.
pub struct GameView {
    pub display_mode: DisplayMode,
    pub device_simulator_enabled: bool,
    pub show_fps: bool,
    pub mute_audio: bool,
    pub is_playing: bool,
    pub is_paused: bool,
    pub camera_entity: Option<usize>,
    pub max_view: bool,
    pub step_requested: bool,
    pub current_scene_name: String,
}

impl Default for GameView {
    fn default() -> (g: GameView)
        ensures
            g.display_mode == DisplayMode::Display1,
            !g.device_simulator_enabled,
            g.show_fps,
            !g.mute_audio,
            !g.is_playing,
            !g.is_paused,
            g.camera_entity is None,
            !g.max_view,
            !g.step_requested,
            g.current_scene_name@ == "Main Scene"@,
    {
        GameView {
            display_mode: DisplayMode::Display1,
            device_simulator_enabled: false,
            show_fps: true,
            mute_audio: false,
            is_playing: false,
            is_paused: false,
            camera_entity: None,
            max_view: false,
            step_requested: false,
            current_scene_name: "Main Scene".to_owned(),
        }
    }
}

impl GameView {
    /// A game view in its default state.
    pub fn new() -> (g: GameView)
        ensures
            g.display_mode == DisplayMode::Display1,
            !g.device_simulator_enabled,
            g.show_fps,
            !g.mute_audio,
            !g.is_playing,
            !g.is_paused,
            g.camera_entity is None,
            !g.max_view,
            !g.step_requested,
            g.current_scene_name@ == "Main Scene"@,
    {
        GameView::default()
    }

    /// Starts or stops playing; either way the view is no longer paused.
    pub fn toggle_play(&mut self)
        ensures
            final(self).is_playing == !old(self).is_playing,
            !final(self).is_paused,
            final(self).step_requested == old(self).step_requested,
            final(self).camera_entity == old(self).camera_entity,
            final(self).max_view == old(self).max_view,
            final(self).display_mode == old(self).display_mode,
            final(self).current_scene_name@ == old(self).current_scene_name@,
    {
        self.is_playing = !self.is_playing;
        self.is_paused = false;
    }

    /// Pauses or resumes, only while playing.
    pub fn toggle_pause(&mut self)
        ensures
            final(self).is_paused == if old(self).is_playing {
                !old(self).is_paused
            } else {
                old(self).is_paused
            },
            final(self).is_playing == old(self).is_playing,
            final(self).step_requested == old(self).step_requested,
            final(self).camera_entity == old(self).camera_entity,
            final(self).max_view == old(self).max_view,
    {
        if self.is_playing {
            self.is_paused = !self.is_paused;
        }
    }

    /// Asks for one frame, only while playing and paused.
    pub fn step_frame(&mut self)
        ensures
            final(self).step_requested == (old(self).step_requested || (old(self).is_playing
                && old(self).is_paused)),
            final(self).is_playing == old(self).is_playing,
            final(self).is_paused == old(self).is_paused,
            final(self).camera_entity == old(self).camera_entity,
            final(self).max_view == old(self).max_view,
    {
        if self.is_playing && self.is_paused {
            self.step_requested = true;
        }
    }

    /// Follows the camera of an entity.
    pub fn set_camera_entity(&mut self, entity_id: usize)
        ensures
            final(self).camera_entity == Some(entity_id),
            final(self).is_playing == old(self).is_playing,
            final(self).is_paused == old(self).is_paused,
            final(self).step_requested == old(self).step_requested,
            final(self).max_view == old(self).max_view,
    {
        self.camera_entity = Some(entity_id);
    }

    /// Fills the window, or stops filling it.
    pub fn toggle_max_view(&mut self)
        ensures
            final(self).max_view == !old(self).max_view,
            final(self).is_playing == old(self).is_playing,
            final(self).is_paused == old(self).is_paused,
            final(self).step_requested == old(self).step_requested,
            final(self).camera_entity == old(self).camera_entity,
    {
        self.max_view = !self.max_view;
    }
}

} // verus!
