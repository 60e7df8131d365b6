use vstd::prelude::*;

pub mod aabb;
pub mod aspect_ratio;
pub mod face;
pub mod geometry;
pub mod graphics_settings;
pub mod input;
pub mod static_world;

verus! {

/// Game updates per second.
pub const TICKS_PER_SECOND: u128 = 60;

/// Milliseconds between two game updates.
pub const TICK_RATE: u128 = 1000 / TICKS_PER_SECOND;

/// The framework's entry point, which paces the game loop.
pub struct Rsfx;

impl Rsfx {
    pub fn new() -> (r: Rsfx) {
        Rsfx
    }

    /// Whether the scene is due an update at time `now`, both times in
    /// milliseconds: the time elapsed since `last_frame_time` when at least one
    /// tick has passed, `None` before that.
    pub fn tick(&self, last_frame_time: u128, now: u128) -> (r: Option<u128>)
        ensures
            r == if now >= last_frame_time && now - last_frame_time >= TICK_RATE {
                Some((now - last_frame_time) as u128)
            } else {
                None::<u128>
            },
    {
        if now >= last_frame_time && now - last_frame_time >= TICK_RATE {
            Some(now - last_frame_time)
        } else {
            None
        }
    }
}

} // verus!
