//! Frame coordination arithmetic: the simulation clock, the fixed-step
//! physics catch-up, and resize handling.
//!
//! The threads, channels and condition variable that drive these values
//! live outside; they hand in plain timestamps (microseconds) and
//! resize events and apply the decisions computed here.

use vstd::prelude::*;
use crate::world::Camera;

verus! {

/// The fixed physics timestep: 1/64 of a second, in microseconds.
pub const TIMESTEP_MICROSECONDS: u64 = 15625;

/// The simulation clock's last reading, in microseconds.
#[derive(Copy, Clone, PartialEq, Eq, Structural, Debug)]
pub struct Timestamp(pub u64);

/// The time the last tick took, in microseconds.
#[derive(Copy, Clone, PartialEq, Eq, Structural, Debug)]
pub struct DeltaTime(pub u64);

/// When the physics last stepped, in microseconds.
#[derive(Copy, Clone, PartialEq, Eq, Structural, Debug)]
pub struct LastStepTimestamp(pub u64);

/// Advances the clock: the delta becomes the time since the previous
/// reading and the timestamp becomes the new reading.
pub fn update_time(now: u64, timestamp: &mut Timestamp, delta_time: &mut DeltaTime)
    requires
        now >= old(timestamp).0,
    ensures
        final(timestamp).0 == now,
        final(delta_time).0 == now - old(timestamp).0,
{
    delta_time.0 = now - timestamp.0;
    timestamp.0 = now;
}

/// Whether at least one fixed timestep has elapsed since the last
/// physics step.
pub fn should_step_physics(now: u64, last_step: u64) -> (r: bool)
    requires
        now >= last_step,
    ensures
        r == (now - last_step >= TIMESTEP_MICROSECONDS),
{
    now - last_step >= TIMESTEP_MICROSECONDS
}

/// The catch-up decision: how many fixed steps to run so the physics
/// reaches the present, and the step clock afterwards. The new clock
/// lands exactly `steps` timesteps after the old one and less than one
/// timestep behind the present, so simulation determinism is decoupled
/// from the rendering rate.
pub fn catch_up_physics(now: u64, last_step: u64) -> (r: (u64, u64))
    requires
        now >= last_step,
    ensures
        r.0 == ((now - last_step) as int) / (TIMESTEP_MICROSECONDS as int),
        r.1 == last_step + r.0 * TIMESTEP_MICROSECONDS,
        r.1 <= now,
        now - r.1 < TIMESTEP_MICROSECONDS,
{
    let elapsed = now - last_step;
    let steps = elapsed / TIMESTEP_MICROSECONDS;
    let remainder = elapsed % TIMESTEP_MICROSECONDS;
    proof {
        assert(elapsed == steps * TIMESTEP_MICROSECONDS + remainder && remainder
            < TIMESTEP_MICROSECONDS && steps * TIMESTEP_MICROSECONDS <= elapsed)
            by (nonlinear_arith)
            requires
                steps == elapsed / TIMESTEP_MICROSECONDS && remainder == elapsed
                    % TIMESTEP_MICROSECONDS && TIMESTEP_MICROSECONDS == 15625u64,
        ;
    }
    let new_last = now - remainder;
    (steps, new_last)
}

/// A pending window resize.
#[derive(Copy, Clone, PartialEq, Eq, Structural, Debug)]
pub struct ResizeEvent {
    pub width: u32,
    pub height: u32,
}

/// Clamps a surface size so a window collapsed to zero still yields a
/// valid surface: each extent gets a floor of one.
pub fn clamp_surface_size(width: u32, height: u32) -> (r: (u32, u32))
    ensures
        r.0 == if width == 0 {
            1u32
        } else {
            width
        },
        r.1 == if height == 0 {
            1u32
        } else {
            height
        },
        r.0 >= 1,
        r.1 >= 1,
{
    let w = if width == 0 {
        1
    } else {
        width
    };
    let h = if height == 0 {
        1
    } else {
        height
    };
    (w, h)
}

/// Applies a pending resize on simulation wakeup: the camera's aspect
/// ratio follows the new window size, and the surface and the depth
/// and multisample targets are recreated at the clamped size.
pub fn apply_resize(camera: &mut Camera, event: ResizeEvent) -> (surface: (u32, u32))
    ensures
        final(camera).aspect_width == event.width,
        final(camera).aspect_height == event.height,
        final(camera).position == old(camera).position,
        final(camera).target == old(camera).target,
        final(camera).up == old(camera).up,
        final(camera).fov == old(camera).fov,
        final(camera).near == old(camera).near,
        final(camera).far == old(camera).far,
        surface.0 == if event.width == 0 {
            1u32
        } else {
            event.width
        },
        surface.1 == if event.height == 0 {
            1u32
        } else {
            event.height
        },
{
    camera.aspect_width = event.width;
    camera.aspect_height = event.height;
    clamp_surface_size(event.width, event.height)
}

} // verus!
