//! Decisions taken from mouse and keyboard input: forming planets with the
//! left button, grabbing and locking planets, and the camera that follows a
//! locked planet.

use vstd::prelude::*;

verus! {

/// What a frame of left-button input does to planet formation.
#[derive(PartialEq, Eq, Structural, Clone, Copy, Debug)]
pub enum ClickAction {
    /// Start a new planet at the cursor.
    SpawnForming,
    /// Grow the planet that is being formed.
    Grow,
    /// Let the planet that was being formed take part in gravity.
    Release,
    /// Nothing happens.
    Idle,
}

/// The spawn condition: the left button went down, no planet is being formed,
/// and the left control key is not held (that combination locks planets).
pub open spec fn spawns(left_just_pressed: bool, forming_count: nat, ctrl_held: bool) -> bool {
    left_just_pressed && forming_count == 0 && !ctrl_held
}

/// Law: a planet is spawned only on the frame the left button goes down,
/// only while no planet is being formed, and never while the left control
/// key is held; any such frame spawns.
pub proof fn lemma_spawn_rule(left_just_pressed: bool, forming_count: nat, ctrl_held: bool)
    ensures
        spawns(left_just_pressed, forming_count, ctrl_held) ==> left_just_pressed,
        spawns(left_just_pressed, forming_count, ctrl_held) ==> forming_count == 0,
        spawns(left_just_pressed, forming_count, ctrl_held) ==> !ctrl_held,
        left_just_pressed && forming_count == 0 && !ctrl_held ==> spawns(
            left_just_pressed,
            forming_count,
            ctrl_held,
        ),
{
}

/// Decides what the left button does this frame.
///
/// Spawning takes precedence; otherwise a held button grows the forming
/// planet and a released button releases it, when there is one.
pub fn click_action(
    left_just_pressed: bool,
    left_pressed: bool,
    left_just_released: bool,
    forming_count: usize,
    ctrl_held: bool,
) -> (action: ClickAction)
    ensures
        (action == ClickAction::SpawnForming) <==> (left_just_pressed && forming_count == 0
            && !ctrl_held),
        (action == ClickAction::Grow) <==> (!(left_just_pressed && forming_count == 0 && !ctrl_held)
            && left_pressed && forming_count > 0),
        (action == ClickAction::Release) <==> (!(left_just_pressed && forming_count == 0
            && !ctrl_held) && !left_pressed && left_just_released && forming_count > 0),
        (action == ClickAction::SpawnForming) <==> spawns(
            left_just_pressed,
            forming_count as nat,
            ctrl_held,
        ),
{
    if left_just_pressed && forming_count < 1 && !ctrl_held {
        ClickAction::SpawnForming
    } else if left_pressed {
        if forming_count > 0 {
            ClickAction::Grow
        } else {
            ClickAction::Idle
        }
    } else if left_just_released {
        if forming_count > 0 {
            ClickAction::Release
        } else {
            ClickAction::Idle
        }
    } else {
        ClickAction::Idle
    }
}

/// Whether a middle click grabs a planet: the cursor is on it and the camera
/// is not locked to it.
pub fn grabs_planet(under_cursor: bool, camera_locked: bool) -> (grabbed: bool)
    ensures
        grabbed == (under_cursor && !camera_locked),
{
    under_cursor && !camera_locked
}

/// A planet is locked after a control-left click exactly when the click was
/// on it and it was not locked before.
pub open spec fn locked_after_click(was_locked: bool, under_cursor: bool) -> bool {
    under_cursor && !was_locked
}

/// Law: two control-left clicks on a planet give it back its lock state; a
/// click elsewhere releases it; a click on it locks it when it was unlocked
/// and unlocks it when it was locked.
pub proof fn lemma_lock_clicks(was_locked: bool)
    ensures
        locked_after_click(locked_after_click(was_locked, true), true) == was_locked,
        !locked_after_click(was_locked, false),
        locked_after_click(false, true),
        !locked_after_click(true, true),
{
}

/// Whether a planet is camera-locked after a control-left click.
///
/// The click releases every lock, and locks the planet under the cursor
/// unless that planet was the locked one, so clicking a locked planet
/// unlocks it.
pub fn lock_after_click(was_locked: bool, under_cursor: bool) -> (locked: bool)
    ensures
        locked == locked_after_click(was_locked, under_cursor),
        locked == (under_cursor && !was_locked),
{
    let mut locked = was_locked;
    if was_locked {
        locked = false;
    }
    if under_cursor {
        if was_locked {
            locked = false;
        } else {
            locked = true;
        }
    }
    locked
}

/// Where the camera goes and whether the lock reticle shows.
#[derive(PartialEq, Eq, Structural, Clone, Copy, Debug)]
pub struct CameraPlan {
    /// Position, among the locked planets in query order, of the planet the
    /// camera is centred on.
    pub follow: Option<usize>,
    /// Whether the reticle is drawn around the followed planet.
    pub reticle_visible: bool,
}

/// The camera follows the last locked planet, and the reticle is shown
/// exactly when some planet is locked.
pub fn lock_camera_plan(locked_count: usize) -> (plan: CameraPlan)
    ensures
        plan.reticle_visible == (locked_count > 0),
        locked_count == 0 ==> plan.follow is None,
        locked_count > 0 ==> plan.follow == Some((locked_count - 1) as usize),
{
    if locked_count > 0 {
        CameraPlan { follow: Some(locked_count - 1), reticle_visible: true }
    } else {
        CameraPlan { follow: None, reticle_visible: false }
    }
}

} // verus!
