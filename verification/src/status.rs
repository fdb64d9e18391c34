//! Whether the keyboard counts as connected, and when the page must be told.
//! A debug override can force the shown connection state: 0 forces
//! "disconnected", 1 forces "connected", any other value follows the device.
use vstd::prelude::*;

verus! {

/// Override value that forces "disconnected".
pub const FORCE_OFFLINE: u8 = 0;

/// Override value that forces "connected".
pub const FORCE_ONLINE: u8 = 1;

/// Override value that follows the device.
pub const FOLLOW_DEVICE: u8 = 2;

/// The connection state shown: forced by the override, else the device's.
pub open spec fn spec_effective_online(override_state: u8, actual: bool) -> bool {
    if override_state == FORCE_OFFLINE {
        false
    } else if override_state == FORCE_ONLINE {
        true
    } else {
        actual
    }
}

/// The connection state shown (see [`spec_effective_online`]).
pub fn effective_online(override_state: u8, actual: bool) -> (b: bool)
    ensures
        b == spec_effective_online(override_state, actual),
{
    if override_state == FORCE_OFFLINE {
        false
    } else if override_state == FORCE_ONLINE {
        true
    } else {
        actual
    }
}

/// The device paired: it is now online. Returns whether to announce
/// "keyboard-online": only on a change, and not while forced disconnected.
pub fn mark_online(online: &mut bool, override_state: u8) -> (announce: bool)
    ensures
        *final(online),
        announce == (!*old(online) && override_state != FORCE_OFFLINE),
{
    if !*online {
        *online = true;
        override_state != FORCE_OFFLINE
    } else {
        false
    }
}

/// What going offline requires.
#[derive(Debug, Clone, Copy, PartialEq, Eq, Structural)]
pub struct OfflineActions {
    /// The device was online: reset the active layer to 0 and record it offline.
    pub changed: bool,
    /// Announce "keyboard-offline".
    pub announce: bool,
}

/// The device was lost: it is now offline. On a change the active layer
/// resets, and "keyboard-offline" is announced unless forced connected.
pub fn mark_offline(online: &mut bool, override_state: u8) -> (a: OfflineActions)
    ensures
        !*final(online),
        a.changed == *old(online),
        a.announce == (*old(online) && override_state != FORCE_ONLINE),
{
    if *online {
        *online = false;
        OfflineActions { changed: true, announce: override_state != FORCE_ONLINE }
    } else {
        OfflineActions { changed: false, announce: false }
    }
}

/// The debug menu's "force" toggle: it forces the opposite of what is shown
/// now. Returns the new override value and whether it forces "connected".
pub fn toggle_forced_connection(override_state: u8, actual: bool) -> (r: (u8, bool))
    ensures
        r.1 == !spec_effective_online(override_state, actual),
        r.0 == if r.1 {
            FORCE_ONLINE
        } else {
            FORCE_OFFLINE
        },
        spec_effective_online(r.0, actual) == r.1,
{
    let forced_online = !effective_online(override_state, actual);
    (if forced_online { FORCE_ONLINE } else { FORCE_OFFLINE }, forced_online)
}

} // verus!
