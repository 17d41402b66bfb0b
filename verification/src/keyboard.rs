//! Keyboard capture: which sound category a key belongs to, and the event
//! that a key going down or up puts on the bridge.

use vstd::prelude::*;
use device_query::Keycode;
use crate::bridge::EventBridge;
use crate::sound::{KeyEvent, KeyPressType, SoundType};

verus! {

/// `device_query::Keycode`, the keys that the keyboard listener reports. The
/// type is declared with the variants that `device_query` gives it, so what
/// is proved about a key is proved about that enum as it is.
#[verifier::external_type_specification]
pub struct ExKeycode(Keycode);

/// The sound category of a key: backspace, enter and space have sounds of
/// their own, every other key shares the generic one.
pub open spec fn spec_map_key_to_sound(key: Keycode) -> SoundType {
    match key {
        Keycode::Backspace => SoundType::Backspace,
        Keycode::Enter => SoundType::Enter,
        Keycode::Space => SoundType::Space,
        _ => SoundType::Generic,
    }
}

/// The sound category of a key.
pub fn map_key_to_sound(key: &Keycode) -> (sound: SoundType)
    ensures
        sound == spec_map_key_to_sound(*key),
{
    match key {
        Keycode::Backspace => SoundType::Backspace,
        Keycode::Enter => SoundType::Enter,
        Keycode::Space => SoundType::Space,
        _ => SoundType::Generic,
    }
}

/// Puts on the bridge the event of `key` going down or up: the key state
/// paired with the key's sound category. On a closed bridge the event is
/// handed back and nothing is queued.
pub fn handle_key(bridge: &mut EventBridge, keypress: KeyPressType, key: &Keycode) -> (result: Result<
    (),
    KeyEvent,
>)
    ensures
        final(bridge)@ == old(bridge)@.send((keypress, spec_map_key_to_sound(*key))),
        result == if old(bridge)@.closed {
            Err::<(), KeyEvent>((keypress, spec_map_key_to_sound(*key)))
        } else {
            Ok::<(), KeyEvent>(())
        },
{
    let sound_type = map_key_to_sound(key);
    bridge.send((keypress, sound_type))
}

} // verus!
