//! The vocabulary shared by every component: themes, key states, sound
//! categories and the clips that the bank stores.

use vstd::prelude::*;

verus! {

/// A set of recorded sounds, stored under a directory of its own.
#[derive(Clone, Copy, Debug, PartialEq, Eq, Structural)]
pub enum Theme {
    CherryMXBrown,
}

impl Default for Theme {
    fn default() -> (theme: Theme)
        ensures
            theme == Theme::CherryMXBrown,
    {
        Theme::CherryMXBrown
    }
}

/// The class of key that a sound belongs to.
#[derive(Clone, Copy, Debug, PartialEq, Eq, Structural)]
pub enum SoundType {
    Backspace,
    Enter,
    Generic,
    Space,
}

/// Whether a key went down or came back up.
#[derive(Clone, Copy, Debug, PartialEq, Eq, Structural)]
pub enum KeyPressType {
    Press,
    Release,
}

/// What the keyboard reports and the player consumes: a key state paired
/// with the category of the key.
pub type KeyEvent = (KeyPressType, SoundType);

/// The mathematical content of a clip: its category and its encoded bytes.
pub struct SoundClip {
    pub sound_type: SoundType,
    pub data: Seq<u8>,
}

/// One loaded asset: the encoded audio of a file and the category it serves.
#[derive(Clone, Debug, PartialEq)]
pub struct KeyboardButtonSound {
    pub sound_type: SoundType,
    pub data: Vec<u8>,
}

impl View for KeyboardButtonSound {
    type V = SoundClip;

    open spec fn view(&self) -> SoundClip {
        SoundClip { sound_type: self.sound_type, data: self.data@ }
    }
}

impl KeyboardButtonSound {
    /// Pairs encoded audio with the category it is played for.
    pub fn new(sound_type: SoundType, data: Vec<u8>) -> (sound: Self)
        ensures
            sound@ == (SoundClip { sound_type, data: data@ }),
            sound.sound_type == sound_type,
            sound.data == data,
    {
        Self { sound_type, data }
    }
}

/// The views of a sequence of clips, in the same order.
pub open spec fn clip_views(sounds: Seq<KeyboardButtonSound>) -> Seq<SoundClip> {
    Seq::new(sounds.len(), |i: int| sounds[i]@)
}

/// The bytes of the first clip of the given category, if there is one.
pub open spec fn first_clip(clips: Seq<SoundClip>, sound_type: SoundType) -> Option<Seq<u8>>
    decreases clips.len(),
{
    if clips.len() == 0 {
        None
    } else if clips[0].sound_type == sound_type {
        Some(clips[0].data)
    } else {
        first_clip(clips.drop_first(), sound_type)
    }
}

} // verus!
