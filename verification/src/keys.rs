//! Key events, as far as the viewer tells them apart.

use vstd::prelude::*;

verus! {

/// A key. Keys that the viewer has no use for are all `Other`.
#[derive(Debug, Clone, Copy, PartialEq, Eq, Structural)]
pub enum KeyCode {
    Char(char),
    Enter,
    Esc,
    Backspace,
    Left,
    Right,
    Up,
    Down,
    Home,
    End,
    PageUp,
    PageDown,
    Other,
}

/// The modifiers that were held. Shift and the like never matter: a shifted
/// key arrives as another character.
#[derive(Debug, Clone, Copy, PartialEq, Eq, Structural)]
pub struct KeyModifiers {
    pub control: bool,
    pub alt: bool,
}

impl KeyModifiers {
    /// Control without Alt. Both together are how Windows reports AltGr, which
    /// produces text (e.g. '@' on German layouts), not a command.
    pub open spec fn is_command(self) -> bool {
        self.control && !self.alt
    }

    /// Neither or both of Control and Alt: the key still produces text.
    pub open spec fn is_text(self) -> bool {
        self.control == self.alt
    }
}

#[derive(Debug, Clone, Copy, PartialEq, Eq, Structural)]
pub struct KeyEvent {
    pub code: KeyCode,
    pub modifiers: KeyModifiers,
}

impl KeyEvent {
    /// A key with modifiers.
    pub fn new(code: KeyCode, modifiers: KeyModifiers) -> (key: KeyEvent)
        ensures
            key == (KeyEvent { code, modifiers }),
    {
        KeyEvent { code, modifiers }
    }
}

impl From<KeyCode> for KeyEvent {
    /// A key without modifiers.
    fn from(code: KeyCode) -> (key: KeyEvent) {
        KeyEvent { code, modifiers: KeyModifiers { control: false, alt: false } }
    }
}

impl vstd::std_specs::convert::FromSpecImpl<KeyCode> for KeyEvent {
    open spec fn obeys_from_spec() -> bool {
        true
    }

    open spec fn from_spec(code: KeyCode) -> KeyEvent {
        KeyEvent { code, modifiers: KeyModifiers { control: false, alt: false } }
    }
}

/// True when the modifier set still produces a text character: nothing,
/// Shift, or Ctrl+Alt together (AltGr on Windows). Bare Ctrl or bare Alt
/// means a command chord, not input.
pub fn is_text_input(mods: KeyModifiers) -> (yes: bool)
    ensures
        yes == mods.is_text(),
{
    mods.control == mods.alt
}

/// A key types text with neither Control nor Alt, or with both (AltGr); Control
/// alone makes a command of it, and Alt alone makes it neither.
pub proof fn law_modifiers(control: bool, alt: bool)
    ensures
        ({
            let held = KeyModifiers { control, alt };
            &&& !control && !alt ==> held.is_text() && !held.is_command()
            &&& control && alt ==> held.is_text() && !held.is_command()
            &&& control && !alt ==> !held.is_text() && held.is_command()
            &&& !control && alt ==> !held.is_text() && !held.is_command()
        }),
{
}

/// A key made from its code alone is that key with nothing held.
pub proof fn law_bare_key(code: KeyCode)
    ensures
        ({
            let key = <KeyEvent as vstd::std_specs::convert::FromSpec<KeyCode>>::from_spec(code);
            &&& key.code == code
            &&& !key.modifiers.control
            &&& !key.modifiers.alt
        }),
{
}

} // verus!
