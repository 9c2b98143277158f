//! In-game keys of the Doom frontend and the codes Doom expects for them.
use vstd::prelude::*;

verus! {

/// In-game keys.
#[derive(Clone, Copy, Debug, PartialEq, Eq, Structural)]
pub enum DoomKey {
    RightArrow,
    LeftArrow,
    UpArrow,
    DownArrow,
    StrafeL,
    StrafeR,
    Use,
    Fire,
    Escape,
    Enter,
    Tab,
    F1,
    F2,
    F3,
    F4,
    F5,
    F6,
    F7,
    F8,
    F9,
    F10,
    F11,
    F12,
    Backspace,
}

/// The keyboard scancodes that the frontend looks at; `Other` stands for every
/// key that has no in-game meaning.
#[derive(Clone, Copy, Debug, PartialEq, Eq, Structural)]
pub enum Scancode {
    Right,
    Left,
    Up,
    Down,
    A,
    D,
    E,
    Space,
    Escape,
    Enter,
    Tab,
    F1,
    F2,
    F3,
    F4,
    F5,
    F6,
    F7,
    F8,
    F9,
    F10,
    F11,
    F12,
    Backspace,
    Other,
}

/// The in-game key a scancode stands for, if any.
pub open spec fn key_of_scancode(value: Scancode) -> Option<DoomKey> {
    match value {
        Scancode::Right => Some(DoomKey::RightArrow),
        Scancode::Left => Some(DoomKey::LeftArrow),
        Scancode::Up => Some(DoomKey::UpArrow),
        Scancode::Down => Some(DoomKey::DownArrow),
        Scancode::A => Some(DoomKey::StrafeL),
        Scancode::D => Some(DoomKey::StrafeR),
        Scancode::E => Some(DoomKey::Use),
        Scancode::Space => Some(DoomKey::Fire),
        Scancode::Escape => Some(DoomKey::Escape),
        Scancode::Enter => Some(DoomKey::Enter),
        Scancode::Tab => Some(DoomKey::Tab),
        Scancode::F1 => Some(DoomKey::F1),
        Scancode::F2 => Some(DoomKey::F2),
        Scancode::F3 => Some(DoomKey::F3),
        Scancode::F4 => Some(DoomKey::F4),
        Scancode::F5 => Some(DoomKey::F5),
        Scancode::F6 => Some(DoomKey::F6),
        Scancode::F7 => Some(DoomKey::F7),
        Scancode::F8 => Some(DoomKey::F8),
        Scancode::F9 => Some(DoomKey::F9),
        Scancode::F10 => Some(DoomKey::F10),
        Scancode::F11 => Some(DoomKey::F11),
        Scancode::F12 => Some(DoomKey::F12),
        Scancode::Backspace => Some(DoomKey::Backspace),
        Scancode::Other => None,
    }
}

impl DoomKey {
    /// Convert a keyboard scancode to an in-game doom key.
    pub fn try_from(value: Scancode) -> (r: Result<DoomKey, ()>)
        ensures
            match key_of_scancode(value) {
                Some(k) => r == Ok::<DoomKey, ()>(k),
                None => r == Err::<DoomKey, ()>(()),
            },
    {
        match value {
            Scancode::Right => Ok(DoomKey::RightArrow),
            Scancode::Left => Ok(DoomKey::LeftArrow),
            Scancode::Up => Ok(DoomKey::UpArrow),
            Scancode::Down => Ok(DoomKey::DownArrow),
            Scancode::A => Ok(DoomKey::StrafeL),
            Scancode::D => Ok(DoomKey::StrafeR),
            Scancode::E => Ok(DoomKey::Use),
            Scancode::Space => Ok(DoomKey::Fire),
            Scancode::Escape => Ok(DoomKey::Escape),
            Scancode::Enter => Ok(DoomKey::Enter),
            Scancode::Tab => Ok(DoomKey::Tab),
            Scancode::F1 => Ok(DoomKey::F1),
            Scancode::F2 => Ok(DoomKey::F2),
            Scancode::F3 => Ok(DoomKey::F3),
            Scancode::F4 => Ok(DoomKey::F4),
            Scancode::F5 => Ok(DoomKey::F5),
            Scancode::F6 => Ok(DoomKey::F6),
            Scancode::F7 => Ok(DoomKey::F7),
            Scancode::F8 => Ok(DoomKey::F8),
            Scancode::F9 => Ok(DoomKey::F9),
            Scancode::F10 => Ok(DoomKey::F10),
            Scancode::F11 => Ok(DoomKey::F11),
            Scancode::F12 => Ok(DoomKey::F12),
            Scancode::Backspace => Ok(DoomKey::Backspace),
            Scancode::Other => Err(()),
        }
    }

    /// The key code Doom expects for the key.
    pub open spec fn spec_code(self) -> u8 {
        match self {
            DoomKey::RightArrow => 174,
            DoomKey::LeftArrow => 172,
            DoomKey::UpArrow => 173,
            DoomKey::DownArrow => 175,
            DoomKey::StrafeL => 160,
            DoomKey::StrafeR => 161,
            DoomKey::Use => 162,
            DoomKey::Fire => 163,
            DoomKey::Escape => 27,
            DoomKey::Enter => 13,
            DoomKey::Tab => 9,
            DoomKey::F1 => 187,
            DoomKey::F2 => 188,
            DoomKey::F3 => 189,
            DoomKey::F4 => 190,
            DoomKey::F5 => 191,
            DoomKey::F6 => 192,
            DoomKey::F7 => 193,
            DoomKey::F8 => 194,
            DoomKey::F9 => 195,
            DoomKey::F10 => 196,
            DoomKey::F11 => 215,
            DoomKey::F12 => 216,
            DoomKey::Backspace => 127,
        }
    }

    /// The key code Doom expects for the key.
    pub fn code(&self) -> (r: u8)
        ensures
            r == self.spec_code(),
    {
        match self {
            DoomKey::RightArrow => 174,
            DoomKey::LeftArrow => 172,
            DoomKey::UpArrow => 173,
            DoomKey::DownArrow => 175,
            DoomKey::StrafeL => 160,
            DoomKey::StrafeR => 161,
            DoomKey::Use => 162,
            DoomKey::Fire => 163,
            DoomKey::Escape => 27,
            DoomKey::Enter => 13,
            DoomKey::Tab => 9,
            DoomKey::F1 => 187,
            DoomKey::F2 => 188,
            DoomKey::F3 => 189,
            DoomKey::F4 => 190,
            DoomKey::F5 => 191,
            DoomKey::F6 => 192,
            DoomKey::F7 => 193,
            DoomKey::F8 => 194,
            DoomKey::F9 => 195,
            DoomKey::F10 => 196,
            DoomKey::F11 => 215,
            DoomKey::F12 => 216,
            DoomKey::Backspace => 127,
        }
    }
}

/// The key codes are the ones Doom expects: the arrow keys 0xac to 0xaf, the
/// strafe, use and fire keys 0xa0 to 0xa3, the function keys 0x80 plus their
/// keyboard scancodes, and ASCII for Escape, Enter, Tab and Backspace; every
/// scancode with a key gets that key's code.
pub proof fn lemma_doom_key_values()
    ensures
        DoomKey::RightArrow.spec_code() == 0xae,
        DoomKey::LeftArrow.spec_code() == 0xac,
        DoomKey::UpArrow.spec_code() == 0xad,
        DoomKey::DownArrow.spec_code() == 0xaf,
        DoomKey::StrafeL.spec_code() == 0xa0,
        DoomKey::StrafeR.spec_code() == 0xa1,
        DoomKey::Use.spec_code() == 0xa2,
        DoomKey::Fire.spec_code() == 0xa3,
        DoomKey::Escape.spec_code() == 27,
        DoomKey::Enter.spec_code() == 13,
        DoomKey::Tab.spec_code() == 9,
        DoomKey::F1.spec_code() == 0x80 + 0x3b,
        DoomKey::F2.spec_code() == 0x80 + 0x3c,
        DoomKey::F3.spec_code() == 0x80 + 0x3d,
        DoomKey::F4.spec_code() == 0x80 + 0x3e,
        DoomKey::F5.spec_code() == 0x80 + 0x3f,
        DoomKey::F6.spec_code() == 0x80 + 0x40,
        DoomKey::F7.spec_code() == 0x80 + 0x41,
        DoomKey::F8.spec_code() == 0x80 + 0x42,
        DoomKey::F9.spec_code() == 0x80 + 0x43,
        DoomKey::F10.spec_code() == 0x80 + 0x44,
        DoomKey::F11.spec_code() == 0x80 + 0x57,
        DoomKey::F12.spec_code() == 0x80 + 0x58,
        DoomKey::Backspace.spec_code() == 0x7f,
        key_of_scancode(Scancode::Up) == Some(DoomKey::UpArrow),
        key_of_scancode(Scancode::Down) == Some(DoomKey::DownArrow),
        key_of_scancode(Scancode::Left) == Some(DoomKey::LeftArrow),
        key_of_scancode(Scancode::Right) == Some(DoomKey::RightArrow),
        key_of_scancode(Scancode::Space) == Some(DoomKey::Fire),
        key_of_scancode(Scancode::E) == Some(DoomKey::Use),
        key_of_scancode(Scancode::A) == Some(DoomKey::StrafeL),
        key_of_scancode(Scancode::D) == Some(DoomKey::StrafeR),
{
}

/// Different keys have different codes.
pub proof fn lemma_codes_distinct(a: DoomKey, b: DoomKey)
    ensures
        a != b ==> a.spec_code() != b.spec_code(),
{
}

} // verus!
