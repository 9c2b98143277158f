//! The decisions of the keyboard input helpers, over the key events in the
//! order they arrive: which event a blocking read waits for.
use vstd::prelude::*;

verus! {

/// What the input helpers read of a key event: whether the key was pressed
/// (not released), and the ASCII character the key stands for, if any.
#[derive(Clone, Copy, Debug, PartialEq, Eq, Structural)]
pub struct KeyEvent {
    pub pressed: bool,
    pub ascii: Option<char>,
}

impl KeyEvent {
    /// Whether the key was pressed.
    pub fn pressed(&self) -> (r: bool)
        ensures
            r == self.pressed,
    {
        self.pressed
    }

    /// The ASCII character of the key, if it has one.
    pub fn ascii(&self) -> (r: Option<char>)
        ensures
            r == self.ascii,
    {
        self.ascii
    }
}

/// The event at `i` is a key press, and none before it is.
pub open spec fn is_first_press(events: Seq<KeyEvent>, i: int) -> bool {
    &&& 0 <= i < events.len()
    &&& events[i].pressed
    &&& forall|j: int| 0 <= j < i ==> !(#[trigger] events[j]).pressed
}

/// The event at `i` is a key press with an ASCII character, and none before
/// it is.
pub open spec fn is_first_char(events: Seq<KeyEvent>, i: int) -> bool {
    &&& 0 <= i < events.len()
    &&& events[i].pressed && events[i].ascii is Some
    &&& forall|j: int| 0 <= j < i ==> !((#[trigger] events[j]).pressed && events[j].ascii is Some)
}

/// The key press that waiting for a key press returns: the first pressed
/// event; releases before it are skipped. `None` when no event is a press
/// (the wait goes on).
pub fn poll_key_press(events: &Vec<KeyEvent>) -> (r: Option<usize>)
    ensures
        match r {
            Some(i) => is_first_press(events@, i as int),
            None => forall|j: int| 0 <= j < events@.len() ==> !(#[trigger] events@[j]).pressed,
        },
{
    let mut i: usize = 0;
    while i < events.len()
        invariant
            i <= events@.len(),
            forall|j: int| 0 <= j < i ==> !(#[trigger] events@[j]).pressed,
        decreases events@.len() - i,
    {
        if events[i].pressed() {
            return Some(i);
        }
        i = i + 1;
    }
    None
}

/// The character that waiting for a character returns: that of the first
/// key press with an ASCII character, and where it stands; everything before
/// it is skipped. `None` when there is none (the wait goes on).
pub fn poll_char(events: &Vec<KeyEvent>) -> (r: Option<(usize, char)>)
    ensures
        match r {
            Some((i, c)) => is_first_char(events@, i as int) && events@[i as int].ascii == Some(c),
            None => forall|j: int| 0 <= j < events@.len() ==> !((#[trigger] events@[j]).pressed && events@[j].ascii is Some),
        },
{
    let mut i: usize = 0;
    while i < events.len()
        invariant
            i <= events@.len(),
            forall|j: int| 0 <= j < i ==> !((#[trigger] events@[j]).pressed && events@[j].ascii is Some),
        decreases events@.len() - i,
    {
        let e = events[i];
        if e.pressed() {
            match e.ascii() {
                Some(c) => {
                    return Some((i, c));
                },
                None => {},
            }
        }
        i = i + 1;
    }
    None
}

/// Where waiting for the 'Return' key ends among the characters read: at the
/// first carriage return. `None` when there is none (the wait goes on).
pub fn wait_for_return(chars: &Vec<char>) -> (r: Option<usize>)
    ensures
        match r {
            Some(i) => i < chars@.len() && chars@[i as int] == '\r' && forall|j: int| 0 <= j < i ==> chars@[j] != '\r',
            None => forall|j: int| 0 <= j < chars@.len() ==> chars@[j] != '\r',
        },
{
    let mut i: usize = 0;
    while i < chars.len()
        invariant
            i <= chars@.len(),
            forall|j: int| 0 <= j < i ==> chars@[j] != '\r',
        decreases chars@.len() - i,
    {
        if chars[i] == '\r' {
            return Some(i);
        }
        i = i + 1;
    }
    None
}

} // verus!
