//! What a key press means in the popup: list navigation, the shortcuts of
//! the focused entry, and typing into the search.

use vstd::prelude::*;

use crate::text::{chars_of, is_control, is_ctrl};

verus! {

/// Something the popup does in answer to a key.
#[derive(Clone, Debug, PartialEq, Eq)]
pub enum Action {
    Up,
    Down,
    Confirm,
    Dismiss,
    Delete,
    TogglePin,
    ShowDetails,
    FocusSearch,
    Append(String),
    Backspace,
}

/// The named keys the popup reacts to; every other one is `Other`.
#[derive(Clone, Copy, Debug, PartialEq, Eq, Structural)]
pub enum Named {
    ArrowDown,
    ArrowUp,
    Enter,
    Escape,
    Backspace,
    Other,
}

/// A key as the toolkit reports it: a named key, the character a key
/// stands for, or something else.
#[derive(Clone, Debug, PartialEq, Eq)]
pub enum Key {
    Named(Named),
    Character(String),
    Unidentified,
}

/// The modifiers held during a press.
#[derive(Clone, Copy, Debug, Default, PartialEq, Eq, Structural)]
pub struct Modifiers {
    pub shift: bool,
    pub ctrl: bool,
    pub alt: bool,
    pub logo: bool,
}

/// No modifier, or Shift alone.
pub open spec fn plain_or_shifted(m: Modifiers) -> bool {
    !m.ctrl && !m.alt && !m.logo
}

/// Whether `text` is something typed: not empty, and no control character.
pub open spec fn is_typing(text: Seq<char>) -> bool {
    text.len() > 0 && forall|i: int| 0 <= i < text.len() ==> !is_ctrl(#[trigger] text[i])
}

/// What a key press comes to: nothing, an action, or text to append.
pub enum Intent {
    Nothing,
    Act(Action),
    Type(Seq<char>),
}

/// The entry shortcuts reached with Control.
pub open spec fn shortcut_of(c: Seq<char>) -> Intent {
    if c == "d"@ || c == "D"@ {
        Intent::Act(Action::Delete)
    } else if c == "p"@ || c == "P"@ {
        Intent::Act(Action::TogglePin)
    } else if c == "i"@ || c == "I"@ {
        Intent::Act(Action::ShowDetails)
    } else if c == "f"@ || c == "F"@ {
        Intent::Act(Action::FocusSearch)
    } else {
        Intent::Nothing
    }
}

/// What a press of `key` with `m` held means, with `text` the text it
/// produces and `consumed` telling whether a widget already handled it.
/// Control with a letter drives the focused entry; the arrows, Enter and
/// Escape always navigate; the rest is typing unless a widget took it.
pub open spec fn intent_of(key: Key, m: Modifiers, text: Option<Seq<char>>, consumed: bool) -> Intent {
    if m == (Modifiers { shift: false, ctrl: true, alt: false, logo: false }) {
        match key {
            Key::Character(c) => shortcut_of(c@),
            _ => Intent::Nothing,
        }
    } else if !plain_or_shifted(m) {
        Intent::Nothing
    } else if key == Key::Named(Named::ArrowDown) {
        Intent::Act(Action::Down)
    } else if key == Key::Named(Named::ArrowUp) {
        Intent::Act(Action::Up)
    } else if key == Key::Named(Named::Enter) {
        Intent::Act(Action::Confirm)
    } else if key == Key::Named(Named::Escape) {
        Intent::Act(Action::Dismiss)
    } else if consumed {
        Intent::Nothing
    } else if key == Key::Named(Named::Backspace) {
        Intent::Act(Action::Backspace)
    } else {
        match text {
            Some(t) => if is_typing(t) {
                Intent::Type(t)
            } else {
                Intent::Nothing
            },
            None => Intent::Nothing,
        }
    }
}

/// Whether the key stands for `want`.
fn is_named(key: &Key, want: Named) -> (r: bool)
    ensures
        r == (*key == Key::Named(want)),
{
    match key {
        Key::Named(named) => *named == want,
        _ => false,
    }
}

/// Whether `c` is `lower` or `upper`.
fn spells(c: &str, lower: &str, upper: &str) -> (r: bool)
    ensures
        r == (c@ == lower@ || c@ == upper@),
{
    let chars = chars_of(c);
    crate::text::equal(chars.as_slice(), chars_of(lower).as_slice()) || crate::text::equal(
        chars.as_slice(),
        chars_of(upper).as_slice(),
    )
}

/// The text a key typed, where it typed any that is worth keeping.
pub fn typed(text: Option<&str>) -> (r: Option<String>)
    ensures
        match text {
            Some(t) => if is_typing(t@) {
                r matches Some(s) && s@ == t@
            } else {
                r is None
            },
            None => r is None,
        },
{
    let given = match text {
        Some(t) => t,
        None => return None,
    };
    let chars = chars_of(given);
    if chars.len() == 0 {
        return None;
    }
    let mut i: usize = 0;
    while i < chars.len()
        invariant
            chars@ == given@,
            text == Some(given),
            i <= chars.len(),
            forall|j: int| 0 <= j < i ==> !is_ctrl(#[trigger] chars@[j]),
        decreases chars.len() - i,
    {
        if is_control(chars[i]) {
            assert(is_ctrl(given@[i as int]));
            return None;
        }
        i += 1;
    }
    Some(crate::text::string_of(chars.as_slice()))
}

/// What a key press means; see `intent_of`.
pub fn interpret(key: &Key, modifiers: Modifiers, text: Option<&str>, consumed: bool) -> (r: Option<Action>)
    ensures
        match intent_of(
            *key,
            modifiers,
            match text {
                Some(t) => Some(t@),
                None => None,
            },
            consumed,
        ) {
            Intent::Nothing => r is None,
            Intent::Act(action) => r == Some(action),
            Intent::Type(t) => r matches Some(Action::Append(s)) && s@ == t,
        },
{
    if modifiers == (Modifiers { shift: false, ctrl: true, alt: false, logo: false }) {
        let Key::Character(c) = key else {
            return None;
        };
        return if spells(c.as_str(), "d", "D") {
            Some(Action::Delete)
        } else if spells(c.as_str(), "p", "P") {
            Some(Action::TogglePin)
        } else if spells(c.as_str(), "i", "I") {
            Some(Action::ShowDetails)
        } else if spells(c.as_str(), "f", "F") {
            Some(Action::FocusSearch)
        } else {
            None
        };
    }
    if modifiers.ctrl || modifiers.alt || modifiers.logo {
        return None;
    }
    if is_named(key, Named::ArrowDown) {
        return Some(Action::Down);
    }
    if is_named(key, Named::ArrowUp) {
        return Some(Action::Up);
    }
    if is_named(key, Named::Enter) {
        return Some(Action::Confirm);
    }
    if is_named(key, Named::Escape) {
        return Some(Action::Dismiss);
    }
    if consumed {
        return None;
    }
    if is_named(key, Named::Backspace) {
        return Some(Action::Backspace);
    }
    match typed(text) {
        Some(s) => Some(Action::Append(s)),
        None => None,
    }
}

/// The arrows, Enter and Escape navigate whatever a widget did with the
/// press, as long as Control, Alt and the logo key are not held.
pub proof fn navigation_survives_consumption(key: Key, m: Modifiers, text: Option<Seq<char>>)
    requires
        plain_or_shifted(m),
        key == Key::Named(Named::ArrowDown) || key == Key::Named(Named::ArrowUp) || key
            == Key::Named(Named::Enter) || key == Key::Named(Named::Escape),
    ensures
        intent_of(key, m, text, true) == intent_of(key, m, text, false),
        !(intent_of(key, m, text, true) is Nothing),
{
}

/// What a widget consumed is never typed again into the search.
pub proof fn consumed_text_is_not_typed(key: Key, m: Modifiers, text: Option<Seq<char>>)
    ensures
        !(intent_of(key, m, text, true) is Type),
{
}

} // verus!
