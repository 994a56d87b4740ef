use vstd::prelude::*;

use crate::input::Key;
use crate::text::{decimal, push_decimal};

verus! {

/// How `Debug` writes a character: quoted, with `char::escape_debug` applied.
pub uninterp spec fn char_debug_text(c: char) -> Seq<char>;

/// Whether the character is an ASCII letter or digit.
pub open spec fn ascii_alphanumeric(c: char) -> bool {
    ('a' <= c <= 'z') || ('A' <= c <= 'Z') || ('0' <= c <= '9')
}

/// The character as `Debug` writes it (`format!("{:?}", c)`): the text
/// depends on the character alone; an ASCII letter or digit comes out between
/// single quotes, unescaped. How other characters are escaped is left to the
/// name.
#[verifier::external_body]
fn char_debug(c: char) -> (s: String)
    ensures
        s@ == char_debug_text(c),
        ascii_alphanumeric(c) ==> s@ == seq!['\'', c, '\''],
{
    format!("{:?}", c)
}

/// The string holding just the character (`ToString` on `char`).
#[verifier::external_body]
fn char_string(c: char) -> (s: String)
    ensures
        s@ == seq![c],
{
    c.to_string()
}

/// How a key is described to the player: backspace as "Enter", a character as
/// itself, and any other key as the name of its variant.
pub open spec fn key_description(key: Key) -> Seq<char> {
    match key {
        Key::Backspace => "Enter"@,
        Key::Char(c) => seq![c],
        Key::Left => "Left"@,
        Key::ShiftLeft => "ShiftLeft"@,
        Key::AltLeft => "AltLeft"@,
        Key::CtrlLeft => "CtrlLeft"@,
        Key::Right => "Right"@,
        Key::ShiftRight => "ShiftRight"@,
        Key::AltRight => "AltRight"@,
        Key::CtrlRight => "CtrlRight"@,
        Key::Up => "Up"@,
        Key::ShiftUp => "ShiftUp"@,
        Key::AltUp => "AltUp"@,
        Key::CtrlUp => "CtrlUp"@,
        Key::Down => "Down"@,
        Key::ShiftDown => "ShiftDown"@,
        Key::AltDown => "AltDown"@,
        Key::CtrlDown => "CtrlDown"@,
        Key::Home => "Home"@,
        Key::CtrlHome => "CtrlHome"@,
        Key::End => "End"@,
        Key::CtrlEnd => "CtrlEnd"@,
        Key::PageUp => "PageUp"@,
        Key::PageDown => "PageDown"@,
        Key::BackTab => "BackTab"@,
        Key::Delete => "Delete"@,
        Key::Insert => "Insert"@,
        Key::F(n) => "F("@ + decimal(n as nat) + ")"@,
        Key::Alt(c) => "Alt("@ + char_debug_text(c) + ")"@,
        Key::Ctrl(c) => "Ctrl("@ + char_debug_text(c) + ")"@,
        Key::Null => "Null"@,
        Key::Esc => "Esc"@,
    }
}

fn named(name: &str) -> (s: String)
    ensures
        s@ == name@,
{
    String::from_str(name)
}

fn wrapped(prefix: &str, inner: String) -> (s: String)
    ensures
        s@ == prefix@ + inner@ + ")"@,
{
    proof {
        reveal_strlit(")");
    }
    let mut s = String::from_str(prefix);
    s.append(inner.as_str());
    s.append(")");
    s
}

/// Describes a key in a way fit for the player to read.
pub fn describe_key(key: Key) -> (s: String)
    ensures
        s@ == key_description(key),
{
    match key {
        Key::Backspace => named("Enter"),
        Key::Char(c) => char_string(c),
        Key::Left => named("Left"),
        Key::ShiftLeft => named("ShiftLeft"),
        Key::AltLeft => named("AltLeft"),
        Key::CtrlLeft => named("CtrlLeft"),
        Key::Right => named("Right"),
        Key::ShiftRight => named("ShiftRight"),
        Key::AltRight => named("AltRight"),
        Key::CtrlRight => named("CtrlRight"),
        Key::Up => named("Up"),
        Key::ShiftUp => named("ShiftUp"),
        Key::AltUp => named("AltUp"),
        Key::CtrlUp => named("CtrlUp"),
        Key::Down => named("Down"),
        Key::ShiftDown => named("ShiftDown"),
        Key::AltDown => named("AltDown"),
        Key::CtrlDown => named("CtrlDown"),
        Key::Home => named("Home"),
        Key::CtrlHome => named("CtrlHome"),
        Key::End => named("End"),
        Key::CtrlEnd => named("CtrlEnd"),
        Key::PageUp => named("PageUp"),
        Key::PageDown => named("PageDown"),
        Key::BackTab => named("BackTab"),
        Key::Delete => named("Delete"),
        Key::Insert => named("Insert"),
        Key::F(n) => {
            let mut digits = String::new();
            push_decimal(&mut digits, n as u64);
            wrapped("F(", digits)
        },
        Key::Alt(c) => wrapped("Alt(", char_debug(c)),
        Key::Ctrl(c) => wrapped("Ctrl(", char_debug(c)),
        Key::Null => named("Null"),
        Key::Esc => named("Esc"),
    }
}

} // verus!
