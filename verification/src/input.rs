//! The bytes that a key sends to the terminal's process, after the
//! conventions of xterm.

use vstd::prelude::*;
use vstd::string::*;

verus! {

/// The bytes of a named key, if `ch` is one: Return, Backspace, Tab, Escape,
/// Delete, the arrows, Home, End, Page Up, Page Down, Insert and Space.
pub open spec fn special_key(ch: char) -> Option<Seq<u8>> {
    if ch == '\u{000a}' {
        Some(seq![13u8])
    } else if ch == '\u{0008}' {
        Some(seq![127u8])
    } else if ch == '\u{0009}' {
        Some(seq![9u8])
    } else if ch == '\u{001b}' {
        Some(seq![27u8])
    } else if ch == '\u{007f}' {
        Some(seq![27u8, 91u8, 51u8, 126u8])
    } else if ch == '\u{F700}' {
        Some(seq![27u8, 91u8, 65u8])
    } else if ch == '\u{F701}' {
        Some(seq![27u8, 91u8, 66u8])
    } else if ch == '\u{F702}' {
        Some(seq![27u8, 91u8, 68u8])
    } else if ch == '\u{F703}' {
        Some(seq![27u8, 91u8, 67u8])
    } else if ch == '\u{F729}' {
        Some(seq![27u8, 91u8, 72u8])
    } else if ch == '\u{F72B}' {
        Some(seq![27u8, 91u8, 70u8])
    } else if ch == '\u{F72C}' {
        Some(seq![27u8, 91u8, 53u8, 126u8])
    } else if ch == '\u{F72D}' {
        Some(seq![27u8, 91u8, 54u8, 126u8])
    } else if ch == '\u{F727}' {
        Some(seq![27u8, 91u8, 50u8, 126u8])
    } else if ch == '\u{0020}' {
        Some(seq![32u8])
    } else {
        None
    }
}

/// An ASCII letter.
pub open spec fn ascii_letter(ch: char) -> bool {
    ('a' <= ch && ch <= 'z') || ('A' <= ch && ch <= 'Z')
}

/// The control character of a letter: 1 for `a` or `A`, up to 26.
pub open spec fn control_code(ch: char) -> u8 {
    if 'a' <= ch && ch <= 'z' {
        (ch as int - 'a' as int + 1) as u8
    } else {
        (ch as int - 'A' as int + 1) as u8
    }
}

/// The bytes of a key press: those of a named key; the control character for
/// a letter with Ctrl; else the text that the key produced.
pub open spec fn key_bytes(ch: char, ctrl: bool, text: Seq<u8>) -> Seq<u8> {
    match special_key(ch) {
        Some(bytes) => bytes,
        None => if ctrl && ascii_letter(ch) {
            seq![control_code(ch)]
        } else {
            text
        },
    }
}

fn bytes_of(a: &[u8]) -> (v: Vec<u8>)
    ensures
        v@ == a@,
{
    vstd::slice::slice_to_vec(a)
}

/// The bytes to send for a key press.
pub fn slint_key_to_bytes(ch: char, ctrl: bool, text: &str) -> (r: Option<Vec<u8>>)
    ensures
        r is Some,
        r->Some_0@ == key_bytes(ch, ctrl, text.spec_bytes()),
{
    let code = ch as u32;
    let mut out: Vec<u8> = Vec::new();
    if code == 0x0a {
        out.push(13);
    } else if code == 0x08 {
        out.push(127);
    } else if code == 0x09 {
        out.push(9);
    } else if code == 0x1b {
        out.push(27);
    } else if code == 0x7f {
        out.push(27);
        out.push(91);
        out.push(51);
        out.push(126);
    } else if code == 0xF700 {
        out.push(27);
        out.push(91);
        out.push(65);
    } else if code == 0xF701 {
        out.push(27);
        out.push(91);
        out.push(66);
    } else if code == 0xF702 {
        out.push(27);
        out.push(91);
        out.push(68);
    } else if code == 0xF703 {
        out.push(27);
        out.push(91);
        out.push(67);
    } else if code == 0xF729 {
        out.push(27);
        out.push(91);
        out.push(72);
    } else if code == 0xF72B {
        out.push(27);
        out.push(91);
        out.push(70);
    } else if code == 0xF72C {
        out.push(27);
        out.push(91);
        out.push(53);
        out.push(126);
    } else if code == 0xF72D {
        out.push(27);
        out.push(91);
        out.push(54);
        out.push(126);
    } else if code == 0xF727 {
        out.push(27);
        out.push(91);
        out.push(50);
        out.push(126);
    } else if code == 0x20 {
        out.push(32);
    } else if ctrl && ((code >= 97 && code <= 122) || (code >= 65 && code <= 90)) {
        let lower: u32 = if code >= 97 {
            code
        } else {
            code + 32
        };
        out.push((lower - 97 + 1) as u8);
    } else {
        out = bytes_of(text.as_bytes());
    }
    assert(out@ =~= key_bytes(ch, ctrl, text.spec_bytes()));
    Some(out)
}

} // verus!
