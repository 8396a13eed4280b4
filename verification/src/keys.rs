//! The keyboard mapping: alphabet letters tied to physical keys, the
//! QWERTY labels of those keys, and the per-character key hints the drill
//! shows under each target character.

use crate::text::str_eq;
use vstd::prelude::*;

verus! {

/// One alphabet letter of the keymap resource: its glyph, display name and
/// pronunciation, an optional audio file name, the finger that types it,
/// the physical key code, and whether it is the shifted variant of its key.
pub struct Letter {
    pub letter: String,
    pub name: String,
    pub pron: String,
    pub audio: Option<String>,
    pub finger: String,
    pub key_code: String,
    pub shifted: bool,
}

impl Clone for Letter {
    fn clone(&self) -> (r: Self)
        ensures
            r == *self,
    {
        Letter {
            letter: self.letter.clone(),
            name: self.name.clone(),
            pron: self.pron.clone(),
            audio: match &self.audio {
                Some(s) => Some(s.clone()),
                None => None,
            },
            finger: self.finger.clone(),
            key_code: self.key_code.clone(),
            shifted: self.shifted,
        }
    }
}

/// The QWERTY label of a physical key code; unknown codes label as the
/// empty string.
pub open spec fn qwerty_label_spec(code: Seq<char>) -> Seq<char> {
    if code == "KeyQ"@ {
        "Q"@
    } else if code == "KeyW"@ {
        "W"@
    } else if code == "KeyE"@ {
        "E"@
    } else if code == "KeyR"@ {
        "R"@
    } else if code == "KeyT"@ {
        "T"@
    } else if code == "KeyY"@ {
        "Y"@
    } else if code == "KeyU"@ {
        "U"@
    } else if code == "KeyI"@ {
        "I"@
    } else if code == "KeyO"@ {
        "O"@
    } else if code == "KeyP"@ {
        "P"@
    } else if code == "KeyA"@ {
        "A"@
    } else if code == "KeyS"@ {
        "S"@
    } else if code == "KeyD"@ {
        "D"@
    } else if code == "KeyF"@ {
        "F"@
    } else if code == "KeyG"@ {
        "G"@
    } else if code == "KeyH"@ {
        "H"@
    } else if code == "KeyJ"@ {
        "J"@
    } else if code == "KeyK"@ {
        "K"@
    } else if code == "KeyL"@ {
        "L"@
    } else if code == "KeyZ"@ {
        "Z"@
    } else if code == "KeyX"@ {
        "X"@
    } else if code == "KeyC"@ {
        "C"@
    } else if code == "KeyV"@ {
        "V"@
    } else if code == "KeyB"@ {
        "B"@
    } else if code == "KeyN"@ {
        "N"@
    } else if code == "KeyM"@ {
        "M"@
    } else if code == "KeyLShift"@ {
        "Shift"@
    } else if code == "KeyRShift"@ {
        "Shift"@
    } else {
        ""@
    }
}

/// The QWERTY label shown for a physical key code, exactly as
/// [`qwerty_label_spec`] maps it.
pub fn code_to_qwerty_label(code: &str) -> (r: &'static str)
    ensures
        r@ == qwerty_label_spec(code@),
{
    if str_eq(code, "KeyQ") {
        "Q"
    } else if str_eq(code, "KeyW") {
        "W"
    } else if str_eq(code, "KeyE") {
        "E"
    } else if str_eq(code, "KeyR") {
        "R"
    } else if str_eq(code, "KeyT") {
        "T"
    } else if str_eq(code, "KeyY") {
        "Y"
    } else if str_eq(code, "KeyU") {
        "U"
    } else if str_eq(code, "KeyI") {
        "I"
    } else if str_eq(code, "KeyO") {
        "O"
    } else if str_eq(code, "KeyP") {
        "P"
    } else if str_eq(code, "KeyA") {
        "A"
    } else if str_eq(code, "KeyS") {
        "S"
    } else if str_eq(code, "KeyD") {
        "D"
    } else if str_eq(code, "KeyF") {
        "F"
    } else if str_eq(code, "KeyG") {
        "G"
    } else if str_eq(code, "KeyH") {
        "H"
    } else if str_eq(code, "KeyJ") {
        "J"
    } else if str_eq(code, "KeyK") {
        "K"
    } else if str_eq(code, "KeyL") {
        "L"
    } else if str_eq(code, "KeyZ") {
        "Z"
    } else if str_eq(code, "KeyX") {
        "X"
    } else if str_eq(code, "KeyC") {
        "C"
    } else if str_eq(code, "KeyV") {
        "V"
    } else if str_eq(code, "KeyB") {
        "B"
    } else if str_eq(code, "KeyN") {
        "N"
    } else if str_eq(code, "KeyM") {
        "M"
    } else if str_eq(code, "KeyLShift") {
        "Shift"
    } else if str_eq(code, "KeyRShift") {
        "Shift"
    } else {
        ""
    }
}

/// Whether this letter supplies a key hint for the character `ch`: its
/// glyph starts with `ch` and its key has a QWERTY label.
pub open spec fn letter_maps(l: Letter, ch: char) -> bool {
    l.letter@.len() > 0 && l.letter@[0] == ch && qwerty_label_spec(l.key_code@).len() > 0
}

/// The key hint for character `ch`: whether shift is needed and the QWERTY
/// label, from the last letter in the keymap that supplies one (later
/// entries overwrite earlier ones, as a hint table built by insertion
/// would).
pub open spec fn hint_spec(letters: Seq<Letter>, ch: char) -> Option<(bool, Seq<char>)>
    decreases letters.len(),
{
    if letters.len() == 0 {
        None
    } else if letter_maps(letters.last(), ch) {
        Some((letters.last().shifted, qwerty_label_spec(letters.last().key_code@)))
    } else {
        hint_spec(letters.drop_last(), ch)
    }
}

/// Finds the key hint for one target character, exactly as [`hint_spec`]
/// describes it.
pub fn key_hint(letters: &Vec<Letter>, ch: char) -> (r: Option<(bool, String)>)
    ensures
        (r is Some) == (hint_spec(letters@, ch) is Some),
        r is Some ==> hint_spec(letters@, ch) == Some((r->Some_0.0, r->Some_0.1@)),
{
    let mut i: usize = letters.len();
    proof {
        assert(letters@.subrange(0, letters@.len() as int) =~= letters@);
    }
    while i > 0
        invariant
            i <= letters@.len(),
            hint_spec(letters@.subrange(0, i as int), ch) == hint_spec(letters@, ch),
        decreases i,
    {
        i = i - 1;
        let l = &letters[i];
        proof {
            let sub1 = letters@.subrange(0, i + 1);
            assert(sub1.drop_last() =~= letters@.subrange(0, i as int));
            assert(sub1.last() == letters@[i as int]);
        }
        if !l.letter.as_str().is_empty() {
            if l.letter.as_str().get_char(0) == ch {
                let label = code_to_qwerty_label(l.key_code.as_str());
                if !label.is_empty() {
                    return Some((l.shifted, String::from_str(label)));
                }
            }
        }
    }
    proof {
        assert(letters@.subrange(0, 0) =~= Seq::<Letter>::empty());
    }
    None
}

/// The letter mapped to a physical key with the given shift state, if any;
/// when several letters share the key, the last one in the keymap wins.
pub open spec fn slot_spec(letters: Seq<Letter>, code: Seq<char>, shifted: bool) -> Option<Letter>
    decreases letters.len(),
{
    if letters.len() == 0 {
        None
    } else if letters.last().key_code@ == code && letters.last().shifted == shifted {
        Some(letters.last())
    } else {
        slot_spec(letters.drop_last(), code, shifted)
    }
}

/// Finds the letter shown on a physical key for one shift state, exactly
/// as [`slot_spec`] describes it.
pub fn find_letter(letters: &Vec<Letter>, code: &str, shifted: bool) -> (r: Option<Letter>)
    ensures
        (r is Some) == (slot_spec(letters@, code@, shifted) is Some),
        r is Some ==> slot_spec(letters@, code@, shifted) == Some(r->Some_0),
{
    let mut i: usize = letters.len();
    proof {
        assert(letters@.subrange(0, letters@.len() as int) =~= letters@);
    }
    while i > 0
        invariant
            i <= letters@.len(),
            slot_spec(letters@.subrange(0, i as int), code@, shifted) == slot_spec(
                letters@,
                code@,
                shifted,
            ),
        decreases i,
    {
        i = i - 1;
        let l = &letters[i];
        proof {
            let sub1 = letters@.subrange(0, i + 1);
            assert(sub1.drop_last() =~= letters@.subrange(0, i as int));
            assert(sub1.last() == letters@[i as int]);
        }
        if str_eq(l.key_code.as_str(), code) && l.shifted == shifted {
            return Some(l.clone());
        }
    }
    proof {
        assert(letters@.subrange(0, 0) =~= Seq::<Letter>::empty());
    }
    None
}

} // verus!
