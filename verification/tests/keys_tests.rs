use langsprint::keys::{code_to_qwerty_label, find_letter, key_hint, Letter};
use langsprint::lang::Languages;

fn letter(glyph: &str, key_code: &str, shifted: bool) -> Letter {
    Letter {
        letter: glyph.to_string(),
        name: String::new(),
        pron: String::new(),
        audio: None,
        finger: "index_left".to_string(),
        key_code: key_code.to_string(),
        shifted,
    }
}

#[test]
fn key_codes_label_with_their_qwerty_letter() {
    assert_eq!(code_to_qwerty_label("KeyQ"), "Q");
    assert_eq!(code_to_qwerty_label("KeyM"), "M");
    assert_eq!(code_to_qwerty_label("KeyLShift"), "Shift");
    assert_eq!(code_to_qwerty_label("KeyRShift"), "Shift");
    assert_eq!(code_to_qwerty_label("Space"), "");
    assert_eq!(code_to_qwerty_label(""), "");
}

#[test]
fn hints_carry_the_shift_state() {
    let letters = vec![letter("ა", "KeyA", false), letter("ჭ", "KeyW", true)];
    assert_eq!(key_hint(&letters, 'ა'), Some((false, "A".to_string())));
    assert_eq!(key_hint(&letters, 'ჭ'), Some((true, "W".to_string())));
    assert_eq!(key_hint(&letters, 'ზ'), None);
}

#[test]
fn later_keymap_entries_overwrite_earlier_hints() {
    let letters = vec![letter("ა", "KeyA", false), letter("ა", "KeyS", false)];
    assert_eq!(key_hint(&letters, 'ა'), Some((false, "S".to_string())));
}

#[test]
fn unlabeled_keys_give_no_hint() {
    let letters = vec![letter("ა", "Space", false)];
    assert_eq!(key_hint(&letters, 'ა'), None);
    let letters = vec![letter("ა", "KeyA", false), letter("ა", "Space", false)];
    assert_eq!(
        key_hint(&letters, 'ა'),
        Some((false, "A".to_string())),
        "an unlabeled key must not shadow a labeled one"
    );
}

#[test]
fn key_slots_pair_base_and_shifted_letters() {
    let letters = vec![letter("ა", "KeyA", false), letter("ჰ", "KeyA", true)];
    let base = find_letter(&letters, "KeyA", false).unwrap();
    assert_eq!(base.letter, "ა");
    let shifted = find_letter(&letters, "KeyA", true).unwrap();
    assert_eq!(shifted.letter, "ჰ");
    assert!(find_letter(&letters, "KeyB", false).is_none());
}

#[test]
fn language_codes_name_their_resources() {
    assert_eq!(Languages::Georgian.code(), "georgian");
    assert_eq!(Languages::Russian.code(), "russian");
    assert_eq!(Languages::Georgian.emoji(), "🇬🇪");
    assert_eq!(Languages::Russian.emoji(), "🇷🇺");
}
