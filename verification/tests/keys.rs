use cosmic_clip_keep::applet::keys::{interpret, typed, Action, Key, Modifiers, Named};

fn named(key: Named) -> Key {
    Key::Named(key)
}

fn character(text: &str) -> Key {
    Key::Character(text.to_owned())
}

const NONE: Modifiers = Modifiers {
    shift: false,
    ctrl: false,
    alt: false,
    logo: false,
};

const CTRL: Modifiers = Modifiers {
    ctrl: true,
    ..NONE
};

const SHIFT: Modifiers = Modifiers {
    shift: true,
    ..NONE
};

const ALT: Modifiers = Modifiers { alt: true, ..NONE };

#[test]
fn the_arrows_and_enter_drive_the_list() {
    assert_eq!(
        interpret(&named(Named::ArrowDown), NONE, None, false),
        Some(Action::Down)
    );
    assert_eq!(
        interpret(&named(Named::ArrowUp), NONE, None, false),
        Some(Action::Up)
    );
    assert_eq!(
        interpret(&named(Named::Enter), NONE, None, false),
        Some(Action::Confirm)
    );
    assert_eq!(
        interpret(&named(Named::Escape), NONE, None, false),
        Some(Action::Dismiss)
    );
}

#[test]
fn navigation_survives_a_widget_that_already_ate_the_key() {
    assert_eq!(
        interpret(&named(Named::ArrowDown), NONE, None, true),
        Some(Action::Down)
    );
}

#[test]
fn control_drives_the_focused_entry() {
    assert_eq!(interpret(&character("d"), CTRL, None, false), Some(Action::Delete));
    assert_eq!(
        interpret(&character("p"), CTRL, None, false),
        Some(Action::TogglePin)
    );
    assert_eq!(
        interpret(&character("i"), CTRL, None, false),
        Some(Action::ShowDetails)
    );
    assert_eq!(
        interpret(&character("f"), CTRL, None, false),
        Some(Action::FocusSearch)
    );
}

#[test]
fn a_modifier_has_to_match_exactly() {
    let both = Modifiers {
        ctrl: true,
        shift: true,
        ..NONE
    };

    assert_eq!(interpret(&character("d"), both, None, false), None);
    assert_eq!(interpret(&named(Named::ArrowDown), ALT, None, false), None);
}

#[test]
fn ordinary_typing_reaches_the_search() {
    assert_eq!(
        interpret(&character("a"), NONE, Some("a"), false),
        Some(Action::Append("a".to_owned()))
    );
    assert_eq!(
        interpret(&character("A"), SHIFT, Some("A"), false),
        Some(Action::Append("A".to_owned()))
    );
    assert_eq!(
        interpret(&named(Named::Backspace), NONE, None, false),
        Some(Action::Backspace)
    );
}

#[test]
fn a_focused_field_keeps_the_characters_it_consumed() {
    assert_eq!(interpret(&character("a"), NONE, Some("a"), true), None);
    assert_eq!(interpret(&named(Named::Backspace), NONE, None, true), None);
}

#[test]
fn control_characters_are_not_typing() {
    assert_eq!(interpret(&named(Named::Other), NONE, Some("\t"), false), None);
    assert_eq!(interpret(&named(Named::Other), NONE, None, false), None);
}

#[test]
fn control_letters_in_either_case_and_nothing_else() {
    assert_eq!(interpret(&character("D"), CTRL, None, false), Some(Action::Delete));
    assert_eq!(interpret(&character("x"), CTRL, None, false), None);
    assert_eq!(interpret(&named(Named::Enter), CTRL, None, false), None);
}

#[test]
fn typed_text_must_be_something_printable() {
    assert_eq!(typed(None), None);
    assert_eq!(typed(Some("")), None);
    assert_eq!(typed(Some("a\u{7}")), None);
    assert_eq!(typed(Some("héllo")), Some("héllo".to_owned()));
}
