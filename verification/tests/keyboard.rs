use chip8::keyboard::Keyboard;

#[test]
fn get_key_pressed() {
    let expected = Some(4);
    let keyboard = Keyboard {
        key_pressed: expected,
    };

    let actual = keyboard.get_key_pressed();
    assert_eq!(actual, expected);
}

#[test]
fn set_key_pressed() {
    let mut keyboard = Keyboard::new();
    assert_eq!(keyboard.get_key_pressed(), None);

    let expected = Some(4);
    keyboard.set_key_pressed(expected);
    let actual = keyboard.get_key_pressed();
    assert_eq!(actual, expected);
}

#[test]
fn is_key_pressed() {
    let keyboard = Keyboard {
        key_pressed: Some(2),
    };

    assert!(keyboard.is_key_pressed(2));
    assert!(!keyboard.is_key_pressed(5));
}
