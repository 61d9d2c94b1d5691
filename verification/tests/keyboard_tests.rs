use chip8::emulator::keyboard::Keyboard;

#[test]
fn keyboard_new_is_empty() {
    let keyboard = Keyboard::new();

    assert_eq!(keyboard.keys, [false; 16]);
}

#[test]
fn replace_presses_exactly_the_given_codes() {
    let mut keyboard = Keyboard::new();
    keyboard.replace(&[0x5, 0x2, 0x9]);

    for code in 0u8..16 {
        let expected = code == 0x5 || code == 0x2 || code == 0x9;
        assert_eq!(keyboard.is_pressed(code), expected);
    }
}

#[test]
fn replace_releases_implicitly() {
    let mut keyboard = Keyboard::new();
    keyboard.replace(&[0xF]);
    assert!(keyboard.is_pressed(0xF));

    keyboard.replace(&[0x0]);
    assert!(keyboard.is_pressed(0x0));
    assert!(!keyboard.is_pressed(0xF));
}

#[test]
fn lowest_pressed_picks_smallest_code() {
    let mut keyboard = Keyboard::new();
    assert_eq!(keyboard.lowest_pressed(), None);

    keyboard.replace(&[0xB, 0x4, 0x7]);
    assert_eq!(keyboard.lowest_pressed(), Some(0x4));

    keyboard.replace(&[]);
    assert_eq!(keyboard.lowest_pressed(), None);
}
