use arq::input::Key;
use arq::util::describe_key;

#[test]
fn describe_key_char() {
    // GIVEN a random Key::Char(c)
    let key = Key::Char('u');

    // WHEN we call to describe this key
    let description = describe_key(key);

    // THEN we expect the description to be a literal 'u' character
    assert_eq!("u", description);
}

#[test]
fn describe_key_escape() {
    // GIVEN a Key::Escape (a key that is not represented with a single character)
    let key = Key::Esc;

    // WHEN we call to describe this key
    let description = describe_key(key);

    // THEN we expect the description to be "Esc"
    assert_eq!("Esc", description);
}

#[test]
fn describe_key_enter() {
    // GIVEN a Key::Backspace (enter key)
    let key = Key::Backspace;

    // WHEN we call to describe this key
    let description = describe_key(key);

    // THEN we expect the description to be "Enter"
    assert_eq!("Enter", description);
}

#[test]
fn describe_other_keys() {
    assert_eq!("Left", describe_key(Key::Left));
    assert_eq!("CtrlHome", describe_key(Key::CtrlHome));
    assert_eq!("F(5)", describe_key(Key::F(5)));
    assert_eq!("F(12)", describe_key(Key::F(12)));
    assert_eq!("Alt('x')", describe_key(Key::Alt('x')));
    assert_eq!("Ctrl('c')", describe_key(Key::Ctrl('c')));
    assert_eq!("Alt('\\n')", describe_key(Key::Alt('\n')));
    assert_eq!("Null", describe_key(Key::Null));
}
