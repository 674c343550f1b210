use bamboo_core::{Engine, InputMethod, Mode};

#[test]
fn delta_backspaces_and_inserted() {
    let telex = InputMethod::telex();
    let mut e = Engine::new(telex);

    let (bs1, _bb1, ins1) = e.process_key_delta('a', Mode::Vietnamese);
    assert_eq!(bs1, 0, "First 'a' should have 0 backspaces");
    assert_eq!(ins1, "a");

    let (bs2, _bb2, ins2) = e.process_key_delta('s', Mode::Vietnamese);
    assert_eq!(bs2, 1, "Adding 's' to 'a' should have 1 backspace for 'á'");
    assert_eq!(ins2, "á");

    let (bs3, _bb3, ins3) = e.process_key_delta(' ', Mode::Vietnamese);
    assert_eq!(bs3, 1, "Space should clear the preedit 'á'");
    assert_eq!(ins3, "");
}
