use web_server::control::{pause, resume, select_input, Command, ControlError};

#[test]
fn resume_switches_the_flag_on_and_asks_for_a_render() {
    let mut should_update = false;
    assert_eq!(resume(&mut should_update), Command::StartRender);
    assert!(should_update);
    assert_eq!(resume(&mut should_update), Command::StartRender);
    assert!(should_update);
}

#[test]
fn pause_switches_the_flag_off() {
    let mut should_update = true;
    pause(&mut should_update);
    assert!(!should_update);
    pause(&mut should_update);
    assert!(!should_update);
    resume(&mut should_update);
    assert!(should_update);
}

#[test]
fn select_input_hands_the_path_on_unchanged() {
    assert_eq!(
        select_input(b"scenes/conference.obj".to_vec()),
        Ok(Command::SelectInput(String::from("scenes/conference.obj")))
    );
    assert_eq!(
        select_input("modèles/théière №1.obj".as_bytes().to_vec()),
        Ok(Command::SelectInput(String::from("modèles/théière №1.obj")))
    );
    assert_eq!(
        select_input(Vec::new()),
        Ok(Command::SelectInput(String::new()))
    );
    assert_eq!(
        select_input(vec![b'a', 0, b'b']),
        Ok(Command::SelectInput(String::from("a\0b")))
    );
}

#[test]
fn select_input_turns_down_what_is_not_utf8() {
    let bad: [&[u8]; 6] = [
        &[0xFF],
        &[b'a', 0x80],
        &[0xC0, 0x80],
        &[0xED, 0xA0, 0x80],
        &[0xF4, 0x90, 0x80, 0x80],
        &[0xE2, 0x82],
    ];
    for body in bad {
        assert_eq!(
            select_input(body.to_vec()),
            Err(ControlError::InvalidControlInput)
        );
    }
}
