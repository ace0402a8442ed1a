use zombies::action::Action;

#[test]
fn keys_of_the_block_ask_for_displacements() {
    assert_eq!(Action::from_key(b'q'), Action::UpLeft);
    assert_eq!(Action::from_key(b'w'), Action::Up);
    assert_eq!(Action::from_key(b'e'), Action::UpRight);
    assert_eq!(Action::from_key(b'a'), Action::Left);
    assert_eq!(Action::from_key(b's'), Action::Stay);
    assert_eq!(Action::from_key(b'd'), Action::Right);
    assert_eq!(Action::from_key(b'z'), Action::DownLeft);
    assert_eq!(Action::from_key(b'x'), Action::Down);
    assert_eq!(Action::from_key(b'c'), Action::DownRight);
}

#[test]
fn teleport_and_quit_keys() {
    assert_eq!(Action::from_key(b't'), Action::Teleport);
    assert_eq!(Action::from_key(3), Action::Quit);
}

#[test]
fn other_keys_are_not_recognised() {
    assert_eq!(Action::from_key(b'Q'), Action::Unrecognized);
    assert_eq!(Action::from_key(b' '), Action::Unrecognized);
    assert_eq!(Action::from_key(0), Action::Unrecognized);
    assert_eq!(Action::from_key(27), Action::Unrecognized);
    assert_eq!(Action::from_key(255), Action::Unrecognized);
}

#[test]
fn every_byte_decodes_to_some_action() {
    let mut recognised = 0;
    for key in 0..=255u8 {
        if Action::from_key(key) != Action::Unrecognized {
            recognised += 1;
        }
    }
    assert_eq!(recognised, 11);
}

#[test]
fn input_of_one_byte_is_its_key() {
    assert_eq!(Action::from_input(&[b'w']), Action::Up);
    assert_eq!(Action::from_input(&[3]), Action::Quit);
    assert_eq!(Action::from_input(&[b'k']), Action::Unrecognized);
}

#[test]
fn input_of_no_byte_or_several_is_not_recognised() {
    assert_eq!(Action::from_input(&[]), Action::Unrecognized);
    assert_eq!(Action::from_input(&[b'w', b'w']), Action::Unrecognized);
}

#[test]
fn displacements_of_the_actions() {
    assert_eq!(Action::UpLeft.displacement(), Some((-1, -1)));
    assert_eq!(Action::Up.displacement(), Some((0, -1)));
    assert_eq!(Action::UpRight.displacement(), Some((1, -1)));
    assert_eq!(Action::Left.displacement(), Some((-1, 0)));
    assert_eq!(Action::Stay.displacement(), Some((0, 0)));
    assert_eq!(Action::Right.displacement(), Some((1, 0)));
    assert_eq!(Action::DownLeft.displacement(), Some((-1, 1)));
    assert_eq!(Action::Down.displacement(), Some((0, 1)));
    assert_eq!(Action::DownRight.displacement(), Some((1, 1)));
    assert_eq!(Action::Teleport.displacement(), None);
    assert_eq!(Action::Quit.displacement(), None);
    assert_eq!(Action::Unrecognized.displacement(), None);
}
