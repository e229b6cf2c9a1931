use telnet_codec::connection::ConnectionState;
use telnet_codec::frame::{TelnetCommand, TelnetFrame};
use telnet_codec::negotiation::OptionState;

#[test]
fn new_connection_is_empty() {
    let conn = ConnectionState::new();
    assert_eq!(conn.pending_len(), 0);
    assert_eq!(conn.option_state(1), OptionState::NotNegotiated);
    assert!(!conn.supports(1));
}

#[test]
fn receive_plain_data_in_one_frame() {
    let mut conn = ConnectionState::new();
    let got = conn.receive(&[0x61, 0x62]).unwrap();
    assert_eq!(got.frames, vec![TelnetFrame::Data(vec![0x61, 0x62])]);
    assert!(got.replies.is_empty());
    assert_eq!(conn.pending_len(), 0);
}

#[test]
fn receive_will_echo_rejected_by_policy() {
    let mut conn = ConnectionState::new();
    conn.set_policy(1, false);
    let got = conn.receive(&[0xFF, 0xFB, 0x01]).unwrap();
    assert!(got.frames.is_empty());
    assert_eq!(got.replies, vec![0xFF, 0xFE, 0x01]);
    assert_eq!(conn.option_state(1), OptionState::Disabled);
    assert_eq!(conn.pending_len(), 0);
}

#[test]
fn receive_command_in_two_reads() {
    let mut conn = ConnectionState::new();
    let first = conn.receive(&[0xFF]).unwrap();
    assert!(first.frames.is_empty());
    assert!(first.replies.is_empty());
    assert_eq!(conn.pending_len(), 1);
    assert_eq!(conn.option_state(1), OptionState::NotNegotiated);

    let second = conn.receive(&[0xFB, 0x01]).unwrap();
    assert!(second.frames.is_empty());
    assert_eq!(second.replies, vec![0xFF, 0xFE, 0x01]);
    assert_eq!(conn.option_state(1), OptionState::Disabled);
    assert_eq!(conn.pending_len(), 0);
}

#[test]
fn receive_escaped_literal_then_letter() {
    let mut conn = ConnectionState::new();
    let got = conn.receive(&[0xFF, 0xFF, 0x41]).unwrap();
    assert_eq!(got.frames, vec![TelnetFrame::Data(vec![0xFF, 0x41])]);
    assert!(got.replies.is_empty());
    assert_eq!(conn.pending_len(), 0);
}

#[test]
fn close_with_dangling_iac() {
    let mut conn = ConnectionState::new();
    let got = conn.receive(&[0xFF]).unwrap();
    assert!(got.frames.is_empty());
    assert!(got.replies.is_empty());
    assert_eq!(conn.close(), 1);
    assert_eq!(conn.pending_len(), 0);
}

#[test]
fn receive_joins_data_around_escaped_iac() {
    let mut conn = ConnectionState::new();
    let got = conn.receive(&[b'a', 0xFF, 0xFF, b'b', 0xFF, 0xF1, b'c']).unwrap();
    assert_eq!(got.frames, vec![TelnetFrame::Data(vec![b'a', 0xFF, b'b', b'c'])]);
}

#[test]
fn receive_keeps_data_apart_across_a_forwarded_subnegotiation() {
    let mut conn = ConnectionState::new();
    conn.set_policy(24, true);
    let got = conn
        .receive(&[b'a', 0xFF, 0xFB, 24, b'b', 0xFF, 0xFA, 24, 0, b'x', 0xFF, 0xF0, b'c'])
        .unwrap();
    assert_eq!(
        got.frames,
        vec![
            TelnetFrame::Data(vec![b'a', b'b']),
            TelnetFrame::Subnegotiation(24, vec![0, b'x']),
            TelnetFrame::Data(vec![b'c']),
        ]
    );
    assert_eq!(got.replies, vec![0xFF, 0xFD, 24]);
    assert_eq!(conn.option_state(24), OptionState::Enabled);
}

#[test]
fn receive_discards_subnegotiation_of_option_not_enabled() {
    let mut conn = ConnectionState::new();
    let got = conn.receive(&[0xFF, 0xFA, 24, 0, b'x', 0xFF, 0xF0, b'c']).unwrap();
    assert_eq!(got.frames, vec![TelnetFrame::Data(vec![b'c'])]);
    assert!(got.replies.is_empty());
}

#[test]
fn receive_replies_in_the_order_of_the_commands() {
    let mut conn = ConnectionState::new();
    conn.set_policy(3, true);
    let got = conn
        .receive(&[0xFF, 0xFD, 3, 0xFF, 0xFD, 1, 0xFF, 0xFB, 3, 0xFF, 0xFD, 3])
        .unwrap();
    assert_eq!(
        got.replies,
        vec![0xFF, 0xFB, 3, 0xFF, 0xFC, 1]
    );
    assert_eq!(conn.option_state(3), OptionState::Enabled);
    assert_eq!(conn.option_state(1), OptionState::Disabled);
}

#[test]
fn receive_is_the_same_at_every_cut() {
    let whole = [
        b'h', b'i', 0xFF, 0xFD, 3, 0xFF, 0xFF, b'!', 0xFF, 0xFB, 24, 0xFF, 0xFA, 24, 0, 0xFF, 0xFF,
        0xFF, 0xF0, 0xFF, 0xF1, 0xFF, 0xFE, 3, b'x',
    ];
    let mut direct = ConnectionState::new();
    direct.set_policy(3, true);
    direct.set_policy(24, true);
    let expected = direct.receive(&whole).unwrap();

    for cut in 0..=whole.len() {
        let mut conn = ConnectionState::new();
        conn.set_policy(3, true);
        conn.set_policy(24, true);
        let first = conn.receive(&whole[..cut]).unwrap();
        let second = conn.receive(&whole[cut..]).unwrap();

        let mut replies = first.replies.clone();
        replies.extend(&second.replies);
        assert_eq!(replies, expected.replies, "cut at {}", cut);

        let mut frames = first.frames;
        for frame in second.frames {
            let joined = match (frames.last_mut(), &frame) {
                (Some(TelnetFrame::Data(before)), TelnetFrame::Data(after)) => {
                    before.extend(after);
                    true
                }
                _ => false,
            };
            if !joined {
                frames.push(frame);
            }
        }
        assert_eq!(frames, expected.frames, "cut at {}", cut);
        assert_eq!(conn.pending_len(), direct.pending_len(), "cut at {}", cut);
        for option in 0u8..=255 {
            assert_eq!(conn.option_state(option), direct.option_state(option));
        }
    }
}

#[test]
fn receive_leaves_partial_sequence_pending() {
    let mut conn = ConnectionState::new();
    let got = conn.receive(&[b'a', 0xFF, 0xFA, 24, 1, 2]).unwrap();
    assert_eq!(got.frames, vec![TelnetFrame::Data(vec![b'a'])]);
    assert_eq!(conn.pending_len(), 5);
    assert_eq!(conn.close(), 5);
    assert_eq!(conn.pending_len(), 0);
}

#[test]
fn send_command_offers_once() {
    let mut conn = ConnectionState::new();
    conn.set_policy(3, true);
    assert_eq!(conn.send_command(TelnetCommand::Will(3)), vec![0xFF, 0xFB, 0x03]);
    assert_eq!(conn.option_state(3), OptionState::PendingLocalRequest);
    assert_eq!(conn.send_command(TelnetCommand::Will(3)), Vec::<u8>::new());

    let got = conn.receive(&[0xFF, 0xFD, 0x03]).unwrap();
    assert!(got.replies.is_empty());
    assert_eq!(conn.option_state(3), OptionState::Enabled);
}

#[test]
fn send_command_switches_off_enabled_option() {
    let mut conn = ConnectionState::new();
    conn.set_policy(3, true);
    conn.receive(&[0xFF, 0xFD, 0x03]).unwrap();
    assert_eq!(conn.send_command(TelnetCommand::Wont(3)), vec![0xFF, 0xFC, 0x03]);
    assert_eq!(conn.option_state(3), OptionState::Disabled);
    assert_eq!(conn.send_command(TelnetCommand::Wont(3)), Vec::<u8>::new());
}

#[test]
fn send_data_escapes_iac() {
    let conn = ConnectionState::new();
    assert_eq!(conn.send_data(&[0x61, 0xFF, 0x62]), vec![0x61, 0xFF, 0xFF, 0x62]);
    assert_eq!(conn.send_data(&[]), Vec::<u8>::new());
}

#[test]
fn policy_can_change_during_a_connection() {
    let mut conn = ConnectionState::new();
    conn.set_policy(3, true);
    assert_eq!(conn.receive(&[0xFF, 0xFD, 3]).unwrap().replies, vec![0xFF, 0xFB, 3]);
    conn.set_policy(3, false);
    assert_eq!(conn.receive(&[0xFF, 0xFD, 3]).unwrap().replies, vec![0xFF, 0xFC, 3]);
    assert_eq!(conn.option_state(3), OptionState::Disabled);
}

#[test]
fn receive_is_the_same_for_any_number_of_cuts() {
    let whole = [
        b'h', b'i', 0xFF, 0xFD, 3, 0xFF, 0xFF, b'!', 0xFF, 0xFB, 24, 0xFF, 0xFA, 24, 0, 0xFF, 0xFF,
        0xFF, 0xF0, b'x', b'y',
    ];
    let mut direct = ConnectionState::new();
    direct.set_policy(3, true);
    direct.set_policy(24, true);
    let expected = direct.receive(&whole).unwrap();

    for size in 1..=whole.len() {
        let mut conn = ConnectionState::new();
        conn.set_policy(3, true);
        conn.set_policy(24, true);
        let mut frames: Vec<TelnetFrame> = Vec::new();
        let mut replies: Vec<u8> = Vec::new();
        for read in whole.chunks(size) {
            let got = conn.receive(read).unwrap();
            replies.extend(&got.replies);
            for frame in got.frames {
                let joined = match (frames.last_mut(), &frame) {
                    (Some(TelnetFrame::Data(before)), TelnetFrame::Data(after)) => {
                        before.extend(after);
                        true
                    }
                    _ => false,
                };
                if !joined {
                    frames.push(frame);
                }
            }
        }
        assert_eq!(frames, expected.frames, "reads of {}", size);
        assert_eq!(replies, expected.replies, "reads of {}", size);
        assert_eq!(conn.pending_len(), direct.pending_len(), "reads of {}", size);
        assert_eq!(conn.option_state(3), direct.option_state(3));
        assert_eq!(conn.option_state(24), direct.option_state(24));
    }
}
