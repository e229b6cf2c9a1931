use bytes::BytesMut;
use telnet_codec::codec::TelnetCodec;
use telnet_codec::frame::{TelnetCommand, TelnetFrame};
use telnet_codec::negotiation::{initiate, respond, Action, Negotiation, OptionState};

const ALL_STATES: [OptionState; 5] = [
    OptionState::NotNegotiated,
    OptionState::Enabled,
    OptionState::Disabled,
    OptionState::PendingLocalRequest,
    OptionState::PendingRemoteRequest,
];

#[test]
fn new_negotiation_has_nothing_negotiated_or_supported() {
    let options = Negotiation::new();
    for option in 0u8..=255 {
        assert_eq!(options.state(option), OptionState::NotNegotiated);
        assert!(!options.supports(option));
    }
}

#[test]
fn set_policy_changes_one_option() {
    let mut options = Negotiation::new();
    options.set_policy(3, true);
    assert!(options.supports(3));
    assert!(!options.supports(2));
    assert!(!options.supports(4));
    options.set_policy(3, false);
    assert!(!options.supports(3));
}

#[test]
fn do_supported_enables_and_replies_will() {
    let mut options = Negotiation::new();
    options.set_policy(3, true);
    assert_eq!(
        options.receive_command(TelnetCommand::Do(3)),
        Some(TelnetCommand::Will(3))
    );
    assert_eq!(options.state(3), OptionState::Enabled);
    assert_eq!(options.state(1), OptionState::NotNegotiated);
}

#[test]
fn do_twice_replies_only_once() {
    let mut options = Negotiation::new();
    options.set_policy(3, true);
    assert_eq!(
        options.receive_command(TelnetCommand::Do(3)),
        Some(TelnetCommand::Will(3))
    );
    assert_eq!(options.receive_command(TelnetCommand::Do(3)), None);
    assert_eq!(options.state(3), OptionState::Enabled);
}

#[test]
fn do_unsupported_disables_and_replies_wont() {
    let mut options = Negotiation::new();
    assert_eq!(
        options.receive_command(TelnetCommand::Do(24)),
        Some(TelnetCommand::Wont(24))
    );
    assert_eq!(options.state(24), OptionState::Disabled);
    assert_eq!(options.receive_command(TelnetCommand::Do(24)), None);
    assert_eq!(options.state(24), OptionState::Disabled);
}

#[test]
fn will_rejected_replies_dont() {
    let mut options = Negotiation::new();
    assert_eq!(
        options.receive_command(TelnetCommand::Will(1)),
        Some(TelnetCommand::Dont(1))
    );
    assert_eq!(options.state(1), OptionState::Disabled);
}

#[test]
fn will_wanted_replies_do() {
    let mut options = Negotiation::new();
    options.set_policy(31, true);
    assert_eq!(
        options.receive_command(TelnetCommand::Will(31)),
        Some(TelnetCommand::Do(31))
    );
    assert_eq!(options.state(31), OptionState::Enabled);
    assert_eq!(options.receive_command(TelnetCommand::Will(31)), None);
}

#[test]
fn dont_acknowledged_only_when_enabled() {
    let mut options = Negotiation::new();
    assert_eq!(options.receive_command(TelnetCommand::Dont(3)), None);
    assert_eq!(options.state(3), OptionState::Disabled);

    options.set_policy(3, true);
    options.receive_command(TelnetCommand::Do(3));
    assert_eq!(options.state(3), OptionState::Enabled);
    assert_eq!(
        options.receive_command(TelnetCommand::Dont(3)),
        Some(TelnetCommand::Wont(3))
    );
    assert_eq!(options.state(3), OptionState::Disabled);
    assert_eq!(options.receive_command(TelnetCommand::Dont(3)), None);
}

#[test]
fn wont_acknowledged_only_when_enabled() {
    let mut options = Negotiation::new();
    assert_eq!(options.receive_command(TelnetCommand::Wont(3)), None);
    assert_eq!(options.state(3), OptionState::Disabled);

    options.set_policy(3, true);
    options.receive_command(TelnetCommand::Will(3));
    assert_eq!(
        options.receive_command(TelnetCommand::Wont(3)),
        Some(TelnetCommand::Dont(3))
    );
    assert_eq!(options.state(3), OptionState::Disabled);
}

#[test]
fn respond_table_for_do() {
    for state in ALL_STATES {
        let told = state == OptionState::Enabled || state == OptionState::PendingLocalRequest;
        assert_eq!(
            respond(state, true, TelnetCommand::Do(5)),
            (
                OptionState::Enabled,
                if told { None } else { Some(TelnetCommand::Will(5)) }
            )
        );
        assert_eq!(
            respond(state, false, TelnetCommand::Do(5)),
            (
                OptionState::Disabled,
                if state == OptionState::Disabled { None } else { Some(TelnetCommand::Wont(5)) }
            )
        );
    }
}

#[test]
fn respond_table_for_will() {
    for state in ALL_STATES {
        let told = state == OptionState::Enabled || state == OptionState::PendingRemoteRequest;
        assert_eq!(
            respond(state, true, TelnetCommand::Will(5)),
            (
                OptionState::Enabled,
                if told { None } else { Some(TelnetCommand::Do(5)) }
            )
        );
        assert_eq!(
            respond(state, false, TelnetCommand::Will(5)),
            (
                OptionState::Disabled,
                if state == OptionState::Disabled { None } else { Some(TelnetCommand::Dont(5)) }
            )
        );
    }
}

#[test]
fn respond_table_for_dont_and_wont() {
    for state in ALL_STATES {
        for supported in [false, true] {
            assert_eq!(
                respond(state, supported, TelnetCommand::Dont(5)),
                (
                    OptionState::Disabled,
                    if state == OptionState::Enabled { Some(TelnetCommand::Wont(5)) } else { None }
                )
            );
            assert_eq!(
                respond(state, supported, TelnetCommand::Wont(5)),
                (
                    OptionState::Disabled,
                    if state == OptionState::Enabled { Some(TelnetCommand::Dont(5)) } else { None }
                )
            );
        }
    }
}

#[test]
fn respond_never_replies_without_a_transition() {
    for state in ALL_STATES {
        for supported in [false, true] {
            for command in [
                TelnetCommand::Will(9),
                TelnetCommand::Wont(9),
                TelnetCommand::Do(9),
                TelnetCommand::Dont(9),
            ] {
                let (next, reply) = respond(state, supported, command);
                if reply.is_some() {
                    assert_ne!(next, state);
                }
                let (again, second) = respond(next, supported, command);
                assert_eq!(again, next);
                assert_eq!(second, None);
            }
        }
    }
}

#[test]
fn request_will_waits_for_the_answer() {
    let mut options = Negotiation::new();
    options.set_policy(3, true);
    assert_eq!(options.request(TelnetCommand::Will(3)), Some(TelnetCommand::Will(3)));
    assert_eq!(options.state(3), OptionState::PendingLocalRequest);
    assert_eq!(options.request(TelnetCommand::Will(3)), None);
    assert_eq!(options.receive_command(TelnetCommand::Do(3)), None);
    assert_eq!(options.state(3), OptionState::Enabled);
    assert_eq!(options.request(TelnetCommand::Will(3)), None);
}

#[test]
fn request_will_refused_by_peer() {
    let mut options = Negotiation::new();
    options.set_policy(3, true);
    options.request(TelnetCommand::Will(3));
    assert_eq!(options.receive_command(TelnetCommand::Dont(3)), None);
    assert_eq!(options.state(3), OptionState::Disabled);
}

#[test]
fn request_do_waits_for_the_answer() {
    let mut options = Negotiation::new();
    options.set_policy(24, true);
    assert_eq!(options.request(TelnetCommand::Do(24)), Some(TelnetCommand::Do(24)));
    assert_eq!(options.state(24), OptionState::PendingRemoteRequest);
    assert_eq!(options.receive_command(TelnetCommand::Will(24)), None);
    assert_eq!(options.state(24), OptionState::Enabled);
}

#[test]
fn initiate_table() {
    for state in ALL_STATES {
        let will = TelnetCommand::Will(2);
        let expect_will = if state == OptionState::Enabled || state == OptionState::PendingLocalRequest {
            (state, None)
        } else {
            (OptionState::PendingLocalRequest, Some(will))
        };
        assert_eq!(initiate(state, will), expect_will);

        let ask = TelnetCommand::Do(2);
        let expect_do = if state == OptionState::Enabled || state == OptionState::PendingRemoteRequest {
            (state, None)
        } else {
            (OptionState::PendingRemoteRequest, Some(ask))
        };
        assert_eq!(initiate(state, ask), expect_do);

        let quiet = state == OptionState::NotNegotiated || state == OptionState::Disabled;
        for off in [TelnetCommand::Wont(2), TelnetCommand::Dont(2)] {
            assert_eq!(
                initiate(state, off),
                (OptionState::Disabled, if quiet { None } else { Some(off) })
            );
        }
    }
}

#[test]
fn handle_frame_forwards_data() {
    let mut options = Negotiation::new();
    assert_eq!(
        options.handle_frame(TelnetFrame::Data(vec![1, 2])),
        Action::Forward(TelnetFrame::Data(vec![1, 2]))
    );
}

#[test]
fn handle_frame_discards_unknown_command() {
    let mut options = Negotiation::new();
    assert_eq!(options.handle_frame(TelnetFrame::UnknownCommand(0xF1)), Action::Nothing);
    for option in 0u8..=255 {
        assert_eq!(options.state(option), OptionState::NotNegotiated);
    }
}

#[test]
fn handle_frame_subnegotiation_needs_enabled_option() {
    let mut options = Negotiation::new();
    assert_eq!(
        options.handle_frame(TelnetFrame::Subnegotiation(24, vec![0, 1])),
        Action::Nothing
    );
    options.set_policy(24, true);
    assert_eq!(
        options.handle_frame(TelnetFrame::Command(TelnetCommand::Will(24))),
        Action::Reply(TelnetCommand::Do(24))
    );
    assert_eq!(
        options.handle_frame(TelnetFrame::Subnegotiation(24, vec![0, 1])),
        Action::Forward(TelnetFrame::Subnegotiation(24, vec![0, 1]))
    );
}

#[test]
fn handle_frame_command_without_reply_is_nothing() {
    let mut options = Negotiation::new();
    assert_eq!(
        options.handle_frame(TelnetFrame::Command(TelnetCommand::Dont(1))),
        Action::Nothing
    );
    assert_eq!(options.state(1), OptionState::Disabled);
}

#[test]
fn will_echo_rejected_from_wire_to_wire() {
    let mut src = BytesMut::from(&[0xFFu8, 0xFB, 0x01][..]);
    let frame = TelnetCodec.decode(&mut src).unwrap();
    assert_eq!(frame, TelnetFrame::Command(TelnetCommand::Will(1)));
    assert!(src.is_empty());

    let mut options = Negotiation::new();
    options.set_policy(1, false);
    let action = options.handle_frame(frame);
    assert_eq!(action, Action::Reply(TelnetCommand::Dont(1)));
    match action {
        Action::Reply(reply) => assert_eq!(reply.encode(), vec![0xFF, 0xFE, 0x01]),
        other => panic!("no reply: {:?}", other),
    }
    assert_eq!(options.state(1), OptionState::Disabled);
}

#[test]
fn negotiation_clone_keeps_states_and_policy() {
    let mut options = Negotiation::new();
    options.set_policy(3, true);
    options.receive_command(TelnetCommand::Do(3));
    options.receive_command(TelnetCommand::Will(9));
    let copy = options.clone();
    for option in 0u8..=255 {
        assert_eq!(copy.state(option), options.state(option));
        assert_eq!(copy.supports(option), options.supports(option));
    }
    assert_eq!(copy.state(3), OptionState::Enabled);
    assert_eq!(copy.state(9), OptionState::Disabled);
}
