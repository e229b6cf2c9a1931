use telnet_codec::connection::ConnectionState;
use telnet_codec::scanner::{process_byte, process_bytes, TelnetState};

#[test]
fn test_process_byte_normal() {
    let state = TelnetState::Normal;
    let byte = b'a';

    let new_state = process_byte(state, byte);

    assert_eq!(new_state, TelnetState::Normal);
}

#[test]
fn test_process_byte_telnet_command() {
    let state = TelnetState::TelnetCommand;
    let byte = 0xFB;

    let new_state = process_byte(state, byte);

    assert_eq!(new_state, TelnetState::WillCommand);
}

#[test]
fn test_process_byte_will_command() {
    let state = TelnetState::WillCommand;
    let byte = 0x01;

    let new_state = process_byte(state, byte);

    assert_eq!(new_state, TelnetState::Normal);
}

#[test]
fn test_process_byte_unknown_command() {
    let state = TelnetState::TelnetCommand;
    let byte = 0x02;

    let new_state = process_byte(state, byte);

    assert_eq!(new_state, TelnetState::Normal);
}

#[test]
fn process_byte_iac_opens_a_command() {
    assert_eq!(process_byte(TelnetState::Normal, 0xFF), TelnetState::TelnetCommand);
}

#[test]
fn process_byte_names_each_verb() {
    assert_eq!(process_byte(TelnetState::TelnetCommand, 0xFB), TelnetState::WillCommand);
    assert_eq!(process_byte(TelnetState::TelnetCommand, 0xFC), TelnetState::WontCommand);
    assert_eq!(process_byte(TelnetState::TelnetCommand, 0xFD), TelnetState::DoCommand);
    assert_eq!(process_byte(TelnetState::TelnetCommand, 0xFE), TelnetState::DontCommand);
}

#[test]
fn process_byte_escaped_iac_returns_to_normal() {
    assert_eq!(process_byte(TelnetState::TelnetCommand, 0xFF), TelnetState::Normal);
}

#[test]
fn process_byte_option_closes_every_verb() {
    for state in [
        TelnetState::WillCommand,
        TelnetState::WontCommand,
        TelnetState::DoCommand,
        TelnetState::DontCommand,
    ] {
        assert_eq!(process_byte(state, 0x18), TelnetState::Normal);
        assert_eq!(process_byte(state, 0xFF), TelnetState::Normal);
    }
}

#[test]
fn process_byte_follows_a_whole_command() {
    let mut state = TelnetState::Normal;
    let mut seen = Vec::new();
    for byte in [b'h', 0xFF, 0xFD, 0x01, b'i'] {
        state = process_byte(state, byte);
        seen.push(state);
    }
    assert_eq!(
        seen,
        vec![
            TelnetState::Normal,
            TelnetState::TelnetCommand,
            TelnetState::DoCommand,
            TelnetState::Normal,
            TelnetState::Normal,
        ]
    );
}

#[test]
fn process_bytes_ends_where_the_stream_stands() {
    assert_eq!(process_bytes(TelnetState::Normal, &[]), TelnetState::Normal);
    assert_eq!(process_bytes(TelnetState::Normal, b"hello"), TelnetState::Normal);
    assert_eq!(
        process_bytes(TelnetState::Normal, &[b'h', 0xFF]),
        TelnetState::TelnetCommand
    );
    assert_eq!(
        process_bytes(TelnetState::Normal, &[b'h', 0xFF, 0xFD]),
        TelnetState::DoCommand
    );
    assert_eq!(
        process_bytes(TelnetState::Normal, &[b'h', 0xFF, 0xFD, 0x01]),
        TelnetState::Normal
    );
    assert_eq!(
        process_bytes(TelnetState::TelnetCommand, &[0xFC]),
        TelnetState::WontCommand
    );
    assert_eq!(
        process_bytes(TelnetState::DontCommand, &[0x01, 0xFF, 0xFF, 0xFF]),
        TelnetState::TelnetCommand
    );
}

#[test]
fn process_bytes_agrees_with_the_decoder_on_what_is_pending() {
    let whole = [b'h', 0xFF, 0xFF, 0xFF, 0xF1, 0xFF, 0xFB, 0x01, b'i', 0xFF, 0xFE, 0x03];
    for end in 0..=whole.len() {
        let prefix = &whole[..end];
        let mut conn = ConnectionState::new();
        conn.receive(prefix).unwrap();
        let state = process_bytes(TelnetState::Normal, prefix);
        assert_eq!(state == TelnetState::Normal, conn.pending_len() == 0, "end at {}", end);
        if conn.pending_len() == 1 {
            assert_eq!(state, TelnetState::TelnetCommand, "end at {}", end);
        }
    }
    assert_eq!(
        process_bytes(TelnetState::Normal, &whole[..7]),
        TelnetState::WillCommand
    );
    assert_eq!(
        process_bytes(TelnetState::Normal, &whole[..11]),
        TelnetState::DontCommand
    );
}

#[test]
fn process_byte_sb_opens_a_subnegotiation() {
    assert_eq!(
        process_byte(TelnetState::TelnetCommand, 0xFA),
        TelnetState::SubnegotiationOption
    );
    assert_ne!(process_byte(TelnetState::TelnetCommand, 0xFA), TelnetState::Normal);
}

#[test]
fn process_byte_any_option_enters_the_payload() {
    for option in [0x00u8, 0x18, 0xF0, 0xFA, 0xFF] {
        assert_eq!(
            process_byte(TelnetState::SubnegotiationOption, option),
            TelnetState::SubnegotiationPayload
        );
    }
}

#[test]
fn process_byte_payload_remembers_iac() {
    assert_eq!(
        process_byte(TelnetState::SubnegotiationPayload, 0xFF),
        TelnetState::SubnegotiationIac
    );
    for byte in [0x00u8, 0x41, 0xF0, 0xFA, 0xFB, 0xFE] {
        assert_eq!(
            process_byte(TelnetState::SubnegotiationPayload, byte),
            TelnetState::SubnegotiationPayload
        );
    }
}

#[test]
fn process_byte_se_after_iac_closes_the_subnegotiation() {
    assert_eq!(process_byte(TelnetState::SubnegotiationIac, 0xF0), TelnetState::Normal);
}

#[test]
fn process_byte_other_byte_after_iac_goes_on_with_the_payload() {
    for byte in [0xFFu8, 0x00, 0x41, 0xFA, 0xFB, 0xFD] {
        assert_eq!(
            process_byte(TelnetState::SubnegotiationIac, byte),
            TelnetState::SubnegotiationPayload
        );
    }
}

#[test]
fn process_byte_follows_a_whole_subnegotiation() {
    let mut state = TelnetState::Normal;
    let mut seen = Vec::new();
    for byte in [0xFF, 0xFA, 0x18, 0x01, 0xFF, 0xFF, 0xF0, 0xFF, 0xF0, b'x'] {
        state = process_byte(state, byte);
        seen.push(state);
    }
    assert_eq!(
        seen,
        vec![
            TelnetState::TelnetCommand,
            TelnetState::SubnegotiationOption,
            TelnetState::SubnegotiationPayload,
            TelnetState::SubnegotiationPayload,
            TelnetState::SubnegotiationIac,
            TelnetState::SubnegotiationPayload,
            TelnetState::SubnegotiationPayload,
            TelnetState::SubnegotiationIac,
            TelnetState::Normal,
            TelnetState::Normal,
        ]
    );
}

#[test]
fn process_bytes_does_not_take_a_payload_for_commands() {
    // The payload holds the bytes of `IAC WILL 1`, escaped: no command comes of it.
    let subnegotiation = [0xFF, 0xFA, 0x18, 0xFF, 0xFF, 0xFB, 0x01, 0xFF, 0xF0];
    assert_eq!(
        process_bytes(TelnetState::Normal, &subnegotiation[..6]),
        TelnetState::SubnegotiationPayload
    );
    assert_eq!(
        process_bytes(TelnetState::Normal, &subnegotiation),
        TelnetState::Normal
    );
}

#[test]
fn process_bytes_agrees_with_the_decoder_inside_subnegotiations() {
    let whole = [
        b'h', 0xFF, 0xFA, 0xFF, 0x01, 0xFF, 0xFF, 0xFF, 0xFB, 0xFF, 0xF0, 0xFF, 0xFA, 0x18, 0xFF,
        0xF0, 0xFF, 0xFD, 0x03, b'i',
    ];
    for end in 0..=whole.len() {
        let prefix = &whole[..end];
        let mut conn = ConnectionState::new();
        conn.receive(prefix).unwrap();
        let state = process_bytes(TelnetState::Normal, prefix);
        assert_eq!(state == TelnetState::Normal, conn.pending_len() == 0, "end at {}", end);
    }
    assert_eq!(
        process_bytes(TelnetState::Normal, &whole[..3]),
        TelnetState::SubnegotiationOption
    );
    assert_eq!(
        process_bytes(TelnetState::Normal, &whole[..4]),
        TelnetState::SubnegotiationPayload
    );
    assert_eq!(
        process_bytes(TelnetState::Normal, &whole[..6]),
        TelnetState::SubnegotiationIac
    );
    assert_eq!(
        process_bytes(TelnetState::Normal, &whole[..7]),
        TelnetState::SubnegotiationPayload
    );
    assert_eq!(
        process_bytes(TelnetState::Normal, &whole[..8]),
        TelnetState::SubnegotiationIac
    );
    assert_eq!(
        process_bytes(TelnetState::Normal, &whole[..9]),
        TelnetState::SubnegotiationPayload
    );
    assert_eq!(
        process_bytes(TelnetState::Normal, &whole[..10]),
        TelnetState::SubnegotiationIac
    );
    assert_eq!(process_bytes(TelnetState::Normal, &whole[..11]), TelnetState::Normal);
}
