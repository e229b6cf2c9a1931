//! A byte-at-a-time scanner that tracks where in an `IAC` sequence a stream
//! stands. It reads the stream as the frame decoder does: after any run of
//! bytes it stands outside every sequence exactly where the decoder has
//! nothing pending.

use vstd::prelude::*;
use crate::decoder::{
    lemma_decode_progress,
    lemma_literal_run,
    lemma_scan_body_bounds,
    scan_body,
    spec_decode,
};
use crate::frame::{DO, DONT, IAC, SB, SE, WILL, WONT};
use crate::stream::pending_of;

verus! {

/// Position of a byte stream relative to the in-band command sequences.
#[derive(Clone, Copy, Debug, PartialEq, Eq, Structural)]
pub enum TelnetState {
    /// Outside any command sequence.
    Normal,
    /// An `IAC` byte has been read; the next byte names the command.
    TelnetCommand,
    /// `IAC WILL` has been read; the next byte is the option.
    WillCommand,
    /// `IAC WONT` has been read; the next byte is the option.
    WontCommand,
    /// `IAC DO` has been read; the next byte is the option.
    DoCommand,
    /// `IAC DONT` has been read; the next byte is the option.
    DontCommand,
    /// `IAC SB` has been read; the next byte is the option of the
    /// subnegotiation.
    SubnegotiationOption,
    /// Inside the payload of a subnegotiation.
    SubnegotiationPayload,
    /// An `IAC` has been read inside the payload of a subnegotiation: `SE`
    /// closes the subnegotiation, any other byte goes on with the payload.
    SubnegotiationIac,
}

/// The state that follows `state` once `byte` has been read.
///
/// - Outside any sequence, `IAC` opens one; every other byte is data.
/// - After `IAC`, a verb awaits its option, `SB` awaits the option of a
///   subnegotiation, and any other byte, a second `IAC` among them, ends the
///   sequence.
/// - After a verb, the next byte is the option and ends the command.
/// - After `IAC SB`, the next byte is the option, and the payload follows.
/// - In the payload, `IAC` is remembered. `SE` after it ends the
///   subnegotiation; any other byte after it is payload.
pub open spec fn spec_process_byte(state: TelnetState, byte: u8) -> TelnetState {
    match state {
        TelnetState::Normal => if byte == IAC {
            TelnetState::TelnetCommand
        } else {
            TelnetState::Normal
        },
        TelnetState::TelnetCommand => if byte == WILL {
            TelnetState::WillCommand
        } else if byte == WONT {
            TelnetState::WontCommand
        } else if byte == DO {
            TelnetState::DoCommand
        } else if byte == DONT {
            TelnetState::DontCommand
        } else if byte == SB {
            TelnetState::SubnegotiationOption
        } else {
            TelnetState::Normal
        },
        TelnetState::WillCommand => TelnetState::Normal,
        TelnetState::WontCommand => TelnetState::Normal,
        TelnetState::DoCommand => TelnetState::Normal,
        TelnetState::DontCommand => TelnetState::Normal,
        TelnetState::SubnegotiationOption => TelnetState::SubnegotiationPayload,
        TelnetState::SubnegotiationPayload => if byte == IAC {
            TelnetState::SubnegotiationIac
        } else {
            TelnetState::SubnegotiationPayload
        },
        TelnetState::SubnegotiationIac => if byte == SE {
            TelnetState::Normal
        } else {
            TelnetState::SubnegotiationPayload
        },
    }
}

/// Advances the scanner by one byte.
pub fn process_byte(state: TelnetState, byte: u8) -> (next: TelnetState)
    ensures
        next == spec_process_byte(state, byte),
{
    match state {
        TelnetState::Normal => {
            if byte == 0xFF {
                TelnetState::TelnetCommand
            } else {
                TelnetState::Normal
            }
        },
        TelnetState::TelnetCommand => match byte {
            0xFF => TelnetState::Normal,
            0xFB => TelnetState::WillCommand,
            0xFC => TelnetState::WontCommand,
            0xFD => TelnetState::DoCommand,
            0xFE => TelnetState::DontCommand,
            0xFA => TelnetState::SubnegotiationOption,
            _ => TelnetState::Normal,
        },
        TelnetState::WillCommand => TelnetState::Normal,
        TelnetState::WontCommand => TelnetState::Normal,
        TelnetState::DoCommand => TelnetState::Normal,
        TelnetState::DontCommand => TelnetState::Normal,
        TelnetState::SubnegotiationOption => TelnetState::SubnegotiationPayload,
        TelnetState::SubnegotiationPayload => {
            if byte == 0xFF {
                TelnetState::SubnegotiationIac
            } else {
                TelnetState::SubnegotiationPayload
            }
        },
        TelnetState::SubnegotiationIac => {
            if byte == 0xF0 {
                TelnetState::Normal
            } else {
                TelnetState::SubnegotiationPayload
            }
        },
    }
}

/// The state of the scanner once it has read `bytes`, one after the other,
/// starting in `state`.
pub open spec fn scan(state: TelnetState, bytes: Seq<u8>) -> TelnetState
    decreases bytes.len(),
{
    if bytes.len() == 0 {
        state
    } else {
        scan(spec_process_byte(state, bytes[0]), bytes.skip(1))
    }
}

/// Advances the scanner over a run of bytes.
pub fn process_bytes(state: TelnetState, bytes: &[u8]) -> (next: TelnetState)
    ensures
        next == scan(state, bytes@),
{
    let mut current = state;
    let mut i: usize = 0;
    assert(bytes@.skip(0) =~= bytes@);
    while i < bytes.len()
        invariant
            i <= bytes.len(),
            scan(state, bytes@) == scan(current, bytes@.skip(i as int)),
        decreases bytes.len() - i,
    {
        assert(bytes@.skip(i as int)[0] == bytes[i as int]);
        assert(bytes@.skip(i as int).skip(1) =~= bytes@.skip(i + 1));
        current = process_byte(current, bytes[i]);
        i += 1;
    }
    current
}

/// Whether the body of an unfinished subnegotiation ends with an `IAC` that
/// still awaits the byte after it. An `IAC` that follows an `IAC` belongs to
/// the one before it and awaits nothing.
pub open spec fn ends_in_iac(body: Seq<u8>) -> bool
    decreases body.len(),
{
    if body.len() == 0 {
        false
    } else if body[0] != IAC {
        ends_in_iac(body.skip(1))
    } else if body.len() == 1 {
        true
    } else {
        ends_in_iac(body.skip(2))
    }
}

/// The state in which the scanner stands when the bytes `pending` of an
/// unfinished sequence have been read.
///
/// - Nothing pending: outside any sequence.
/// - `IAC`: the command is awaited.
/// - `IAC` and a verb: the option is awaited.
/// - `IAC SB`: the option of the subnegotiation is awaited.
/// - `IAC SB option` and a body: inside the payload, after an `IAC` where the
///   body ends with one that awaits the byte after it.
pub open spec fn state_within(pending: Seq<u8>) -> TelnetState {
    if pending.len() == 0 {
        TelnetState::Normal
    } else if pending.len() == 1 {
        TelnetState::TelnetCommand
    } else if pending[1] == SB {
        if pending.len() == 2 {
            TelnetState::SubnegotiationOption
        } else if ends_in_iac(pending.skip(3)) {
            TelnetState::SubnegotiationIac
        } else {
            TelnetState::SubnegotiationPayload
        }
    } else if pending[1] == WILL {
        TelnetState::WillCommand
    } else if pending[1] == WONT {
        TelnetState::WontCommand
    } else if pending[1] == DO {
        TelnetState::DoCommand
    } else {
        TelnetState::DontCommand
    }
}

/// Reading bytes in two runs is reading them in one.
pub proof fn lemma_scan_concat(state: TelnetState, a: Seq<u8>, b: Seq<u8>)
    ensures
        scan(state, a + b) == scan(scan(state, a), b),
    decreases a.len(),
{
    if a.len() == 0 {
        assert(a + b =~= b);
    } else {
        assert((a + b)[0] == a[0]);
        assert((a + b).skip(1) =~= a.skip(1) + b);
        lemma_scan_concat(spec_process_byte(state, a[0]), a.skip(1), b);
    }
}

/// Bytes without an `IAC` leave the scanner where data leaves it.
proof fn lemma_scan_plain(data: Seq<u8>)
    requires
        forall|i: int| 0 <= i < data.len() ==> data[i] != IAC,
    ensures
        scan(TelnetState::Normal, data) == TelnetState::Normal,
    decreases data.len(),
{
    if data.len() > 0 {
        let rest = data.skip(1);
        assert forall|i: int| 0 <= i < rest.len() implies rest[i] != IAC by {
            assert(rest[i] == data[i + 1]);
        }
        lemma_scan_plain(rest);
    }
}

/// The body of a subnegotiation, read up to its closing `IAC SE`, takes the
/// scanner from the payload to the outside of any sequence.
pub proof fn lemma_scan_body_complete(body: Seq<u8>)
    requires
        scan_body(body) is Some,
    ensures
        scan_body(body) matches Some((_, n)) && scan(
            TelnetState::SubnegotiationPayload,
            body.take(n as int),
        ) == TelnetState::Normal,
    decreases body.len(),
{
    reveal_with_fuel(scan, 3);
    lemma_scan_body_bounds(body);
    let (_, n) = scan_body(body).unwrap();
    let read = body.take(n as int);
    assert(read[0] == body[0]);
    if body[0] != IAC {
        let rest = body.skip(1);
        lemma_scan_body_complete(rest);
        assert(read.skip(1) =~= rest.take(n - 1));
    } else {
        assert(read[1] == body[1]);
        assert(read.skip(1)[0] == read[1]);
        if body[1] == SE {
            assert(read.skip(1).skip(1) =~= Seq::<u8>::empty());
        } else {
            let rest = body.skip(2);
            lemma_scan_body_complete(rest);
            assert(read.skip(1).skip(1) =~= rest.take(n - 2));
        }
    }
}

/// The body of a subnegotiation that is not yet closed leaves the scanner in
/// the payload, after an `IAC` where the body ends with one that awaits the
/// byte after it.
pub proof fn lemma_scan_body_pending(body: Seq<u8>)
    requires
        scan_body(body) is None,
    ensures
        scan(TelnetState::SubnegotiationPayload, body) == if ends_in_iac(body) {
            TelnetState::SubnegotiationIac
        } else {
            TelnetState::SubnegotiationPayload
        },
    decreases body.len(),
{
    reveal_with_fuel(scan, 3);
    if body.len() == 0 {
    } else if body[0] != IAC {
        lemma_scan_body_pending(body.skip(1));
    } else if body.len() == 1 {
        assert(body.skip(1) =~= Seq::<u8>::empty());
    } else {
        assert(body.skip(1)[0] == body[1]);
        assert(body.skip(1).skip(1) =~= body.skip(2));
        lemma_scan_body_pending(body.skip(2));
    }
}

/// The scanner and the frame decoder agree on every stream. Started outside
/// any sequence, the scanner stands outside any sequence exactly where the
/// decoder has nothing pending; where the decoder holds back an unfinished
/// sequence, the scanner stands within that sequence, at the place that the
/// pending bytes have reached.
pub proof fn lemma_scan_agrees_with_decoder(buf: Seq<u8>)
    ensures
        scan(TelnetState::Normal, buf) == state_within(pending_of(buf)),
    decreases buf.len(),
{
    reveal_with_fuel(scan, 4);
    match spec_decode(buf) {
        Some((frame, n)) => {
            lemma_decode_progress(buf);
            lemma_literal_run(buf);
            let head = buf.take(n as int);
            let rest = buf.skip(n as int);
            assert(head + rest =~= buf);
            lemma_scan_concat(TelnetState::Normal, head, rest);
            lemma_scan_agrees_with_decoder(rest);
            if buf[0] != IAC {
                assert forall|i: int| 0 <= i < head.len() implies head[i] != IAC by {
                    assert(head[i] == buf[i]);
                }
                lemma_scan_plain(head);
            } else {
                assert(head[0] == buf[0] && head[1] == buf[1]);
                assert(head.skip(1)[0] == head[1]);
                if n == 2 {
                    assert(head.skip(1).skip(1) =~= Seq::<u8>::empty());
                } else {
                    let body = buf.skip(3);
                    assert(head.skip(1).skip(1)[0] == head[2]);
                    assert(head.skip(1).skip(1).skip(1) =~= body.take(n - 3));
                    if buf[1] == SB {
                        lemma_scan_body_bounds(body);
                        lemma_scan_body_complete(body);
                    }
                }
            }
            assert(scan(TelnetState::Normal, head) == TelnetState::Normal);
        },
        None => {
            if buf.len() == 1 {
                assert(buf.skip(1) =~= Seq::<u8>::empty());
            } else if buf.len() >= 2 {
                assert(buf.skip(1)[0] == buf[1]);
                if buf.len() == 2 {
                    assert(buf.skip(1).skip(1) =~= Seq::<u8>::empty());
                } else {
                    assert(buf[1] == SB);
                    assert(buf.skip(1).skip(1)[0] == buf[2]);
                    assert(buf.skip(1).skip(1).skip(1) =~= buf.skip(3));
                    lemma_scan_body_pending(buf.skip(3));
                }
            }
        },
    }
}

} // verus!
