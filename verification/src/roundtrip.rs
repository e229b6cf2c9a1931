//! Encoding and decoding are inverse to each other: what is written to the
//! wire as a frame is read from it as that frame.

use vstd::prelude::*;
use crate::decoder::{
    lemma_literal_run,
    lemma_literal_run_unique,
    lemma_scan_body_bounds,
    literal_run,
    scan_body,
    spec_decode,
};
use crate::frame::{
    escape,
    is_unknown_command,
    is_verb,
    lemma_escape_concat,
    lemma_escape_single,
    FrameView,
    IAC,
    SB,
    SE,
};
use crate::stream::{data_of, frames_of, lemma_literal_run_concat, pending_of};

verus! {

/// Whether `data` holds no `IAC` byte.
pub open spec fn is_plain(data: Seq<u8>) -> bool {
    forall|i: int| 0 <= i < data.len() ==> data[i] != IAC
}

/// The data bytes that `frames` carry, in order. Frames other than data add
/// nothing.
pub open spec fn payload(frames: Seq<FrameView>) -> Seq<u8>
    decreases frames.len(),
{
    if frames.len() == 0 {
        Seq::empty()
    } else {
        data_of(frames[0]) + payload(frames.skip(1))
    }
}

/// Bytes without an `IAC` need no escaping.
pub proof fn lemma_escape_plain(data: Seq<u8>)
    requires
        is_plain(data),
    ensures
        escape(data) == data,
    decreases data.len(),
{
    if data.len() > 0 {
        let rest = data.skip(1);
        assert forall|i: int| 0 <= i < rest.len() implies rest[i] != IAC by {
            assert(rest[i] == data[i + 1]);
        }
        lemma_escape_plain(rest);
        assert(seq![data[0]] + rest =~= data);
    } else {
        assert(data =~= Seq::<u8>::empty());
    }
}

/// A byte sequence that is not empty and holds no `IAC` decodes to a single
/// data frame equal to the input, and nothing stays pending.
pub proof fn lemma_plain_data_decodes_whole(data: Seq<u8>)
    requires
        data.len() > 0,
        is_plain(data),
    ensures
        spec_decode(data) == Some((FrameView::Data(data), data.len())),
        frames_of(data) == seq![FrameView::Data(data)],
        pending_of(data) == Seq::<u8>::empty(),
{
    lemma_literal_run_unique(data, data.len());
    assert(data.take(data.len() as int) =~= data);
    let rest = data.skip(data.len() as int);
    assert(rest =~= Seq::<u8>::empty());
    assert(frames_of(rest) =~= Seq::<FrameView>::empty());
    assert(frames_of(data) =~= seq![FrameView::Data(data)]);
}

/// The escaped literal: a data frame of the one byte `0xFF` goes over the
/// wire as `IAC IAC` and is read back as the same frame.
pub proof fn lemma_escaped_iac_round_trip()
    ensures
        FrameView::Data(seq![IAC]).wire() == seq![IAC, IAC],
        spec_decode(FrameView::Data(seq![IAC]).wire()) == Some((FrameView::Data(seq![IAC]), 2nat)),
{
    lemma_escape_single(IAC);
}

/// An escaped payload followed by `IAC SE` scans back to the payload,
/// whatever comes after.
pub proof fn lemma_scan_escaped(payload: Seq<u8>, more: Seq<u8>)
    ensures
        scan_body(escape(payload) + seq![IAC, SE] + more) == Some(
            (payload, escape(payload).len() + 2),
        ),
    decreases payload.len(),
{
    let body = escape(payload) + seq![IAC, SE] + more;
    if payload.len() == 0 {
        assert(body[0] == IAC && body[1] == SE);
        assert(payload =~= Seq::<u8>::empty());
    } else {
        let rest = payload.skip(1);
        lemma_scan_escaped(rest, more);
        let tail = escape(rest) + seq![IAC, SE] + more;
        assert(body[0] == payload[0]);
        assert(seq![payload[0]] + rest =~= payload);
        if payload[0] == IAC {
            assert(body[1] == IAC);
            assert(body.skip(2) =~= tail);
        } else {
            assert(body.skip(1) =~= tail);
        }
    }
}

/// Whether `frame` is read back as one frame whatever follows it on the wire:
/// every well-formed frame but a run of literal data, which the bytes that
/// come next may continue, and but data that holds an `IAC` beside other
/// bytes, which comes back in pieces.
pub open spec fn is_self_delimiting(frame: FrameView) -> bool {
    match frame {
        FrameView::Command(_) => true,
        FrameView::Data(d) => d == seq![IAC],
        FrameView::Subnegotiation(_, _) => true,
        FrameView::UnknownCommand(b) => is_unknown_command(b),
    }
}

/// Round trip: a frame written to the wire is the first frame read from it,
/// and reading it takes up exactly the bytes that were written, whatever
/// bytes follow.
pub proof fn lemma_round_trip(frame: FrameView, more: Seq<u8>)
    requires
        is_self_delimiting(frame),
    ensures
        spec_decode(frame.wire() + more) == Some((frame, frame.wire().len())),
{
    let wire = frame.wire();
    let buf = wire + more;
    lemma_escape_single(IAC);
    assert(buf[0] == wire[0] && buf[1] == wire[1]);
    match frame {
        FrameView::Command(c) => {
            assert(buf[2] == wire[2]);
        },
        FrameView::Subnegotiation(o, p) => {
            assert(buf[2] == o);
            assert(buf.skip(3) =~= escape(p) + seq![IAC, SE] + more);
            lemma_scan_escaped(p, more);
        },
        _ => {},
    }
}

/// Round trip of a run of literal data: it is read back as one frame where
/// the wire ends after it or goes on with an `IAC`.
pub proof fn lemma_round_trip_plain(data: Seq<u8>, more: Seq<u8>)
    requires
        data.len() > 0,
        is_plain(data),
        more.len() == 0 || more[0] == IAC,
    ensures
        FrameView::Data(data).wire() == data,
        spec_decode(data + more) == Some((FrameView::Data(data), data.len())),
{
    lemma_escape_plain(data);
    lemma_literal_run_unique(data, data.len());
    lemma_literal_run_concat(data, more);
    assert((data + more)[0] == data[0]);
    assert((data + more).take(data.len() as int) =~= data);
}

/// Round trip of user data: whatever bytes are escaped and written to the
/// wire, the frames read from it are data frames that carry the same bytes
/// in the same order, and nothing stays pending.
pub proof fn lemma_data_round_trip(data: Seq<u8>)
    ensures
        payload(frames_of(escape(data))) == data,
        pending_of(escape(data)) == Seq::<u8>::empty(),
        forall|i: int|
            0 <= i < frames_of(escape(data)).len() ==> #[trigger] frames_of(escape(data))[i] is Data,
    decreases data.len(),
{
    let wire = escape(data);
    if data.len() == 0 {
        assert(payload(frames_of(wire)) =~= data);
    } else {
        let k: nat = if data[0] == IAC {
            1
        } else {
            literal_run(data)
        };
        lemma_literal_run(data);
        let head = data.take(k as int);
        let tail = data.skip(k as int);
        assert(head + tail =~= data);
        lemma_escape_concat(head, tail);
        lemma_data_round_trip(tail);
        let used: nat = if data[0] == IAC {
            2
        } else {
            k
        };
        let frame = FrameView::Data(head);
        if data[0] == IAC {
            assert(head =~= seq![IAC]);
            lemma_escape_single(IAC);
            assert(wire[0] == IAC && wire[1] == IAC);
        } else {
            assert forall|i: int| 0 <= i < head.len() implies head[i] != IAC by {
                assert(head[i] == data[i]);
            }
            lemma_escape_plain(head);
            lemma_literal_run_unique(head, k);
            lemma_literal_run_concat(head, escape(tail));
            if tail.len() > 0 {
                assert(tail[0] == data[k as int]);
                assert(escape(tail)[0] == IAC);
            }
            assert(literal_run(escape(tail)) == 0);
            assert(wire[0] == data[0]);
            assert(wire.take(k as int) =~= head);
        }
        assert(spec_decode(wire) == Some((frame, used)));
        assert(wire.skip(used as int) =~= escape(tail));
        let rest = frames_of(escape(tail));
        assert(frames_of(wire) == seq![frame] + rest);
        assert(frames_of(wire).skip(1) =~= rest);
        assert(payload(frames_of(wire)) =~= head + payload(rest));
        assert forall|i: int| 0 <= i < frames_of(wire).len() implies #[trigger] frames_of(
            wire,
        )[i] is Data by {
            if i > 0 {
                assert(frames_of(wire)[i] == rest[i - 1]);
            }
        }
    }
}

/// Whether a subnegotiation body is escaped as the wire format asks: up to
/// the closing `IAC SE`, every `IAC` in it is followed by a second `IAC`.
pub open spec fn well_escaped(body: Seq<u8>) -> bool
    decreases body.len(),
{
    if body.len() < 2 {
        true
    } else if body[0] != IAC {
        well_escaped(body.skip(1))
    } else if body[1] == SE {
        true
    } else if body[1] == IAC {
        well_escaped(body.skip(2))
    } else {
        false
    }
}

/// The payload of a well-escaped body, escaped again and closed with
/// `IAC SE`, is the bytes that were scanned.
pub proof fn lemma_scan_lossless(body: Seq<u8>)
    requires
        scan_body(body) is Some,
        well_escaped(body),
    ensures
        scan_body(body) matches Some((payload, n)) && escape(payload) + seq![IAC, SE] == body.take(
            n as int,
        ),
    decreases body.len(),
{
    lemma_scan_body_bounds(body);
    let (payload, n) = scan_body(body).unwrap();
    if body[0] == IAC && body[1] == SE {
        assert(escape(payload) + seq![IAC, SE] =~= body.take(2));
    } else {
        let used: int = if body[0] == IAC {
            2
        } else {
            1
        };
        let rest = body.skip(used);
        lemma_scan_lossless(rest);
        let (inner, m) = scan_body(rest).unwrap();
        let kept = body.take(used);
        assert(payload.skip(1) =~= inner);
        assert(body.take(n as int) =~= kept + rest.take(m as int));
        assert(escape(payload) + seq![IAC, SE] =~= kept + (escape(inner) + seq![IAC, SE]));
    }
}

/// Nothing is lost and nothing is made up: a decoded frame, written to the
/// wire again, is the very bytes it was decoded from. This holds of every
/// frame but a subnegotiation whose body was not escaped as the wire format
/// asks; there the payload still holds every byte of the body.
pub proof fn lemma_decode_lossless(buf: Seq<u8>)
    requires
        spec_decode(buf) is Some,
        buf[0] == IAC && buf[1] == SB ==> well_escaped(buf.skip(3)),
    ensures
        spec_decode(buf) matches Some((frame, n)) && frame.wire() == buf.take(n as int),
{
    let (frame, n) = spec_decode(buf).unwrap();
    if buf[0] != IAC {
        lemma_literal_run(buf);
        let data = buf.take(n as int);
        assert forall|i: int| 0 <= i < data.len() implies data[i] != IAC by {
            assert(data[i] == buf[i]);
        }
        lemma_escape_plain(data);
    } else if buf[1] == IAC {
        lemma_escape_single(IAC);
        assert(buf.take(2) =~= seq![IAC, IAC]);
    } else if buf[1] == SB {
        let body = buf.skip(3);
        lemma_scan_body_bounds(body);
        lemma_scan_lossless(body);
        let (payload, m) = scan_body(body).unwrap();
        assert(buf.take(n as int) =~= seq![IAC, SB, buf[2]] + body.take(m as int));
        assert(frame.wire() =~= seq![IAC, SB, buf[2]] + (escape(payload) + seq![IAC, SE]));
    } else if is_verb(buf[1]) {
        assert(frame.wire() =~= buf.take(3));
    } else {
        assert(frame.wire() =~= buf.take(2));
    }
}

} // verus!
