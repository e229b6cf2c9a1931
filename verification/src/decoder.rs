//! Framing: what the first frame at the front of a byte buffer is, and how many
//! bytes it takes up.
//!
//! A buffer may end anywhere, also in the middle of a control sequence. The
//! decoder never guesses: a frame is produced only from bytes that are all
//! there, and a buffer that ends inside a sequence is reported as pending.

use vstd::prelude::*;
use crate::frame::{is_verb, is_verb_byte, FrameView, TelnetCommand, TelnetFrame, IAC, SB, SE};

verus! {

/// The number of bytes at the front of `buf` before the first `IAC`, or the
/// length of `buf` when it holds none.
pub open spec fn literal_run(buf: Seq<u8>) -> nat
    decreases buf.len(),
{
    if buf.len() == 0 || buf[0] == IAC {
        0
    } else {
        1 + literal_run(buf.skip(1))
    }
}

/// `literal_run(buf)` is the place of the first `IAC` in `buf`.
pub proof fn lemma_literal_run(buf: Seq<u8>)
    ensures
        literal_run(buf) <= buf.len(),
        forall|i: int| 0 <= i < literal_run(buf) ==> buf[i] != IAC,
        literal_run(buf) < buf.len() ==> buf[literal_run(buf) as int] == IAC,
    decreases buf.len(),
{
    if buf.len() == 0 || buf[0] == IAC {
    } else {
        let rest = buf.skip(1);
        lemma_literal_run(rest);
        assert forall|i: int| 0 <= i < literal_run(buf) implies buf[i] != IAC by {
            if i > 0 {
                assert(buf[i] == rest[i - 1]);
            }
        }
        if literal_run(buf) < buf.len() {
            assert(buf[literal_run(buf) as int] == rest[literal_run(rest) as int]);
        }
    }
}

/// Only one length is the place of the first `IAC`.
pub proof fn lemma_literal_run_unique(buf: Seq<u8>, n: nat)
    requires
        n <= buf.len(),
        forall|i: int| 0 <= i < n ==> buf[i] != IAC,
        n < buf.len() ==> buf[n as int] == IAC,
    ensures
        literal_run(buf) == n,
    decreases buf.len(),
{
    if n == 0 {
    } else {
        let rest = buf.skip(1);
        assert(buf[0] != IAC);
        assert forall|i: int| 0 <= i < n - 1 implies rest[i] != IAC by {
            assert(rest[i] == buf[i + 1]);
        }
        if n - 1 < rest.len() {
            assert(rest[n - 1] == buf[n as int]);
        }
        lemma_literal_run_unique(rest, (n - 1) as nat);
    }
}

/// What a scan hands on when `kept` payload bytes, read from `used` bytes of
/// the wire, stand before what the rest of the scan found.
pub open spec fn prepend(kept: Seq<u8>, used: nat, rest: Option<(Seq<u8>, nat)>) -> Option<
    (Seq<u8>, nat),
> {
    match rest {
        Some((payload, n)) => Some((kept + payload, used + n)),
        None => None,
    }
}

/// Scans the body of a subnegotiation, that is what follows `IAC SB option`.
///
/// Gives the unescaped payload and the number of bytes up to and including the
/// closing `IAC SE`, or `None` while that pair has not arrived. Within the
/// body `IAC IAC` stands for one payload byte `0xFF`; an `IAC` before any byte
/// other than `IAC` and `SE` closes nothing, and both bytes are payload.
pub open spec fn scan_body(body: Seq<u8>) -> Option<(Seq<u8>, nat)>
    decreases body.len(),
{
    if body.len() == 0 {
        None
    } else if body[0] != IAC {
        prepend(seq![body[0]], 1, scan_body(body.skip(1)))
    } else if body.len() < 2 {
        None
    } else if body[1] == SE {
        Some((Seq::empty(), 2))
    } else if body[1] == IAC {
        prepend(seq![IAC], 2, scan_body(body.skip(2)))
    } else {
        prepend(seq![IAC, body[1]], 2, scan_body(body.skip(2)))
    }
}

/// A finished scan has read at least the closing pair and nothing beyond the
/// body, and the closing pair stands at the end of what it read.
pub proof fn lemma_scan_body_bounds(body: Seq<u8>)
    ensures
        scan_body(body) matches Some((payload, n)) ==> {
            &&& 2 <= n <= body.len()
            &&& body[n - 2] == IAC
            &&& body[n - 1] == SE
            &&& payload.len() <= n - 2
        },
    decreases body.len(),
{
    if body.len() == 0 {
    } else if body[0] != IAC {
        let rest = body.skip(1);
        lemma_scan_body_bounds(rest);
        if let Some((payload, n)) = scan_body(rest) {
            assert(body[n + 1 - 2] == rest[n - 2]);
            assert(body[n + 1 - 1] == rest[n - 1]);
        }
    } else if body.len() < 2 {
    } else if body[1] == SE {
    } else {
        let rest = body.skip(2);
        lemma_scan_body_bounds(rest);
        if let Some((payload, n)) = scan_body(rest) {
            assert(body[n + 2 - 2] == rest[n - 2]);
            assert(body[n + 2 - 1] == rest[n - 1]);
        }
    }
}

/// The first frame of `buf` and the number of bytes it takes up, or `None`
/// when `buf` is empty or ends inside a control sequence.
///
/// - A buffer that does not begin with `IAC` begins with data: the frame is the
///   run of bytes up to the first `IAC`, or up to the end.
/// - `IAC IAC` is one data byte `0xFF`.
/// - `IAC SB option body` is a subnegotiation once its closing `IAC SE` is
///   there.
/// - `IAC verb option` is a negotiation command.
/// - `IAC` before any other byte is an unknown command of two bytes.
pub open spec fn spec_decode(buf: Seq<u8>) -> Option<(FrameView, nat)> {
    if buf.len() == 0 {
        None
    } else if buf[0] != IAC {
        let n = literal_run(buf);
        Some((FrameView::Data(buf.take(n as int)), n))
    } else if buf.len() < 2 {
        None
    } else if buf[1] == IAC {
        Some((FrameView::Data(seq![IAC]), 2))
    } else if buf[1] == SB {
        if buf.len() < 3 {
            None
        } else {
            match scan_body(buf.skip(3)) {
                Some((payload, n)) => Some((FrameView::Subnegotiation(buf[2], payload), 3 + n)),
                None => None,
            }
        }
    } else if is_verb(buf[1]) {
        if buf.len() < 3 {
            None
        } else {
            Some((FrameView::Command(TelnetCommand::spec_from_bytes(buf[1], buf[2])), 3))
        }
    } else {
        Some((FrameView::UnknownCommand(buf[1]), 2))
    }
}

/// Decoding makes progress and stays within the buffer: a frame takes up at
/// least one byte and no more than there are, and it is well formed.
pub proof fn lemma_decode_progress(buf: Seq<u8>)
    ensures
        spec_decode(buf) matches Some((frame, n)) ==> 0 < n <= buf.len() && frame.well_formed(),
{
    if buf.len() > 0 {
        if buf[0] != IAC {
            lemma_literal_run(buf);
        } else if buf.len() >= 3 && buf[1] == SB {
            lemma_scan_body_bounds(buf.skip(3));
        }
    }
}

/// A pending buffer begins with `IAC`: data is never held back.
pub proof fn lemma_pending_starts_with_iac(buf: Seq<u8>)
    requires
        buf.len() > 0,
        spec_decode(buf) is None,
    ensures
        buf[0] == IAC,
{
}

/// Reads the body of a subnegotiation that begins at `buf[start]`.
fn parse_body(buf: &[u8], start: usize) -> (r: Option<(Vec<u8>, usize)>)
    requires
        start <= buf.len(),
    ensures
        match scan_body(buf@.skip(start as int)) {
            Some((payload, n)) => r matches Some((p, used)) && p@ == payload && used == n,
            None => r is None,
        },
{
    let ghost body = buf@.skip(start as int);
    let mut payload: Vec<u8> = Vec::new();
    let mut i: usize = start;
    while i < buf.len()
        invariant
            start <= i <= buf.len(),
            body == buf@.skip(start as int),
            scan_body(body) == prepend(payload@, (i - start) as nat, scan_body(buf@.skip(i as int))),
        decreases buf.len() - i,
    {
        let ghost here = buf@.skip(i as int);
        let ghost before = payload@;
        assert(here.len() == buf.len() - i);
        assert(here[0] == buf[i as int]);
        if buf[i] != IAC {
            payload.push(buf[i]);
            proof {
                assert(here.skip(1) =~= buf@.skip(i + 1));
                let rest = scan_body(buf@.skip(i + 1));
                if let Some((p, n)) = rest {
                    assert(before + (seq![buf[i as int]] + p) =~= payload@ + p);
                }
            }
            i += 1;
        } else if buf.len() - i < 2 {
            return None;
        } else {
            assert(here[1] == buf[i + 1]);
            let next = buf[i + 1];
            if next == SE {
                proof {
                    assert(before + Seq::<u8>::empty() =~= before);
                }
                return Some((payload, i - start + 2));
            }
            payload.push(IAC);
            if next != IAC {
                payload.push(next);
            }
            proof {
                assert(here.skip(2) =~= buf@.skip(i + 2));
                let rest = scan_body(buf@.skip(i + 2));
                if let Some((p, n)) = rest {
                    if next == IAC {
                        assert(before + (seq![IAC] + p) =~= payload@ + p);
                    } else {
                        assert(before + (seq![IAC, next] + p) =~= payload@ + p);
                    }
                }
            }
            i += 2;
        }
    }
    assert(buf@.skip(i as int).len() == 0);
    None
}

/// Cuts the first frame off the front of `buf`: the frame and the number of
/// bytes it takes up, or `None` when `buf` holds no complete frame yet.
pub fn parse_frame(buf: &[u8]) -> (r: Option<(TelnetFrame, usize)>)
    ensures
        match spec_decode(buf@) {
            Some((frame, n)) => r matches Some((f, used)) && f@ == frame && used == n,
            None => r is None,
        },
{
    let len = buf.len();
    if len == 0 {
        return None;
    }
    if buf[0] != IAC {
        let mut data: Vec<u8> = Vec::new();
        let mut i: usize = 0;
        while i < len && buf[i] != IAC
            invariant
                len == buf.len(),
                i <= len,
                data@ == buf@.take(i as int),
                forall|j: int| 0 <= j < i ==> buf[j] != IAC,
            decreases len - i,
        {
            data.push(buf[i]);
            i += 1;
            assert(data@ =~= buf@.take(i as int));
        }
        proof {
            lemma_literal_run_unique(buf@, i as nat);
        }
        return Some((TelnetFrame::Data(data), i));
    }
    if len < 2 {
        return None;
    }
    let second = buf[1];
    if second == IAC {
        let mut data: Vec<u8> = Vec::new();
        data.push(IAC);
        assert(data@ =~= seq![IAC]);
        return Some((TelnetFrame::Data(data), 2));
    }
    if second == SB {
        if len < 3 {
            return None;
        }
        return match parse_body(buf, 3) {
            Some((payload, used)) => {
                proof {
                    lemma_scan_body_bounds(buf@.skip(3));
                }
                Some((TelnetFrame::Subnegotiation(buf[2], payload), 3 + used))
            },
            None => None,
        };
    }
    if !is_verb_byte(second) {
        return Some((TelnetFrame::UnknownCommand(second), 2));
    }
    if len < 3 {
        return None;
    }
    Some((TelnetFrame::Command(TelnetCommand::with_verb(second, buf[2])), 3))
}

} // verus!
