//! The decoder on a whole stream: all the frames of a buffer, what stays
//! pending, and why it does not matter where the reads cut the stream.

use vstd::prelude::*;
use crate::decoder::{
    lemma_decode_progress,
    lemma_literal_run,
    literal_run,
    scan_body,
    spec_decode,
};
use crate::frame::{FrameView, IAC, SB, SE};

verus! {

/// All the frames that can be taken off the front of `buf`, one after the
/// other, and the bytes that stay pending after the last of them.
pub open spec fn spec_decode_all(buf: Seq<u8>) -> (Seq<FrameView>, Seq<u8>)
    decreases buf.len(),
{
    match spec_decode(buf) {
        Some((frame, n)) => {
            proof {
                lemma_decode_progress(buf);
            }
            let (frames, pending) = spec_decode_all(buf.skip(n as int));
            (seq![frame] + frames, pending)
        },
        None => (Seq::empty(), buf),
    }
}

/// The frames that `buf` holds in full.
pub open spec fn frames_of(buf: Seq<u8>) -> Seq<FrameView> {
    spec_decode_all(buf).0
}

/// The bytes of `buf` that follow its last complete frame.
pub open spec fn pending_of(buf: Seq<u8>) -> Seq<u8> {
    spec_decode_all(buf).1
}

/// Whether `frame` is a run of literal data bytes, that is data other than
/// the single byte of an escaped `IAC`.
pub open spec fn is_literal(frame: FrameView) -> bool {
    frame matches FrameView::Data(d) && d.len() > 0 && d[0] != IAC
}

/// The bytes of a data frame; of any other frame, nothing.
pub open spec fn data_of(frame: FrameView) -> Seq<u8> {
    match frame {
        FrameView::Data(d) => d,
        _ => Seq::empty(),
    }
}

/// The frames `first` followed by the frames `second`, where a run of literal
/// data that ends `first` and a run that begins `second` count as one run.
pub open spec fn stitch(first: Seq<FrameView>, second: Seq<FrameView>) -> Seq<FrameView> {
    if first.len() > 0 && second.len() > 0 && is_literal(first.last()) && is_literal(second[0]) {
        first.drop_last() + seq![FrameView::Data(data_of(first.last()) + data_of(second[0]))]
            + second.skip(1)
    } else {
        first + second
    }
}

/// Whether a cut of the stream into `a` and `b` falls inside a run of literal
/// data: `a` ends with such a run and `b` goes on with it.
pub open spec fn cut_inside_data(a: Seq<u8>, b: Seq<u8>) -> bool {
    let first = frames_of(a);
    let second = frames_of(pending_of(a) + b);
    first.len() > 0 && second.len() > 0 && is_literal(first.last()) && is_literal(second[0])
}

/// What stays pending holds no complete frame, every frame is well formed,
/// and the frames and the pending bytes together account for every byte of
/// the buffer: the pending bytes are its tail.
pub proof fn lemma_decode_all_pending(buf: Seq<u8>)
    ensures
        spec_decode(pending_of(buf)) is None,
        pending_of(buf).len() <= buf.len(),
        pending_of(buf) == buf.skip(buf.len() - pending_of(buf).len()),
        forall|i: int| 0 <= i < frames_of(buf).len() ==> (#[trigger] frames_of(buf)[i]).well_formed(),
    decreases buf.len(),
{
    match spec_decode(buf) {
        Some((frame, n)) => {
            lemma_decode_progress(buf);
            let rest = buf.skip(n as int);
            lemma_decode_all_pending(rest);
            assert(rest.skip(rest.len() - pending_of(rest).len()) =~= buf.skip(
                buf.len() - pending_of(rest).len(),
            ));
            assert forall|i: int| 0 <= i < frames_of(buf).len() implies (#[trigger] frames_of(
                buf,
            )[i]).well_formed() by {
                if i > 0 {
                    assert(frames_of(buf)[i] == frames_of(rest)[i - 1]);
                }
            }
        },
        None => {
            assert(buf.skip(0) =~= buf);
        },
    }
}

/// The literal run of a concatenation: it ends where the run of the first
/// part ends, unless that part is literal throughout, in which case it goes on
/// into the second part.
pub proof fn lemma_literal_run_concat(a: Seq<u8>, b: Seq<u8>)
    ensures
        literal_run(a + b) == if literal_run(a) < a.len() {
            literal_run(a)
        } else {
            a.len() + literal_run(b)
        },
    decreases a.len(),
{
    lemma_literal_run(a);
    if a.len() == 0 {
        assert(a + b =~= b);
    } else if a[0] == IAC {
        assert((a + b)[0] == IAC);
    } else {
        assert((a + b)[0] == a[0]);
        assert((a + b).skip(1) =~= a.skip(1) + b);
        lemma_literal_run(a.skip(1));
        lemma_literal_run_concat(a.skip(1), b);
    }
}

/// A subnegotiation body that is complete stays what it is when more bytes
/// follow.
pub proof fn lemma_scan_body_stable(body: Seq<u8>, more: Seq<u8>)
    requires
        scan_body(body) is Some,
    ensures
        scan_body(body + more) == scan_body(body),
    decreases body.len(),
{
    assert((body + more)[0] == body[0]);
    if body[0] != IAC {
        assert((body + more).skip(1) =~= body.skip(1) + more);
        lemma_scan_body_stable(body.skip(1), more);
    } else {
        assert((body + more)[1] == body[1]);
        if body[1] != SE {
            assert((body + more).skip(2) =~= body.skip(2) + more);
            lemma_scan_body_stable(body.skip(2), more);
        }
    }
}

/// No speculative parsing: a frame that has been decoded stays the first
/// frame when more bytes follow. The one frame that more bytes can change is
/// a run of literal data that reaches the end of the buffer, which more
/// literal bytes make longer.
pub proof fn lemma_decode_stable(a: Seq<u8>, b: Seq<u8>)
    requires
        spec_decode(a) is Some,
        a[0] == IAC || literal_run(a) < a.len() || b.len() == 0 || b[0] == IAC,
    ensures
        spec_decode(a + b) == spec_decode(a),
{
    lemma_decode_progress(a);
    assert((a + b)[0] == a[0]);
    if a[0] != IAC {
        lemma_literal_run(a);
        lemma_literal_run_concat(a, b);
        let n = literal_run(a);
        if n == a.len() && b.len() > 0 {
            assert(literal_run(b) == 0);
        }
        assert(literal_run(a + b) == n);
        assert((a + b).take(n as int) =~= a.take(n as int));
    } else {
        assert((a + b)[1] == a[1]);
        if a.len() >= 3 {
            assert((a + b)[2] == a[2]);
        }
        if a[1] == SB {
            assert((a + b).skip(3) =~= a.skip(3) + b);
            lemma_scan_body_stable(a.skip(3), b);
        }
    }
}

/// A frame that begins with `IAC` is no run of literal data.
proof fn lemma_control_is_not_literal(buf: Seq<u8>)
    requires
        buf.len() > 0,
        buf[0] == IAC,
    ensures
        frames_of(buf).len() > 0 ==> !is_literal(frames_of(buf)[0]),
{
    if let Some((frame, n)) = spec_decode(buf) {
        assert(seq![IAC][0] == IAC);
        assert(frames_of(buf)[0] == frame);
    }
}

/// Split-invariance, for every cut. Let the stream `a + b` arrive in two
/// reads: `a` is decoded as far as it goes, and `b` is appended to what `a`
/// left pending and decoded in turn. The frames of the two reads, stitched at
/// the cut, are the frames of the whole stream, and the same bytes stay
/// pending. Nothing but a run of literal data is ever affected by the cut, and
/// such a run only by coming in two pieces.
pub proof fn lemma_split_stitch(a: Seq<u8>, b: Seq<u8>)
    ensures
        frames_of(a + b) == stitch(frames_of(a), frames_of(pending_of(a) + b)),
        pending_of(a + b) == pending_of(pending_of(a) + b),
    decreases a.len(),
{
    let second = frames_of(pending_of(a) + b);
    match spec_decode(a) {
        None => {
            assert(frames_of(a) + second =~= second);
        },
        Some((frame, n)) => {
            lemma_decode_progress(a);
            lemma_literal_run(a);
            let rest = a.skip(n as int);
            if a[0] == IAC || literal_run(a) < a.len() || b.len() == 0 || b[0] == IAC {
                lemma_decode_stable(a, b);
                assert((a + b).skip(n as int) =~= rest + b);
                lemma_split_stitch(rest, b);
                let inner = frames_of(rest);
                assert(frames_of(a) == seq![frame] + inner);
                assert(pending_of(a) == pending_of(rest));
                assert(frames_of(a + b) == seq![frame] + stitch(inner, second));
                if inner.len() > 0 {
                    assert(frames_of(a).last() == inner.last());
                    assert(frames_of(a).drop_last() =~= seq![frame] + inner.drop_last());
                } else {
                    assert(spec_decode(rest) is None);
                    assert(pending_of(a) == rest);
                    assert(frames_of(a) =~= seq![frame]);
                    if is_literal(frame) && second.len() > 0 {
                        if rest.len() > 0 {
                            assert(rest[0] == a[n as int]);
                            assert((rest + b)[0] == IAC);
                            lemma_control_is_not_literal(rest + b);
                        } else {
                            assert(rest + b =~= b);
                            if b.len() > 0 {
                                lemma_control_is_not_literal(b);
                            }
                        }
                    }
                    assert(inner + second =~= second);
                }
                assert(seq![frame] + stitch(inner, second) =~= stitch(frames_of(a), second));
            } else {
                let k = literal_run(b);
                lemma_literal_run(b);
                lemma_literal_run_concat(a, b);
                lemma_decode_progress(b);
                assert(a.take(n as int) =~= a);
                assert(rest =~= Seq::<u8>::empty());
                assert(frames_of(rest) =~= Seq::<FrameView>::empty());
                assert(frames_of(a) =~= seq![FrameView::Data(a)]);
                assert(pending_of(a) + b =~= b);
                assert((a + b)[0] == a[0]);
                assert((a + b).take((n + k) as int) =~= a + b.take(k as int));
                assert((a + b).skip((n + k) as int) =~= b.skip(k as int));
                assert(second == seq![FrameView::Data(b.take(k as int))] + frames_of(
                    b.skip(k as int),
                ));
                assert(second.skip(1) =~= frames_of(b.skip(k as int)));
                assert(frames_of(a).drop_last() =~= Seq::<FrameView>::empty());
                assert(frames_of(a + b) =~= stitch(frames_of(a), second));
            }
        },
    }
}

/// Split-invariance. However a stream is cut into two reads, decoding the
/// first read and then the second, with what the first left pending carried
/// over, yields the frames of the whole stream in the same order, and leaves
/// the same bytes pending.
///
/// The one cut left out is a cut inside a run of literal data: the bytes
/// before it have gone out as a data frame of their own by the time the bytes
/// after it arrive ([`lemma_split_stitch`] says what holds there).
pub proof fn lemma_split_invariance(a: Seq<u8>, b: Seq<u8>)
    requires
        !cut_inside_data(a, b),
    ensures
        frames_of(a + b) == frames_of(a) + frames_of(pending_of(a) + b),
        pending_of(a + b) == pending_of(pending_of(a) + b),
{
    lemma_split_stitch(a, b);
}

} // verus!
