//! The state of one connection: the bytes that wait for the rest of their
//! frame, and the options. It takes what a read brought, and gives the frames
//! for the application and the bytes to write back.

use vstd::prelude::*;
use bytes::BytesMut;
use crate::codec::{buffered, TelnetCodec};
use crate::decoder::{lemma_decode_progress, spec_decode};
use crate::frame::{escape, escape_into, FrameView, TelnetCommand, TelnetFrame};
use crate::negotiation::{Action, ActionView, Negotiation, OptionState, OptionTable};
use crate::stream::{data_of, frames_of, is_literal, lemma_split_stitch, pending_of, stitch};

verus! {

/// The mathematical values of a list of frames.
pub open spec fn frames_view(frames: Seq<TelnetFrame>) -> Seq<FrameView> {
    frames.map_values(|f: TelnetFrame| f@)
}

/// The frames for the application with one more: data that follows data is
/// joined to it, so that data never comes in more pieces than the reads cut it
/// into; any other frame is appended.
pub open spec fn deliver(forwarded: Seq<FrameView>, frame: FrameView) -> Seq<FrameView> {
    if frame is Data && forwarded.len() > 0 && forwarded.last() is Data {
        forwarded.drop_last().push(FrameView::Data(data_of(forwarded.last()) + data_of(frame)))
    } else {
        forwarded.push(frame)
    }
}

/// What a run of frames has come to: the options after it, the frames for the
/// application, and the bytes to write back to the peer.
pub struct Outcome {
    /// The option table.
    pub options: OptionTable,
    /// The frames to hand to the application, in order.
    pub forwarded: Seq<FrameView>,
    /// The replies to write to the peer, encoded, in order.
    pub replies: Seq<u8>,
}

impl Outcome {
    /// The outcome before any frame: the given options, nothing to forward,
    /// nothing to write.
    pub open spec fn start(options: OptionTable) -> Outcome {
        Outcome { options, forwarded: Seq::empty(), replies: Seq::empty() }
    }

    /// The outcome after one more frame.
    pub open spec fn step(self, frame: FrameView) -> Outcome {
        let (options, action) = self.options.handle(frame);
        match action {
            ActionView::Nothing => Outcome { options, ..self },
            ActionView::Reply(reply) => Outcome {
                options,
                forwarded: self.forwarded,
                replies: self.replies + reply.spec_encode(),
            },
            ActionView::Forward(f) => Outcome {
                options,
                forwarded: deliver(self.forwarded, f),
                replies: self.replies,
            },
        }
    }

    /// The outcome after `frames`, handled in order.
    pub open spec fn run(self, frames: Seq<FrameView>) -> Outcome
        decreases frames.len(),
    {
        if frames.len() == 0 {
            self
        } else {
            self.step(frames[0]).run(frames.skip(1))
        }
    }
}

/// The mathematical value of a [`ConnectionState`].
pub struct ConnectionView {
    /// The bytes received that are not yet part of a complete frame.
    pub pending: Seq<u8>,
    /// The option table.
    pub options: OptionTable,
}

impl ConnectionView {
    /// A new connection: nothing pending, nothing negotiated, nothing
    /// supported.
    pub open spec fn initial() -> ConnectionView {
        ConnectionView { pending: Seq::empty(), options: OptionTable::initial() }
    }

    /// The connection after `input` has been read, the frames for the
    /// application, and the bytes to write back.
    ///
    /// The input is appended to what was pending. Every complete frame of the
    /// result is handled in order; what follows the last of them stays
    /// pending.
    pub open spec fn receive(self, input: Seq<u8>) -> (ConnectionView, Seq<FrameView>, Seq<u8>) {
        let stream = self.pending + input;
        let outcome = Outcome::start(self.options).run(frames_of(stream));
        (
            ConnectionView { pending: pending_of(stream), options: outcome.options },
            outcome.forwarded,
            outcome.replies,
        )
    }
}

/// The frames that two reads in a row handed to the application, as one
/// read of both would have handed them over: data that ends the first list
/// and data that begins the second are one run of data.
pub open spec fn join(first: Seq<FrameView>, second: Seq<FrameView>) -> Seq<FrameView> {
    if first.len() > 0 && second.len() > 0 && first.last() is Data && second[0] is Data {
        first.drop_last() + seq![FrameView::Data(data_of(first.last()) + data_of(second[0]))]
            + second.skip(1)
    } else {
        first + second
    }
}

/// Frames handled in two runs come to what they come to in one.
pub proof fn lemma_run_concat(outcome: Outcome, first: Seq<FrameView>, second: Seq<FrameView>)
    ensures
        outcome.run(first + second) == outcome.run(first).run(second),
    decreases first.len(),
{
    if first.len() == 0 {
        assert(first + second =~= second);
    } else {
        assert((first + second)[0] == first[0]);
        assert((first + second).skip(1) =~= first.skip(1) + second);
        lemma_run_concat(outcome.step(first[0]), first.skip(1), second);
    }
}

/// Data delivered in two pieces is data delivered in one.
proof fn lemma_deliver_pieces(forwarded: Seq<FrameView>, d: Seq<u8>, e: Seq<u8>)
    ensures
        deliver(deliver(forwarded, FrameView::Data(d)), FrameView::Data(e)) == deliver(
            forwarded,
            FrameView::Data(d + e),
        ),
{
    let once = deliver(forwarded, FrameView::Data(d));
    if forwarded.len() > 0 && forwarded.last() is Data {
        let p = data_of(forwarded.last());
        assert(once.drop_last() =~= forwarded.drop_last());
        assert((p + d) + e =~= p + (d + e));
    } else {
        assert(once.drop_last() =~= forwarded);
    }
}

/// To the state machine a run of literal data cut in two is the run.
proof fn lemma_run_stitch(outcome: Outcome, first: Seq<FrameView>, second: Seq<FrameView>)
    ensures
        outcome.run(stitch(first, second)) == outcome.run(first + second),
{
    if first.len() > 0 && second.len() > 0 && is_literal(first.last()) && is_literal(second[0]) {
        let d = data_of(first.last());
        let e = data_of(second[0]);
        let head = first.drop_last();
        let tail = second.skip(1);
        let whole = seq![FrameView::Data(d + e)];
        let pieces = seq![FrameView::Data(d), FrameView::Data(e)];
        assert(stitch(first, second) =~= (head + whole) + tail);
        assert(first + second =~= (head + pieces) + tail);
        lemma_run_concat(outcome, head + whole, tail);
        lemma_run_concat(outcome, head + pieces, tail);
        lemma_run_concat(outcome, head, whole);
        lemma_run_concat(outcome, head, pieces);
        let at = outcome.run(head);
        reveal_with_fuel(Outcome::run, 3);
        assert(whole.skip(1) =~= Seq::<FrameView>::empty());
        assert(pieces.skip(1) =~= seq![FrameView::Data(e)]);
        assert(pieces.skip(1).skip(1) =~= Seq::<FrameView>::empty());
        assert(at.run(whole) == at.step(FrameView::Data(d + e)));
        assert(at.run(pieces) == at.step(FrameView::Data(d)).step(FrameView::Data(e)));
        lemma_deliver_pieces(at.forwarded, d, e);
    }
}

/// Delivering a frame and then joining a list is joining the list that
/// begins with the frame.
proof fn lemma_join_deliver(forwarded: Seq<FrameView>, frame: FrameView, rest: Seq<FrameView>)
    ensures
        join(deliver(forwarded, frame), rest) == join(forwarded, join(seq![frame], rest)),
{
    let one = seq![frame];
    let after = deliver(forwarded, frame);
    let inner = join(one, rest);
    assert(one.drop_last() =~= Seq::<FrameView>::empty());
    let d = data_of(frame);
    let ends_in_data = forwarded.len() > 0 && forwarded.last() is Data;
    if frame is Data {
        if ends_in_data {
            assert(after.drop_last() =~= forwarded.drop_last());
        } else {
            assert(after.drop_last() =~= forwarded);
        }
    }
    if frame is Data && rest.len() > 0 && rest[0] is Data {
        let g = data_of(rest[0]);
        assert(inner =~= seq![FrameView::Data(d + g)] + rest.skip(1));
        assert(inner.skip(1) =~= rest.skip(1));
        if ends_in_data {
            let p = data_of(forwarded.last());
            assert((p + d) + g =~= p + (d + g));
        }
    } else {
        assert(inner =~= one + rest);
        assert(inner.skip(1) =~= rest);
    }
    assert(join(after, rest) =~= join(forwarded, inner));
}

/// A run that goes on from an earlier outcome adds to it what the same run
/// yields from a fresh start with the same options.
pub proof fn lemma_run_from(outcome: Outcome, frames: Seq<FrameView>)
    ensures
        outcome.run(frames) == (Outcome {
            options: Outcome::start(outcome.options).run(frames).options,
            forwarded: join(
                outcome.forwarded,
                Outcome::start(outcome.options).run(frames).forwarded,
            ),
            replies: outcome.replies + Outcome::start(outcome.options).run(frames).replies,
        }),
    decreases frames.len(),
{
    let fresh = Outcome::start(outcome.options);
    if frames.len() == 0 {
        assert(outcome.forwarded + fresh.forwarded =~= outcome.forwarded);
        assert(outcome.replies + fresh.replies =~= outcome.replies);
    } else {
        let frame = frames[0];
        let rest = frames.skip(1);
        let next = outcome.step(frame);
        let first = fresh.step(frame);
        lemma_run_from(next, rest);
        lemma_run_from(first, rest);
        let tail = Outcome::start(next.options).run(rest);
        assert(first.options == next.options);
        let (_, action) = outcome.options.handle(frame);
        if let ActionView::Forward(f) = action {
            assert(first.forwarded =~= seq![f]);
            lemma_join_deliver(outcome.forwarded, f, tail.forwarded);
        } else {
            assert(first.forwarded + tail.forwarded =~= tail.forwarded);
        }
        if action is Reply {
            assert(next.replies + tail.replies =~= outcome.replies + (first.replies
                + tail.replies));
        } else {
            assert(first.replies + tail.replies =~= tail.replies);
        }
    }
}

/// Split-invariance of a connection. However a stream is cut into two reads,
/// the connection ends in the same state as after one read of the whole
/// stream: the same bytes pending and every option in the same state. The
/// replies of the two reads, one after the other, are the replies of the
/// whole. The frames for the application are the same too, where data that
/// the cut has parted is taken as one run again.
pub proof fn lemma_receive_split(conn: ConnectionView, a: Seq<u8>, b: Seq<u8>)
    ensures
        conn.receive(a + b).0 == conn.receive(a).0.receive(b).0,
        conn.receive(a + b).1 == join(conn.receive(a).1, conn.receive(a).0.receive(b).1),
        conn.receive(a + b).2 == conn.receive(a).2 + conn.receive(a).0.receive(b).2,
{
    let first = conn.pending + a;
    let begin = Outcome::start(conn.options);
    let mid = conn.receive(a).0;
    let second = mid.pending + b;
    assert(conn.pending + (a + b) =~= first + b);
    lemma_split_stitch(first, b);
    lemma_run_stitch(begin, frames_of(first), frames_of(second));
    lemma_run_concat(begin, frames_of(first), frames_of(second));
    lemma_run_from(begin.run(frames_of(first)), frames_of(second));
}

/// The bytes of `reads`, one read after the other.
pub open spec fn stream_of(reads: Seq<Seq<u8>>) -> Seq<u8>
    decreases reads.len(),
{
    if reads.len() == 0 {
        Seq::empty()
    } else {
        stream_of(reads.drop_last()) + reads.last()
    }
}

/// The connection after `reads` have been taken one by one, the frames for
/// the application, joined from read to read, and the bytes to write back.
pub open spec fn receive_each(conn: ConnectionView, reads: Seq<Seq<u8>>) -> (
    ConnectionView,
    Seq<FrameView>,
    Seq<u8>,
)
    decreases reads.len(),
{
    if reads.len() == 0 {
        (conn, Seq::empty(), Seq::empty())
    } else {
        let (before, forwarded, replies) = receive_each(conn, reads.drop_last());
        let (after, more, answers) = before.receive(reads.last());
        (after, join(forwarded, more), replies + answers)
    }
}

/// Split-invariance for any number of cuts. Into however many reads a stream
/// is cut, and wherever, taking the reads one by one comes to what one read of
/// the whole stream comes to: the same state, the same replies, and the same
/// frames for the application once data that a cut has parted is joined.
pub proof fn lemma_receive_each(conn: ConnectionView, reads: Seq<Seq<u8>>)
    requires
        reads.len() > 0,
    ensures
        receive_each(conn, reads) == conn.receive(stream_of(reads)),
    decreases reads.len(),
{
    let earlier = reads.drop_last();
    let whole = conn.receive(stream_of(reads));
    let each = receive_each(conn, reads);
    if earlier.len() == 0 {
        let only = conn.receive(reads.last());
        assert(stream_of(earlier) =~= Seq::<u8>::empty());
        assert(receive_each(conn, earlier) == (conn, Seq::<FrameView>::empty(), Seq::<u8>::empty()));
        assert(stream_of(reads) =~= reads.last());
        assert(each.1 =~= only.1);
        assert(each.2 =~= only.2);
    } else {
        lemma_receive_each(conn, earlier);
        lemma_receive_split(conn, stream_of(earlier), reads.last());
    }
    assert(each.0 == whole.0 && each.1 == whole.1 && each.2 == whole.2);
}

/// A read that brings nothing changes nothing and yields nothing.
pub proof fn lemma_receive_nothing(conn: ConnectionView)
    requires
        spec_decode(conn.pending) is None,
    ensures
        conn.receive(Seq::empty()) == (conn, Seq::<FrameView>::empty(), Seq::<u8>::empty()),
{
    assert(conn.pending + Seq::<u8>::empty() =~= conn.pending);
}

/// What one read has brought.
#[derive(Debug)]
pub struct Received {
    /// The frames for the application, in the order of the stream: data, and
    /// the subnegotiations of enabled options.
    pub frames: Vec<TelnetFrame>,
    /// The bytes to write back to the peer: the replies to the commands that
    /// the read held, in the order of the commands.
    pub replies: Vec<u8>,
}

/// Appends a frame for the application, joining data to data.
fn deliver_frame(frames: &mut Vec<TelnetFrame>, frame: TelnetFrame)
    ensures
        frames_view(final(frames)@) == deliver(frames_view(old(frames)@), frame@),
{
    let ghost before = frames_view(frames@);
    match frame {
        TelnetFrame::Data(mut data) => {
            let ghost added = data@;
            match frames.pop() {
                Some(TelnetFrame::Data(mut joined)) => {
                    let ghost kept = frames@;
                    let ghost had = joined@;
                    joined.append(&mut data);
                    frames.push(TelnetFrame::Data(joined));
                    assert(frames_view(frames@) =~= frames_view(kept).push(
                        FrameView::Data(had + added),
                    ));
                    assert(frames_view(kept) =~= before.drop_last());
                    assert(before.last() == FrameView::Data(had));
                    return ;
                },
                Some(last) => {
                    let ghost last_view = last@;
                    frames.push(last);
                    assert(frames@ =~= old(frames)@);
                    assert(before.last() == last_view);
                },
                None => {},
            }
            frames.push(TelnetFrame::Data(data));
            assert(frames_view(frames@) =~= before.push(FrameView::Data(added)));
        },
        other => {
            let ghost view = other@;
            frames.push(other);
            assert(frames_view(frames@) =~= before.push(view));
        },
    }
}

/// The decoding and negotiation state of one connection.
#[derive(Debug)]
pub struct ConnectionState {
    buffer: BytesMut,
    codec: TelnetCodec,
    options: Negotiation,
}

impl View for ConnectionState {
    type V = ConnectionView;

    closed spec fn view(&self) -> ConnectionView {
        ConnectionView { pending: buffered(self.buffer), options: self.options@ }
    }
}

impl ConnectionState {
    /// Every value of this type has a well-formed option table.
    pub proof fn lemma_well_formed(self)
        ensures
            self@.options.well_formed(),
    {
        self.options.lemma_well_formed();
    }

    /// The state of a connection that has just been accepted.
    pub fn new() -> (fresh: ConnectionState)
        ensures
            fresh@ == ConnectionView::initial(),
    {
        ConnectionState { buffer: BytesMut::new(), codec: TelnetCodec, options: Negotiation::new() }
    }

    /// Sets whether local policy supports `option`.
    pub fn set_policy(&mut self, option: u8, supported: bool)
        ensures
            final(self)@.pending == old(self)@.pending,
            final(self)@.options == old(self)@.options.with_policy(option, supported),
    {
        self.options.set_policy(option, supported);
    }

    /// Whether local policy supports `option`.
    pub fn supports(&self, option: u8) -> (supported: bool)
        ensures
            supported == self@.options.supports(option),
    {
        self.options.supports(option)
    }

    /// The state of `option`.
    pub fn option_state(&self, option: u8) -> (state: OptionState)
        ensures
            state == self@.options.state(option),
    {
        self.options.state(option)
    }

    /// The number of bytes that wait for the rest of their frame.
    pub fn pending_len(&self) -> (n: usize)
        ensures
            n == self@.pending.len(),
    {
        self.buffer.len()
    }

    /// Opens a negotiation from this side. Returns the bytes to write to the
    /// peer: the command on the wire, or nothing where there is nothing to
    /// say.
    pub fn send_command(&mut self, command: TelnetCommand) -> (bytes: Vec<u8>)
        ensures
            final(self)@.pending == old(self)@.pending,
            final(self)@.options == old(self)@.options.initiate(command).0,
            bytes@ == match old(self)@.options.initiate(command).1 {
                Some(sent) => sent.spec_encode(),
                None => Seq::<u8>::empty(),
            },
    {
        match self.options.request(command) {
            Some(sent) => sent.encode(),
            None => Vec::new(),
        }
    }

    /// The bytes to write to the peer for user data: `data` with every `IAC`
    /// doubled.
    pub fn send_data(&self, data: &[u8]) -> (bytes: Vec<u8>)
        ensures
            bytes@ == escape(data@),
    {
        let mut bytes: Vec<u8> = Vec::new();
        escape_into(&mut bytes, data);
        assert(bytes@ =~= escape(data@));
        bytes
    }

    /// Takes the bytes of one read.
    ///
    /// The bytes are appended to those that were pending. Every frame that is
    /// now complete is decoded and handled in order: commands are negotiated
    /// and their replies collected, data and the subnegotiations of enabled
    /// options are collected for the application. What follows the last
    /// complete frame stays pending for the next read.
    ///
    /// Returns `None`, and changes nothing, only where the pending bytes and
    /// the input together are more than any buffer can hold.
    pub fn receive(&mut self, input: &[u8]) -> (r: Option<Received>)
        ensures
            old(self)@.pending.len() + input@.len() > isize::MAX ==> r is None && final(self)@
                == old(self)@,
            old(self)@.pending.len() + input@.len() <= isize::MAX ==> {
                &&& r matches Some(got)
                &&& final(self)@ == old(self)@.receive(input@).0
                &&& frames_view(got.frames@) == old(self)@.receive(input@).1
                &&& got.replies@ == old(self)@.receive(input@).2
                &&& spec_decode(final(self)@.pending) is None
            },
    {
        let limit: usize = isize::MAX as usize;
        let held = self.buffer.len();
        if held > limit || input.len() > limit - held {
            return None;
        }
        let ghost stream = buffered(self.buffer) + input@;
        let ghost begin = Outcome::start(self.options@);
        self.buffer.extend_from_slice(input);
        let mut frames: Vec<TelnetFrame> = Vec::new();
        let mut replies: Vec<u8> = Vec::new();
        assert(frames_view(frames@) =~= begin.forwarded);
        loop
            invariant
                begin.run(frames_of(stream)) == (Outcome {
                    options: self.options@,
                    forwarded: frames_view(frames@),
                    replies: replies@,
                }).run(frames_of(buffered(self.buffer))),
                pending_of(stream) == pending_of(buffered(self.buffer)),
            ensures
                begin.run(frames_of(stream)) == (Outcome {
                    options: self.options@,
                    forwarded: frames_view(frames@),
                    replies: replies@,
                }),
                pending_of(stream) == buffered(self.buffer),
                spec_decode(buffered(self.buffer)) is None,
            decreases buffered(self.buffer).len(),
        {
            let ghost here = buffered(self.buffer);
            let ghost so_far = Outcome {
                options: self.options@,
                forwarded: frames_view(frames@),
                replies: replies@,
            };
            proof {
                lemma_decode_progress(here);
            }
            match self.codec.decode(&mut self.buffer) {
                None => {
                    break ;
                },
                Some(frame) => {
                    proof {
                        assert(frames_of(here).skip(1) =~= frames_of(buffered(self.buffer)));
                        assert(frames_of(here)[0] == frame@);
                    }
                    match self.options.handle_frame(frame) {
                        Action::Nothing => {},
                        Action::Reply(reply) => {
                            let mut bytes = reply.encode();
                            replies.append(&mut bytes);
                        },
                        Action::Forward(f) => {
                            deliver_frame(&mut frames, f);
                        },
                    }
                    assert(so_far.step(frame@) == (Outcome {
                        options: self.options@,
                        forwarded: frames_view(frames@),
                        replies: replies@,
                    }));
                },
            }
        }
        Some(Received { frames, replies })
    }

    /// Ends the connection: what is pending is a control sequence that the
    /// end of the stream has cut short. It is dropped; no frame comes of it.
    /// Returns the number of bytes dropped.
    pub fn close(&mut self) -> (dropped: usize)
        ensures
            dropped == old(self)@.pending.len(),
            final(self)@.pending == Seq::<u8>::empty(),
            final(self)@.options == old(self)@.options,
    {
        let dropped = self.buffer.len();
        self.buffer.clear();
        dropped
    }
}

} // verus!
