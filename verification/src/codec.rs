//! The frame decoder on a growable byte buffer.
//!
//! The buffer is a `bytes::BytesMut`. Verus cannot look inside it, so this
//! module names what it holds, [`buffered`], and states of each of its methods
//! that the decoder calls what the method does to that content. Those
//! statements are taken on trust; what the decoder makes of them is proved.

use vstd::prelude::*;
use bytes::BytesMut;
use crate::decoder::{parse_frame, spec_decode};
use crate::frame::TelnetFrame;

verus! {

/// `bytes::BytesMut`, a unique handle on a contiguous run of bytes. Opaque to
/// the verifier.
#[verifier::external_type_specification]
#[verifier::external_body]
pub struct ExBytesMut(bytes::BytesMut);

/// The bytes that a buffer holds, first to last: what `&buf[..]` shows.
pub uninterp spec fn buffered(buf: BytesMut) -> Seq<u8>;

/// `BytesMut::new`: a new buffer holds no bytes.
pub assume_specification[ BytesMut::new ]() -> (buf: BytesMut)
    ensures
        buffered(buf) == Seq::<u8>::empty(),
;

/// `BytesMut::len`: the number of bytes that the buffer holds.
pub assume_specification[ BytesMut::len ](buf: &BytesMut) -> (n: usize)
    ensures
        n == buffered(*buf).len(),
;

/// `BytesMut::split_to`: the buffer keeps the bytes from `at` on, and the
/// bytes before `at` are handed back as a buffer of their own. It panics when
/// `at` is beyond the length, which the precondition rules out.
pub assume_specification[ BytesMut::split_to ](buf: &mut BytesMut, at: usize) -> (head: BytesMut)
    requires
        at <= buffered(*old(buf)).len(),
    ensures
        buffered(head) == buffered(*old(buf)).take(at as int),
        buffered(*final(buf)) == buffered(*old(buf)).skip(at as int),
;

/// `BytesMut::extend_from_slice`: the given bytes are appended. It panics when
/// the capacity it needs overflows; the precondition keeps the new length
/// within `isize::MAX`, the most that an allocation can hold.
pub assume_specification[ BytesMut::extend_from_slice ](buf: &mut BytesMut, extend: &[u8])
    requires
        buffered(*old(buf)).len() + extend@.len() <= isize::MAX,
    ensures
        buffered(*final(buf)) == buffered(*old(buf)) + extend@,
;

/// `BytesMut::clear`: all bytes are removed.
pub assume_specification[ BytesMut::clear ](buf: &mut BytesMut)
    ensures
        buffered(*final(buf)) == Seq::<u8>::empty(),
;

/// `AsRef<[u8]>` of `BytesMut`: the slice of the bytes that the buffer holds.
#[verifier::external_body]
fn bytes_of(buf: &BytesMut) -> (bytes: &[u8])
    ensures
        bytes@ == buffered(*buf),
{
    buf.as_ref()
}

/// The frame decoder. It keeps no state of its own: whatever is pending lies
/// in the buffer it is called on.
#[derive(Clone, Copy, Debug, Default)]
pub struct TelnetCodec;

impl TelnetCodec {
    /// Takes the first frame off the front of `src`.
    ///
    /// Where `src` begins with a complete frame, the frame is returned and
    /// exactly its bytes are removed. Where `src` is empty or ends inside a
    /// control sequence, nothing is returned and `src` is left as it is, to be
    /// decoded again once more bytes have been appended.
    pub fn decode(&mut self, src: &mut BytesMut) -> (r: Option<TelnetFrame>)
        ensures
            match spec_decode(buffered(*old(src))) {
                Some((frame, n)) => {
                    &&& r matches Some(f)
                    &&& f@ == frame
                    &&& buffered(*final(src)) == buffered(*old(src)).skip(n as int)
                },
                None => r is None && buffered(*final(src)) == buffered(*old(src)),
            },
    {
        match parse_frame(bytes_of(src)) {
            Some((frame, used)) => {
                proof {
                    crate::decoder::lemma_decode_progress(buffered(*src));
                }
                let _ = src.split_to(used);
                Some(frame)
            },
            None => None,
        }
    }

    /// Takes the first frame off the front of `src` when no more bytes will
    /// come.
    ///
    /// A complete frame is returned as by [`TelnetCodec::decode`]. Where none
    /// is left, what remains in `src` is a control sequence cut short by the
    /// end of the stream: it is dropped, and `src` is empty afterwards.
    pub fn decode_eof(&mut self, src: &mut BytesMut) -> (r: Option<TelnetFrame>)
        ensures
            match spec_decode(buffered(*old(src))) {
                Some((frame, n)) => {
                    &&& r matches Some(f)
                    &&& f@ == frame
                    &&& buffered(*final(src)) == buffered(*old(src)).skip(n as int)
                },
                None => r is None && buffered(*final(src)) == Seq::<u8>::empty(),
            },
    {
        let frame = self.decode(src);
        if frame.is_none() {
            src.clear();
        }
        frame
    }
}

} // verus!
