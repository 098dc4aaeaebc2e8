//! The decisions of a Redis connection: taking frames out of the read buffer
//! (with the parser of `mini_redis`), and what to do after each socket read.

use std::io::Cursor;
use mini_redis::Frame as RespFrame;
use mini_redis::frame::Error as RespError;
use vstd::prelude::*;
use crate::buffer::{MyBuffer, INITIAL_CAPACITY};
use crate::frame::{Frame, frame_bytes, same_frame, starts_with_frame};
use crate::scan::check_panics;

verus! {

/// Why the frame check did not accept the bytes.
#[derive(Debug, PartialEq, Eq)]
pub enum CheckError {
    /// More bytes are needed for a whole frame.
    Incomplete,
    /// The bytes are no frame; the text of the protocol error.
    Other(String),
}

/// What `mini_redis::Frame::check` makes of `bytes`: how many bytes it takes
/// as one whole frame at their start, or the error it reports.
pub uninterp spec fn frame_check(bytes: Seq<u8>) -> Result<usize, CheckError>;

/// What `mini_redis::Frame::parse` makes of `bytes`: the frame at their start,
/// or the text of the error it reports.
pub uninterp spec fn frame_parse(bytes: Seq<u8>) -> Result<Frame, String>;

/// Whether a check result `r` on `bytes` takes, for every frame whose wire
/// form starts the bytes, exactly the length of that form.
pub open spec fn check_takes_whole_frames(bytes: Seq<u8>, r: Result<usize, CheckError>) -> bool {
    forall|f: Frame| #[trigger] starts_with_frame(bytes, f)
        ==> r == Ok::<usize, CheckError>(frame_bytes(f).len() as usize)
}

/// Whether a parse result `r` on `bytes` gives back, for every frame whose
/// wire form starts the bytes, a frame with the same values.
pub open spec fn parse_gives_back_frames(bytes: Seq<u8>, r: Result<Frame, String>) -> bool {
    forall|f: Frame| #[trigger] starts_with_frame(bytes, f) ==> (r matches Ok(g) && same_frame(g, f))
}

/// Runs `mini_redis::Frame::check` on a cursor at the start of `bytes` and
/// returns the cursor's position when it succeeds, or its error, with an
/// invalid frame's error as text. Its result is the named `frame_check`;
/// the source shows that a success has read at least the type byte and
/// never reads past the end, that no bytes are incomplete, and that bytes
/// starting with the wire form of a frame (no array, no carriage return in
/// its text) are taken up to the end of that form: the check reads the type
/// byte, then the line up to the first terminator, and for a bulk string
/// skips the given number of bytes and two more. The length bound keeps the
/// recursion over nested arrays shallow; `check_panics` excludes the inputs
/// on which the check panics.
#[verifier::external_body]
fn check_frame(bytes: &[u8]) -> (r: Result<usize, CheckError>)
    requires
        bytes@.len() <= INITIAL_CAPACITY,
        !check_panics(bytes@),
    ensures
        r == frame_check(bytes@),
        r matches Ok(n) ==> 0 < n <= bytes@.len(),
        bytes@.len() == 0 ==> (r matches Err(CheckError::Incomplete)),
        check_takes_whole_frames(bytes@, r),
{
    let mut cursor = Cursor::new(bytes);
    match RespFrame::check(&mut cursor) {
        Ok(()) => Ok(cursor.position() as usize),
        Err(RespError::Incomplete) => Err(CheckError::Incomplete),
        Err(RespError::Other(e)) => Err(CheckError::Other(e.to_string())),
    }
}

/// Runs `mini_redis::Frame::parse` on a cursor at the start of `bytes`,
/// converting the frame into this library's `Frame` and the error into its
/// text. Its result is the named `frame_parse`; on bytes that start with
/// the wire form of a frame (no array, no carriage return in its text) the
/// source gives that frame back: the text of the line as UTF-8, the decimal
/// of the line, the bytes that the length gives, or null for `-1`. It is
/// called only on bytes that `check_frame` accepted: the parser panics on a
/// type byte that the check rejects.
#[verifier::external_body]
fn parse_checked_frame(bytes: &[u8]) -> (r: Result<Frame, String>)
    requires
        bytes@.len() <= INITIAL_CAPACITY,
        !check_panics(bytes@),
        frame_check(bytes@) is Ok,
    ensures
        r == frame_parse(bytes@),
        parse_gives_back_frames(bytes@, r),
{
    match RespFrame::parse(&mut Cursor::new(bytes)) {
        Ok(frame) => Ok(frame_from_outside(frame)),
        Err(e) => Err(e.to_string()),
    }
}

/// The frame type of `mini_redis`, opaque here: it is only converted.
#[verifier::external_type_specification]
#[verifier::external_body]
pub struct ExRespFrame(RespFrame);

/// Moves a `mini_redis::Frame` into this library's `Frame`, variant for
/// variant; used by `parse_checked_frame` only, whose contract covers it.
#[verifier::external_body]
fn frame_from_outside(frame: RespFrame) -> Frame {
    match frame {
        RespFrame::Simple(s) => Frame::Simple(s),
        RespFrame::Error(s) => Frame::Error(s),
        RespFrame::Integer(n) => Frame::Integer(n),
        RespFrame::Bulk(b) => Frame::Bulk(b.to_vec()),
        RespFrame::Null => Frame::Null,
        RespFrame::Array(v) => Frame::Array(v.into_iter().map(frame_from_outside).collect()),
    }
}

/// Takes one frame off the front of the received data, if a whole one is
/// there. Whenever the check does not accept the data, because more bytes
/// are needed or because they are no frame, it gives `Ok(None)` and leaves
/// the buffer as it was. A frame that the check accepts is parsed; on
/// success its bytes are dropped from the buffer. Data that starts with the
/// wire form of a frame (see `frame::write_frame`) gives that frame back.
/// The received data must hold no bulk header whose length the check would
/// overflow on (see `scan::check_would_panic`).
pub fn parse_frame(buffer: &mut MyBuffer) -> (r: Result<Option<Frame>, String>)
    requires
        old(buffer).wf(),
        !check_panics(old(buffer).data()),
    ensures
        final(buffer).wf(),
        match frame_check(old(buffer).data()) {
            Err(_) => {
                &&& r == Ok::<Option<Frame>, String>(None)
                &&& final(buffer)@ == old(buffer)@
            },
            Ok(n) => match frame_parse(old(buffer).data()) {
                Ok(f) => {
                    &&& r == Ok::<Option<Frame>, String>(Some(f))
                    &&& final(buffer).storage() == old(buffer).storage().skip(n as int)
                    &&& final(buffer).position() == old(buffer).position() - n
                    &&& final(buffer).data() == old(buffer).data().skip(n as int)
                },
                Err(e) => r == Err::<Option<Frame>, String>(e) && final(buffer)@ == old(buffer)@,
            },
        },
        old(buffer).data().len() == 0 ==> r == Ok::<Option<Frame>, String>(None),
        forall|f: Frame| #[trigger] starts_with_frame(old(buffer).data(), f) ==> {
            &&& r matches Ok(Some(g)) && same_frame(g, f)
            &&& final(buffer).data() == old(buffer).data().skip(frame_bytes(f).len() as int)
        },
{
    let bytes = buffer.get_bytes();
    match check_frame(bytes) {
        Ok(len) => {
            let frame = match parse_checked_frame(bytes) {
                Ok(frame) => frame,
                Err(e) => return Err(e),
            };
            let ghost before = *buffer;
            buffer.advance(len).unwrap();
            proof {
                crate::buffer::lemma_advance_drops_prefix(before, *buffer, len as nat);
            }
            Ok(Some(frame))
        },
        // Any error of the check: more data is needed, or the data is no frame.
        Err(_) => Ok(None),
    }
}

/// What the reading loop does after a read of `n` bytes into the free space.
#[derive(Clone, Copy, Debug, PartialEq, Eq)]
pub enum ReadStep {
    /// The bytes were taken into the received data: try to parse again.
    Continue,
    /// The peer closed the connection between frames: no more frames.
    Closed,
    /// The peer closed the connection in the middle of a frame.
    Reset,
}

/// The reading loop's decision after a read of `n` bytes: end of stream with
/// nothing buffered closes cleanly, end of stream with bytes buffered is a
/// reset, and any other read is taken into the received data.
pub fn handle_read(buffer: &mut MyBuffer, n: usize) -> (r: ReadStep)
    requires
        old(buffer).wf(),
        n == 0 || old(buffer).position() + n < old(buffer).storage().len(),
    ensures
        final(buffer).wf(),
        final(buffer).storage() == old(buffer).storage(),
        n == 0 && old(buffer).position() == 0 ==> r == ReadStep::Closed,
        n == 0 && old(buffer).position() > 0 ==> r == ReadStep::Reset,
        n == 0 ==> final(buffer).position() == old(buffer).position(),
        n > 0 ==> r == ReadStep::Continue && final(buffer).position() == old(buffer).position() + n,
{
    if n == 0 {
        if buffer.is_empty() {
            ReadStep::Closed
        } else {
            ReadStep::Reset
        }
    } else {
        buffer.advance_cursor(n).unwrap();
        ReadStep::Continue
    }
}

} // verus!
