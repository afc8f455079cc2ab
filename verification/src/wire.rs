//! Length-prefixed framing: a big-endian number of 32 bits, followed by one encoded message.
use crate::text::{decimal, push_decimal};
use vstd::prelude::*;
use vstd::slice::slice_subrange;

verus! {

broadcast use vstd::string::group_string_axioms;

/// The length of the prefix.
pub const HEADER_LEN: usize = 4;

/// The longest message. Nothing that is sent comes close, so a frame above it means a
/// desynchronised or hostile stream rather than a big message.
pub const MAX_FRAME_SIZE: usize = 0x10_0000;

/// The number that four bytes hold, the most significant one first.
pub open spec fn big_endian(bytes: Seq<u8>) -> nat {
    (bytes[0] * 0x100_0000 + bytes[1] * 0x1_0000 + bytes[2] * 0x100 + bytes[3]) as nat
}

/// Four bytes that hold a number, the most significant one first.
pub open spec fn big_endian_bytes(n: nat) -> Seq<u8> {
    seq![
        (n / 0x100_0000 % 0x100) as u8,
        (n / 0x1_0000 % 0x100) as u8,
        (n / 0x100 % 0x100) as u8,
        (n % 0x100) as u8,
    ]
}

/// A message in its frame.
pub open spec fn frame(body: Seq<u8>) -> Seq<u8> {
    big_endian_bytes(body.len()) + body
}

/// How reading a frame goes on.
#[derive(Debug, PartialEq, Eq)]
pub enum ReadStep {
    /// Read so many more bytes, no fewer and no more.
    More(usize),
    /// The message of the frame.
    Frame(Vec<u8>),
    /// The stream ended in front of a frame: the peer went away.
    Closed,
    /// The stream ended inside of a frame.
    Truncated,
    /// The prefix announces too long a message. This is the error.
    TooLarge(String),
}

/// How reading a frame goes on, over sequences.
pub enum ReadStepView {
    More(nat),
    Frame(Seq<u8>),
    Closed,
    Truncated,
    TooLarge(Seq<char>),
}

impl View for ReadStep {
    type V = ReadStepView;

    open spec fn view(&self) -> ReadStepView {
        match *self {
            ReadStep::More(count) => ReadStepView::More(count as nat),
            ReadStep::Frame(body) => ReadStepView::Frame(body@),
            ReadStep::Closed => ReadStepView::Closed,
            ReadStep::Truncated => ReadStepView::Truncated,
            ReadStep::TooLarge(error) => ReadStepView::TooLarge(error@),
        }
    }
}

/// How reading a frame goes on when `bytes` were read of it, and no more follow if `ended`.
pub open spec fn read_step(bytes: Seq<u8>, ended: bool) -> ReadStepView {
    let len = big_endian(bytes);
    if bytes.len() == 0 && ended {
        ReadStepView::Closed
    } else if bytes.len() < HEADER_LEN {
        if ended {
            ReadStepView::Truncated
        } else {
            ReadStepView::More((HEADER_LEN - bytes.len()) as nat)
        }
    } else if len > MAX_FRAME_SIZE {
        ReadStepView::TooLarge("frame of "@ + decimal(len) + " bytes"@)
    } else if bytes.len() < HEADER_LEN + len {
        if ended {
            ReadStepView::Truncated
        } else {
            ReadStepView::More((HEADER_LEN + len - bytes.len()) as nat)
        }
    } else {
        ReadStepView::Frame(bytes.subrange(HEADER_LEN as int, HEADER_LEN + len))
    }
}

/// How reading a frame goes on when `bytes` were read of it, and no more follow if `ended`.
pub fn read_frame(bytes: &[u8], ended: bool) -> (step: ReadStep)
    ensures
        step@ == read_step(bytes@, ended),
{
    let have: usize = bytes.len();
    if have == 0 && ended {
        return ReadStep::Closed;
    }
    if have < HEADER_LEN {
        if ended {
            return ReadStep::Truncated;
        }
        return ReadStep::More(HEADER_LEN - have);
    }
    let len: u64 = bytes[0] as u64 * 0x100_0000 + bytes[1] as u64 * 0x1_0000 + bytes[2] as u64
        * 0x100 + bytes[3] as u64;
    if len > MAX_FRAME_SIZE as u64 {
        let mut error = "frame of ".to_string();
        push_decimal(&mut error, len);
        error.push_str(" bytes");
        return ReadStep::TooLarge(error);
    }
    let whole: usize = HEADER_LEN + len as usize;
    if have < whole {
        if ended {
            return ReadStep::Truncated;
        }
        return ReadStep::More(whole - have);
    }
    let body = vstd::slice::slice_to_vec(slice_subrange(bytes, HEADER_LEN, whole));
    ReadStep::Frame(body)
}

/// Puts a message into its frame, or says that it is too long for one.
pub fn write_frame(body: &[u8]) -> (framed: Result<Vec<u8>, String>)
    ensures
        framed is Ok == (body@.len() <= MAX_FRAME_SIZE),
        framed matches Ok(bytes) ==> bytes@ == frame(body@),
        framed matches Err(error) ==> error@ == "frame too large"@,
{
    let len: usize = body.len();
    if len > MAX_FRAME_SIZE {
        return Err("frame too large".to_string());
    }
    let mut bytes: Vec<u8> = Vec::new();
    bytes.push((len / 0x100_0000 % 0x100) as u8);
    bytes.push((len / 0x1_0000 % 0x100) as u8);
    bytes.push((len / 0x100 % 0x100) as u8);
    bytes.push((len % 0x100) as u8);
    assert(bytes@ =~= big_endian_bytes(body@.len()));
    let ghost header = bytes@;
    let mut i: usize = 0;
    assert(bytes@ =~= header + body@.take(0));
    while i < len
        invariant
            i <= len == body@.len(),
            bytes@ == header + body@.take(i as int),
        decreases len - i,
    {
        bytes.push(body[i]);
        i = i + 1;
        assert(bytes@ =~= header + body@.take(i as int));
    }
    assert(body@.take(i as int) =~= body@);
    Ok(bytes)
}

/// The prefix of a frame reads back as the length of its message.
proof fn lemma_header(body: Seq<u8>)
    requires
        body.len() <= MAX_FRAME_SIZE,
    ensures
        frame(body).len() == HEADER_LEN + body.len(),
        big_endian(frame(body)) == body.len(),
        frame(body).skip(HEADER_LEN as int) == body,
{
    assert(frame(body).skip(HEADER_LEN as int) =~= body);
}

/// What is read of a frame that was written is the message that was put into it, whatever
/// follows the frame in the stream.
pub proof fn written_frame_reads_back(body: Seq<u8>, rest: Seq<u8>, ended: bool)
    requires
        body.len() <= MAX_FRAME_SIZE,
    ensures
        read_step(frame(body) + rest, ended) == ReadStepView::Frame(body),
{
    lemma_header(body);
    assert((frame(body) + rest).subrange(HEADER_LEN as int, (HEADER_LEN + body.len()) as int)
        =~= body);
}

/// Reading a frame that was written never goes beyond its end: as long as it is not whole,
/// some bytes more are asked for, and no more than are left of it. A stream that ends early is
/// closed in front of the frame and truncated inside of it.
pub proof fn reading_stays_in_the_frame(body: Seq<u8>, n: int)
    requires
        body.len() <= MAX_FRAME_SIZE,
        0 <= n < frame(body).len(),
    ensures
        read_step(frame(body).take(n), false) matches ReadStepView::More(count) && 0 < count && n
            + count <= frame(body).len(),
        read_step(frame(body).take(n), true) == (if n == 0 {
            ReadStepView::Closed
        } else {
            ReadStepView::Truncated
        }),
{
    lemma_header(body);
}

/// A stream of frames.
pub open spec fn stream(bodies: Seq<Seq<u8>>) -> Seq<u8>
    decreases bodies.len(),
{
    if bodies.len() == 0 {
        seq![]
    } else {
        frame(bodies[0]) + stream(bodies.drop_first())
    }
}

/// The messages read of a stream, frame by frame, up to the first that is not whole or too
/// long.
pub open spec fn received(bytes: Seq<u8>) -> Seq<Seq<u8>>
    decreases bytes.len(),
{
    match read_step(bytes, true) {
        ReadStepView::Frame(body) => seq![body] + received(
            bytes.skip((HEADER_LEN + body.len()) as int),
        ),
        _ => seq![],
    }
}

/// Every message that is written to a stream is read of it, in order and unchanged.
pub proof fn stream_reads_back(bodies: Seq<Seq<u8>>)
    requires
        forall|i: int| 0 <= i < bodies.len() ==> (#[trigger] bodies[i]).len() <= MAX_FRAME_SIZE,
    ensures
        received(stream(bodies)) == bodies,
    decreases bodies.len(),
{
    if bodies.len() > 0 {
        let rest = stream(bodies.drop_first());
        stream_reads_back(bodies.drop_first());
        written_frame_reads_back(bodies[0], rest, true);
        lemma_header(bodies[0]);
        assert((frame(bodies[0]) + rest).skip((HEADER_LEN + bodies[0].len()) as int) =~= rest);
        assert(seq![bodies[0]] + bodies.drop_first() =~= bodies);
    } else {
        assert(received(stream(bodies)) =~= bodies);
    }
}

/// What is read as a frame was framed: the bytes begin with a prefix that says how long the
/// message is, the message follows it, and it is not longer than a message may be.
pub proof fn frames_begin_with_their_length(bytes: Seq<u8>, ended: bool)
    ensures
        read_step(bytes, ended) matches ReadStepView::Frame(body) ==> {
            &&& body.len() <= 1048576
            &&& bytes.len() >= 4 + body.len()
            &&& bytes[0] * 16777216 + bytes[1] * 65536 + bytes[2] * 256 + bytes[3] == body.len()
            &&& bytes.subrange(4, 4 + body.len() as int) == body
        },
{
}

/// A prefix that announces more than a message may have is refused at once, whatever follows it,
/// and the error names the length. Nothing else is refused for its length.
pub proof fn oversized_frames_are_refused(bytes: Seq<u8>, ended: bool)
    requires
        bytes.len() >= 4,
    ensures
        ({
            let len = bytes[0] * 16777216 + bytes[1] * 65536 + bytes[2] * 256 + bytes[3];
            &&& len > 1048576 ==> read_step(bytes, ended) == ReadStepView::TooLarge(
                "frame of "@ + decimal(len as nat) + " bytes"@,
            )
            &&& len <= 1048576 ==> !(read_step(bytes, ended) is TooLarge)
            &&& len <= 1048576 && bytes.len() < 4 + len && !ended ==> read_step(bytes, ended)
                == ReadStepView::More((4 + len - bytes.len()) as nat)
        }),
{
}

/// A stream that ends in front of a frame is closed, and one that ends in its prefix is cut off.
pub proof fn early_ends_are_told_apart(bytes: Seq<u8>)
    requires
        bytes.len() < 4,
    ensures
        read_step(bytes, true) == (if bytes.len() == 0 {
            ReadStepView::Closed
        } else {
            ReadStepView::Truncated
        }),
        read_step(bytes, false) == ReadStepView::More((4 - bytes.len()) as nat),
{
}

} // verus!
