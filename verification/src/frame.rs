//! Length-prefixed frames on a byte stream.

use vstd::prelude::*;
use vstd::slice::*;
use vstd::string::*;

use crate::text::{decimal, decimal_text};

verus! {

/// How many bytes the length of a frame takes.
pub const HEADER: usize = 4;

/// Why a frame cannot be written or read.
#[derive(Debug, Clone, Copy, PartialEq, Eq, Structural)]
pub enum FrameError {
    /// The body is longer than a header can say.
    TooLarge,
    /// The stream ends before the header does.
    Length,
    /// The header announces more than the reader takes.
    OverLimit { len: u32, max: u32 },
    /// The stream ends before the body does.
    Body,
}

/// The message of a frame error.
pub open spec fn frame_message(e: FrameError) -> Seq<char> {
    match e {
        FrameError::TooLarge => "frame too large"@,
        FrameError::Length => "reading length"@,
        FrameError::OverLimit { len, max } => "frame length "@ + decimal(len as nat) + " over limit "@
            + decimal(max as nat),
        FrameError::Body => "reading body"@,
    }
}

impl FrameError {
    /// What to tell the user.
    pub fn message(&self) -> (r: String)
        ensures
            r@ == frame_message(*self),
    {
        match self {
            FrameError::TooLarge => "frame too large".to_owned(),
            FrameError::Length => "reading length".to_owned(),
            FrameError::OverLimit { len, max } => {
                let mut out = "frame length ".to_owned();
                out.append(decimal_text(*len as u128).as_str());
                out.append(" over limit ");
                out.append(decimal_text(*max as u128).as_str());
                out
            },
            FrameError::Body => "reading body".to_owned(),
        }
    }
}

/// `n` as four bytes, the lowest first.
pub open spec fn le32(n: int) -> Seq<u8> {
    seq![
        (n % 256) as u8,
        (n / 256 % 256) as u8,
        (n / 65536 % 256) as u8,
        (n / 16777216 % 256) as u8,
    ]
}

/// The number that four bytes stand for, the lowest first.
pub open spec fn of_le32(bytes: Seq<u8>) -> int {
    bytes[0] + 256 * bytes[1] + 65536 * bytes[2] + 16777216 * bytes[3]
}

/// A frame: the length of the body, then the body.
pub open spec fn framed(body: Seq<u8>) -> Seq<u8> {
    le32(body.len() as int) + body
}

/// What a reader that takes bodies of up to `max` bytes makes of `stream`.
pub open spec fn read(stream: Seq<u8>, max: u32) -> Result<Seq<u8>, FrameError> {
    if stream.len() < HEADER {
        Err(FrameError::Length)
    } else {
        let len = of_le32(stream);
        if len > max {
            Err(FrameError::OverLimit { len: len as u32, max })
        } else if stream.len() < HEADER + len {
            Err(FrameError::Body)
        } else {
            Ok(stream.subrange(HEADER as int, HEADER + len))
        }
    }
}

/// The header for a body of `len` bytes.
pub fn frame_header(len: usize) -> (r: Result<[u8; 4], FrameError>)
    ensures
        r matches Ok(header) ==> len <= u32::MAX && header@ == le32(len as int),
        r matches Err(e) ==> len > u32::MAX && e == FrameError::TooLarge,
{
    if len > u32::MAX as usize {
        return Err(FrameError::TooLarge);
    }
    let n = len as u32;
    let header: [u8; 4] = [
        (n % 256) as u8,
        (n / 256 % 256) as u8,
        (n / 65536 % 256) as u8,
        (n / 16777216 % 256) as u8,
    ];
    assert(header@ =~= le32(len as int));
    Ok(header)
}

/// How long the body behind `header` is, for a reader that takes up to `max` bytes.
pub fn body_length(header: [u8; 4], max: u32) -> (r: Result<u32, FrameError>)
    ensures
        of_le32(header@) <= u32::MAX,
        r matches Ok(len) ==> len == of_le32(header@) <= max,
        r matches Err(e) ==> of_le32(header@) > max && e == (FrameError::OverLimit {
            len: of_le32(header@) as u32,
            max,
        }),
{
    let len: u32 = header[0] as u32 + 256 * header[1] as u32 + 65536 * header[2] as u32 + 16777216
        * header[3] as u32;
    if len > max {
        Err(FrameError::OverLimit { len, max })
    } else {
        Ok(len)
    }
}

/// The bytes to write for a frame with this body.
pub fn write_framed(body: &[u8]) -> (r: Result<Vec<u8>, FrameError>)
    ensures
        r matches Ok(bytes) ==> body@.len() <= u32::MAX && bytes@ == framed(body@),
        r matches Err(e) ==> body@.len() > u32::MAX && e == FrameError::TooLarge,
{
    match frame_header(body.len()) {
        Ok(header) => {
            let mut out: Vec<u8> = Vec::new();
            out.push(header[0]);
            out.push(header[1]);
            out.push(header[2]);
            out.push(header[3]);
            out.extend_from_slice(body);
            assert(out@ =~= framed(body@));
            Ok(out)
        },
        Err(e) => Err(e),
    }
}

/// Reads one frame off the front of a stream.
pub fn read_framed(stream: &[u8], max: u32) -> (r: Result<Vec<u8>, FrameError>)
    ensures
        r matches Ok(body) ==> read(stream@, max) == Ok::<Seq<u8>, FrameError>(body@),
        r matches Err(e) ==> read(stream@, max) == Err::<Seq<u8>, FrameError>(e),
{
    if stream.len() < HEADER {
        return Err(FrameError::Length);
    }
    let header: [u8; 4] = [stream[0], stream[1], stream[2], stream[3]];
    match body_length(header, max) {
        Ok(len) => {
            if stream.len() - HEADER < len as usize {
                Err(FrameError::Body)
            } else {
                Ok(slice_to_vec(slice_subrange(stream, HEADER, HEADER + len as usize)))
            }
        },
        Err(e) => Err(e),
    }
}

/// Reading gives back what was written: from a stream that begins with a frame, a
/// reader that takes bodies of this length gets the body, whatever follows it.
pub proof fn reading_gives_back_what_was_written(body: Seq<u8>, rest: Seq<u8>, max: u32)
    requires
        body.len() <= max,
    ensures
        read(framed(body) + rest, max) == Ok::<Seq<u8>, FrameError>(body),
{
    let stream = framed(body) + rest;
    let n = body.len() as int;
    assert(stream[0] == le32(n)[0] && stream[1] == le32(n)[1] && stream[2] == le32(n)[2] && stream[3]
        == le32(n)[3]);
    assert(of_le32(stream) == n);
    assert(stream.subrange(HEADER as int, HEADER + n) =~= body);
}

/// A reader is told of a frame that is too long for it by the header alone, and takes
/// nothing of its body.
pub proof fn long_frames_are_refused(body: Seq<u8>, rest: Seq<u8>, max: u32)
    requires
        max < body.len() <= u32::MAX,
    ensures
        read(framed(body) + rest, max) == Err::<Seq<u8>, FrameError>(
            FrameError::OverLimit { len: body.len() as u32, max },
        ),
{
    let stream = framed(body) + rest;
    let n = body.len() as int;
    assert(stream[0] == le32(n)[0] && stream[1] == le32(n)[1] && stream[2] == le32(n)[2] && stream[3]
        == le32(n)[3]);
    assert(of_le32(stream) == n);
}

/// A frame that is cut short is never taken for a whole one.
pub proof fn cut_frames_are_refused(body: Seq<u8>, cut: int, max: u32)
    requires
        body.len() <= max,
        0 <= cut < framed(body).len(),
    ensures
        read(framed(body).take(cut), max) == Err::<Seq<u8>, FrameError>(
            if cut < HEADER {
                FrameError::Length
            } else {
                FrameError::Body
            },
        ),
{
    let stream = framed(body).take(cut);
    let n = body.len() as int;
    if cut >= HEADER {
        assert(stream[0] == le32(n)[0] && stream[1] == le32(n)[1] && stream[2] == le32(n)[2]
            && stream[3] == le32(n)[3]);
        assert(of_le32(stream) == n);
    }
}

/// The header spells the length: its four bytes, each worth 256 times the one before it, add
/// up to it, and are read as it.
pub proof fn a_header_spells_the_length(n: u32, rest: Seq<u8>)
    ensures
        le32(n as int).len() == 4,
        le32(n as int)[0] + 256 * le32(n as int)[1] + 65536 * le32(n as int)[2] + 16777216 * le32(
            n as int,
        )[3] == n,
        of_le32(le32(n as int) + rest) == n,
{
    let h = le32(n as int);
    let m = n as int;
    assert(h[0] == m % 256 && h[1] == m / 256 % 256 && h[2] == m / 65536 % 256 && h[3] == m / 16777216
        % 256);
    assert(m == m % 256 + 256 * (m / 256));
    assert(m / 256 == m / 256 % 256 + 256 * (m / 65536));
    assert(m / 65536 == m / 65536 % 256 + 256 * (m / 16777216));
    assert(m / 16777216 == m / 16777216 % 256);
    assert((h + rest)[0] == h[0] && (h + rest)[1] == h[1] && (h + rest)[2] == h[2] && (h + rest)[3]
        == h[3]);
}

/// A frame is its header and its body, and nothing else.
pub proof fn a_frame_is_header_and_body(body: Seq<u8>)
    ensures
        framed(body).len() == 4 + body.len(),
        framed(body).take(4) == le32(body.len() as int),
        framed(body).skip(4) == body,
{
    assert(framed(body).take(4) =~= le32(body.len() as int));
    assert(framed(body).skip(4) =~= body);
}

/// A reader goes by the header: a stream whose header says `n` is refused where `n` is over
/// the limit, or more than what follows; otherwise the next `n` bytes are the body.
pub proof fn a_reader_goes_by_the_header(n: u32, rest: Seq<u8>, max: u32)
    ensures
        n > max ==> read(le32(n as int) + rest, max) == Err::<Seq<u8>, FrameError>(
            FrameError::OverLimit { len: n, max },
        ),
        n <= max && rest.len() < n ==> read(le32(n as int) + rest, max) == Err::<
            Seq<u8>,
            FrameError,
        >(FrameError::Body),
        n <= max && rest.len() >= n ==> read(le32(n as int) + rest, max) == Ok::<Seq<u8>, FrameError>(
            rest.take(n as int),
        ),
{
    a_header_spells_the_length(n, rest);
    let stream = le32(n as int) + rest;
    if rest.len() >= n {
        assert(stream.subrange(4, 4 + n) =~= rest.take(n as int));
    }
}

/// A stream that ends within the header holds no frame.
pub proof fn a_stream_without_a_header_is_refused(stream: Seq<u8>, max: u32)
    requires
        stream.len() < 4,
    ensures
        read(stream, max) == Err::<Seq<u8>, FrameError>(FrameError::Length),
{
}

/// A refusal names both lengths.
pub proof fn a_refusal_names_both_lengths(len: u32, max: u32)
    ensures
        frame_message(FrameError::OverLimit { len, max }) == "frame length "@ + decimal(len as nat)
            + " over limit "@ + decimal(max as nat),
{
}

} // verus!
