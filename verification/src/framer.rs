//! Line framing: maps one protocol message to one newline-terminated line.
//!
//! The write path appends a terminator only when the outbound text does not
//! already end with one.  The read path turns the outcome of a single
//! line-read attempt into "message ready", "no message yet", or a
//! connection-level failure: blank keepalive lines are absorbed, a
//! would-block condition on a non-blocking stream is "no message yet", and
//! a closed peer — a zero-byte read, or end of input in the middle of a
//! line — is a connection-level error.

use vstd::prelude::*;
use vstd::string::*;

verus! {

/// Outcome of one attempted line read, as the transport layer observed it.
/// The bytes that were read, if any, are in the caller's scratch buffer.
pub enum ReadEvent {
    /// The read succeeded with data; the buffer holds everything read so
    /// far, ending with the line terminator unless the peer closed in the
    /// middle of a line.
    Line,
    /// The read succeeded with zero bytes: the peer closed cleanly.
    Closed,
    /// The stream is non-blocking and no complete line was available yet.
    WouldBlock,
    /// Any other I/O failure (a reset, a timeout, ...), rendered as text.
    Failed(String),
}

/// True when the text ends with the line terminator.
pub open spec fn terminated(s: Seq<char>) -> bool {
    s.len() > 0 && s[s.len() - 1] == '\n'
}

/// The exact line the framer puts on the wire for a given outbound text:
/// the text itself when it already carries its terminator, otherwise the
/// text with exactly one terminator appended.
pub open spec fn framed(s: Seq<char>) -> Seq<char> {
    if terminated(s) {
        s
    } else {
        s.push('\n')
    }
}

/// Framing is idempotent: a framed line is terminated, so framing it again
/// changes nothing, and a line that already ends in a terminator never
/// gains a second one.
pub proof fn lemma_framed_idempotent(s: Seq<char>)
    ensures
        framed(framed(s)) == framed(s),
        terminated(framed(s)),
{
    if !terminated(s) {
        assert(framed(s) == s.push('\n'));
        assert(framed(s)[framed(s).len() - 1] == '\n');
    }
}

/// Terminate an outbound message: append exactly one line terminator when
/// the text does not already end with one.
pub fn frame_message(message_in: String) -> (r: String)
    ensures
        r@ == framed(message_in@),
{
    proof {
        reveal_strlit("\n");
    }
    let len = message_in.as_str().unicode_len();
    if len > 0 && message_in.as_str().get_char(len - 1) == '\n' {
        message_in
    } else {
        let r = message_in.concat("\n");
        assert(r@ =~= framed(r@));
        r
    }
}

/// What the read path guarantees, given the read attempt's outcome, the
/// buffer before and after, and the returned result.
///
/// A successful read of a terminated line hands it out and clears the
/// buffer, except that a line holding only the terminator is absorbed as
/// "no message".  A successful read whose buffer does not end in the
/// terminator means the peer closed mid-line, and a zero-byte read means
/// the peer closed cleanly: both are connection-level errors.  A
/// would-block condition is "no message yet" — never an error, and the
/// same outward result as a blank line — leaving any partial line in the
/// buffer for the next attempt.  Any other failure clears the buffer and
/// is a connection-level error carrying the transport's text.
pub open spec fn read_contract(
    event: ReadEvent,
    before: Seq<char>,
    after: Seq<char>,
    r: Result<Option<String>, String>,
) -> bool {
    match event {
        ReadEvent::Line => after == Seq::<char>::empty() && (if !terminated(before) {
            r matches Err(msg) && msg@ == "peer closed the connection"@
        } else if before == seq!['\n'] {
            r == Ok::<Option<String>, String>(None)
        } else {
            r matches Ok(Some(line)) && line@ == before
        }),
        ReadEvent::Closed => after == Seq::<char>::empty() && (r matches Err(msg) && msg@
            == "peer closed the connection"@),
        ReadEvent::WouldBlock => r == Ok::<Option<String>, String>(None) && after == before,
        ReadEvent::Failed(e) => after == Seq::<char>::empty() && (r matches Err(msg) && msg@
            == e@),
    }
}

/// Interpret the outcome of one line-read attempt.
pub fn read_outcome(event: ReadEvent, buffer: &mut String) -> (r: Result<Option<String>, String>)
    ensures
        read_contract(event, old(buffer)@, final(buffer)@, r),
{
    match event {
        ReadEvent::Line => {
            let res = buffer.clone();
            *buffer = String::new();
            let len = res.as_str().unicode_len();
            if len == 0 || res.as_str().get_char(len - 1) != '\n' {
                Err(String::from_str("peer closed the connection"))
            } else if len == 1 {
                proof {
                    reveal_strlit("\n");
                    assert(res@ =~= seq!['\n']);
                }
                Ok(None)
            } else {
                proof {
                    reveal_strlit("\n");
                    if res@ == seq!['\n'] {
                        assert(res@.len() == 1 && res@[0] == '\n');
                    }
                }
                Ok(Some(res))
            }
        },
        ReadEvent::Closed => {
            *buffer = String::new();
            Err(String::from_str("peer closed the connection"))
        },
        ReadEvent::WouldBlock => Ok(None),
        ReadEvent::Failed(e) => {
            *buffer = String::new();
            Err(e)
        },
    }
}

} // verus!
