//! The read side and the write side of one connection.
//!
//! A [`ConnectionHandler`] owns the bytes that have arrived and have not been
//! decoded yet. It never reads from a stream itself. Its caller does, when
//! the handler asks for it, and hands over what the read returned. So the
//! handler is a state machine: the state is the buffered bytes, the event is
//! what arrived, and the answer is what to do next.
use crate::buffer::contents;
use crate::protocol::roundtrip::{
    command_partial_delivery, command_round_trip, response_partial_delivery, response_round_trip,
};
use crate::protocol::{
    command_frame, encode_command, encode_response, leading_command, leading_response,
    response_frame, Command, CommandView, Cursor, DecodeError, Decoded, Parser, Response,
    ResponseView,
};
use crate::text::lemma_encoding_bound;
use bytes::{Buf, BytesMut};
use vstd::prelude::*;
use vstd::string::StringExecFns;

verus! {

/// The capacity that a new buffer is made with.
pub const INITIAL_CAPACITY: usize = 1024;

/// What a handler answers when it is asked for the next value.
#[derive(Debug, PartialEq, Eq)]
pub enum Next<T> {
    /// A whole frame was buffered. Its bytes are gone from the buffer.
    Value(T),
    /// No whole frame is buffered yet: read from the stream, at most this
    /// many bytes, and ask again with what the read returned.
    Read(usize),
    /// The read returned no bytes: the stream has ended.
    Closed,
    /// The bytes break the protocol, for the reason given. The buffer keeps
    /// them, and the connection cannot go on.
    Malformed(String),
}

/// The mathematical value of a [`Next`].
pub enum NextView<T> {
    Value(T),
    Read(nat),
    Closed,
    Malformed(Seq<char>),
}

impl<T: View> View for Next<T> {
    type V = NextView<T::V>;

    open spec fn view(&self) -> NextView<T::V> {
        match self {
            Next::Value(value) => NextView::Value(value@),
            Next::Read(room) => NextView::Read(*room as nat),
            Next::Closed => NextView::Closed,
            Next::Malformed(reason) => NextView::Malformed(reason@),
        }
    }
}

/// The reason given for a frame that does not fit in the buffer.
pub open spec fn frame_too_large() -> Seq<char> {
    "frame too large"@
}

/// One step of a handler that holds `buffered` and may hold `limit` bytes.
/// `arrived` is what a read returned, where one was made since the last step.
/// The result is what the handler holds afterwards and what it answers.
///
/// A read that returned nothing ends the stream. Bytes that would take the
/// buffer over its limit are refused. Otherwise the bytes are buffered and
/// the head of the buffer is decoded with `decode`: a value leaves the
/// buffer, a frame that is still cut short asks for a read if there is room
/// for more and is too large if there is none.
pub open spec fn step<T>(
    buffered: Seq<u8>,
    limit: nat,
    arrived: Option<Seq<u8>>,
    decode: spec_fn(Seq<u8>) -> Decoded<T>,
) -> (Seq<u8>, NextView<T>) {
    if arrived matches Some(data) && data.len() == 0 {
        (buffered, NextView::Closed)
    } else if arrived matches Some(data) && buffered.len() + data.len() > limit {
        (buffered, NextView::Malformed(frame_too_large()))
    } else {
        let held = match arrived {
            Some(data) => buffered + data,
            None => buffered,
        };
        match decode(held) {
            Decoded::Complete(value, len) => (held.skip(len as int), NextView::Value(value)),
            Decoded::Malformed(reason) => (held, NextView::Malformed(reason)),
            Decoded::Incomplete => if held.len() < limit {
                (held, NextView::Read((limit - held.len()) as nat))
            } else {
                (held, NextView::Malformed(frame_too_large()))
            },
        }
    }
}

/// The decoder of command frames.
pub open spec fn commands() -> spec_fn(Seq<u8>) -> Decoded<CommandView> {
    |bytes: Seq<u8>| leading_command(bytes)
}

/// The decoder of response frames.
pub open spec fn responses() -> spec_fn(Seq<u8>) -> Decoded<ResponseView> {
    |bytes: Seq<u8>| leading_response(bytes)
}

/// One step of a handler that reads commands.
pub open spec fn next_command(buffered: Seq<u8>, limit: nat, arrived: Option<Seq<u8>>) -> (
    Seq<u8>,
    NextView<CommandView>,
) {
    step(buffered, limit, arrived, commands())
}

/// One step of a handler that reads responses.
pub open spec fn next_response(buffered: Seq<u8>, limit: nat, arrived: Option<Seq<u8>>) -> (
    Seq<u8>,
    NextView<ResponseView>,
) {
    step(buffered, limit, arrived, responses())
}

/// A frame that arrives in two reads, cut at any offset, asks for the second
/// read after the first and gives its value after the second, for any
/// decoder that finds the cut frame incomplete and the whole frame complete.
/// Nothing stays buffered.
pub proof fn lemma_in_two_reads<T>(
    frame: Seq<u8>,
    value: T,
    limit: nat,
    k: int,
    decode: spec_fn(Seq<u8>) -> Decoded<T>,
)
    requires
        0 < k < frame.len() <= limit,
        decode(frame.take(k)) == Decoded::<T>::Incomplete,
        decode(frame) == Decoded::Complete(value, frame.len()),
    ensures
        step(Seq::empty(), limit, Some(frame.take(k)), decode) == (
            frame.take(k),
            NextView::<T>::Read((limit - k) as nat),
        ),
        step(frame.take(k), limit, Some(frame.skip(k)), decode) == (
            Seq::<u8>::empty(),
            NextView::Value(value),
        ),
{
    assert(Seq::<u8>::empty() + frame.take(k) =~= frame.take(k));
    assert(frame.take(k) + frame.skip(k) =~= frame);
    assert(frame.skip(frame.len() as int) =~= Seq::<u8>::empty());
}

/// Where a read brings a whole frame and the start of the next, the value
/// is given and what follows the frame stays buffered, for any decoder that
/// finds the frame at the head of the bytes.
pub proof fn lemma_leftover_is_kept<T>(
    frame: Seq<u8>,
    rest: Seq<u8>,
    value: T,
    limit: nat,
    decode: spec_fn(Seq<u8>) -> Decoded<T>,
)
    requires
        0 < frame.len(),
        frame.len() + rest.len() <= limit,
        decode(frame + rest) == Decoded::Complete(value, frame.len()),
    ensures
        step(Seq::empty(), limit, Some(frame + rest), decode) == (rest, NextView::Value(value)),
{
    assert(Seq::<u8>::empty() + (frame + rest) =~= frame + rest);
    assert((frame + rest).skip(frame.len() as int) =~= rest);
}

/// The reason given in place of a response whose text does not fit in a
/// field.
pub open spec fn response_too_large() -> Seq<char> {
    "Response too large"@
}

/// The frame that is written for a response: its own, or that of an error
/// where its text does not fit in a field.
pub open spec fn reply_frame(reply: ResponseView) -> Seq<u8> {
    if reply.fits() {
        response_frame(reply)
    } else {
        response_frame(ResponseView::Error(response_too_large()))
    }
}

/// A command frame that arrives in two reads, cut at any offset, asks for the
/// second read after the first and gives the command after the second.
/// Nothing stays buffered.
pub proof fn lemma_command_in_two_reads(command: CommandView, limit: nat, k: int)
    requires
        command.fits(),
        command.frame_len() <= limit,
        0 < k < command_frame(command).len(),
    ensures
        next_command(Seq::empty(), limit, Some(command_frame(command).take(k))) == (
            command_frame(command).take(k),
            NextView::<CommandView>::Read((limit - k) as nat),
        ),
        next_command(
            command_frame(command).take(k),
            limit,
            Some(command_frame(command).skip(k)),
        ) == (Seq::<u8>::empty(), NextView::Value(command)),
{
    let frame = command_frame(command);
    command_round_trip(command, Seq::empty());
    command_partial_delivery(command, k);
    assert(frame.take(k) + frame.skip(k) =~= frame);
    lemma_in_two_reads(frame, command, limit, k, commands());
}

/// A response frame that arrives in two reads, cut at any offset, asks for
/// the second read after the first and gives the response after the second.
/// Nothing stays buffered.
pub proof fn lemma_response_in_two_reads(response: ResponseView, limit: nat, k: int)
    requires
        response.fits(),
        response.frame_len() <= limit,
        0 < k < response_frame(response).len(),
    ensures
        next_response(Seq::empty(), limit, Some(response_frame(response).take(k))) == (
            response_frame(response).take(k),
            NextView::<ResponseView>::Read((limit - k) as nat),
        ),
        next_response(
            response_frame(response).take(k),
            limit,
            Some(response_frame(response).skip(k)),
        ) == (Seq::<u8>::empty(), NextView::Value(response)),
{
    let frame = response_frame(response);
    response_round_trip(response, Seq::empty());
    response_partial_delivery(response, k);
    assert(frame.take(k) + frame.skip(k) =~= frame);
    lemma_in_two_reads(frame, response, limit, k, responses());
}

/// Where a read brings a whole command frame and the start of the next, the
/// command is given and what follows it stays buffered.
pub proof fn lemma_next_command_is_kept(command: CommandView, limit: nat, rest: Seq<u8>)
    requires
        command.fits(),
        command.frame_len() + rest.len() <= limit,
    ensures
        next_command(Seq::empty(), limit, Some(command_frame(command) + rest)) == (
            rest,
            NextView::Value(command),
        ),
{
    command_round_trip(command, rest);
    lemma_leftover_is_kept(command_frame(command), rest, command, limit, commands());
}

/// The bytes of what a read returned.
pub open spec fn bytes_of(arrived: Option<&[u8]>) -> Option<Seq<u8>> {
    match arrived {
        Some(data) => Some(data@),
        None => None,
    }
}

/// Holds the bytes that have arrived on a connection and have not been
/// decoded yet, up to a limit.
pub struct ConnectionHandler {
    buf: BytesMut,
    limit: usize,
}

impl View for ConnectionHandler {
    type V = Seq<u8>;

    /// The bytes that are buffered.
    closed spec fn view(&self) -> Seq<u8> {
        contents(&self.buf)
    }
}

impl ConnectionHandler {
    /// The most bytes that the buffer takes. No buffer can hold more than
    /// `isize::MAX` bytes, so a greater limit counts as that.
    pub closed spec fn limit(&self) -> nat {
        if self.limit <= isize::MAX {
            self.limit as nat
        } else {
            isize::MAX as nat
        }
    }

    /// A handler with nothing buffered.
    pub fn new(limit: usize) -> (handler: Self)
        ensures
            handler@ == Seq::<u8>::empty(),
            handler.limit() == if limit <= isize::MAX {
                limit as int
            } else {
                isize::MAX as int
            },
    {
        ConnectionHandler { buf: BytesMut::with_capacity(INITIAL_CAPACITY), limit }
    }

    /// The number of bytes that are buffered.
    pub fn len(&self) -> (len: usize)
        ensures
            len == self@.len(),
    {
        self.buf.len()
    }

    /// The number of bytes that the buffer still takes.
    pub fn room(&self) -> (room: usize)
        ensures
            room == if self@.len() <= self.limit() {
                self.limit() - self@.len()
            } else {
                0
            },
    {
        let limit = if self.limit > usize::MAX / 2 {
            usize::MAX / 2
        } else {
            self.limit
        };
        let held = self.buf.len();
        if held < limit {
            limit - held
        } else {
            0
        }
    }

    /// Takes in what a read returned and says whether the connection can go
    /// on: `None` if it can, else the answer that ends it.
    fn ensure_filled<T>(&mut self, arrived: Option<&[u8]>) -> (stop: Option<Next<T>>)
        ensures
            final(self).limit() == old(self).limit(),
            match arrived {
                Some(data) => if data@.len() == 0 {
                    &&& stop matches Some(Next::Closed)
                    &&& final(self)@ == old(self)@
                } else if old(self)@.len() + data@.len() > old(self).limit() {
                    &&& stop matches Some(Next::Malformed(reason))
                    &&& reason@ == frame_too_large()
                    &&& final(self)@ == old(self)@
                } else {
                    &&& stop is None
                    &&& final(self)@ == old(self)@ + data@
                },
                None => stop is None && final(self)@ == old(self)@,
            },
    {
        match arrived {
            Some(data) => {
                if data.len() == 0 {
                    return Some(Next::Closed);
                }
                if data.len() > self.room() {
                    return Some(Next::Malformed(String::from_str("frame too large")));
                }
                self.buf.extend_from_slice(data);
                None
            },
            None => None,
        }
    }

    /// What to answer where the head of the buffer is cut short.
    fn ask_for_more<T>(&self) -> (next: Next<T>)
        ensures
            if self@.len() < self.limit() {
                next matches Next::Read(room) && room == self.limit() - self@.len()
            } else {
                next matches Next::Malformed(reason) && reason@ == frame_too_large()
            },
    {
        let room = self.room();
        if room > 0 {
            Next::Read(room)
        } else {
            Next::Malformed(String::from_str("frame too large"))
        }
    }

    /// Takes in what a read returned, if one was made, and gives the next
    /// command, or says what stands in its way.
    pub fn read_command(&mut self, arrived: Option<&[u8]>) -> (next: Next<Command>)
        ensures
            final(self).limit() == old(self).limit(),
            (final(self)@, next@) == next_command(
                old(self)@,
                old(self).limit(),
                bytes_of(arrived),
            ),
    {
        if let Some(stop) = self.ensure_filled(arrived) {
            return stop;
        }
        let mut cursor = Cursor::new(self.buf.as_ref());
        assert(cursor.remaining() =~= self@);
        let parsed = Parser::parse(&mut cursor);
        let length = cursor.position();
        match parsed {
            Ok(command) => {
                self.buf.advance(length);
                Next::Value(command)
            },
            Err(DecodeError::Malformed(reason)) => Next::Malformed(reason),
            Err(DecodeError::Incomplete) => self.ask_for_more(),
        }
    }

    /// Takes in what a read returned, if one was made, and gives the next
    /// response, or says what stands in its way.
    pub fn read_response(&mut self, arrived: Option<&[u8]>) -> (next: Next<Response>)
        ensures
            final(self).limit() == old(self).limit(),
            (final(self)@, next@) == next_response(
                old(self)@,
                old(self).limit(),
                bytes_of(arrived),
            ),
    {
        if let Some(stop) = self.ensure_filled(arrived) {
            return stop;
        }
        let mut cursor = Cursor::new(self.buf.as_ref());
        assert(cursor.remaining() =~= self@);
        let parsed = Parser::parse_response(&mut cursor);
        let length = cursor.position();
        match parsed {
            Ok(response) => {
                self.buf.advance(length);
                Next::Value(response)
            },
            Err(DecodeError::Malformed(reason)) => Next::Malformed(reason),
            Err(DecodeError::Incomplete) => self.ask_for_more(),
        }
    }

    /// The bytes to write for the response. They are to be flushed before
    /// the next read: the peer waits for them.
    pub fn write_response(&self, resp: &Response) -> (frame: Vec<u8>)
        ensures
            frame@ == reply_frame(resp@),
    {
        if resp.fits() {
            encode_response(resp)
        } else {
            let sorry = Response::Error(String::from_str("Response too large"));
            proof {
                reveal_strlit("Response too large");
                lemma_encoding_bound(response_too_large());
            }
            encode_response(&sorry)
        }
    }

    /// The bytes to write for the command, if it can be encoded. They are to
    /// be flushed before the next read: the peer waits for them.
    pub fn write_command(&self, cmd: &Command) -> (frame: Option<Vec<u8>>)
        ensures
            match frame {
                Some(frame) => cmd@.fits() && frame@ == command_frame(cmd@),
                None => !cmd@.fits(),
            },
    {
        if cmd.fits() {
            Some(encode_command(cmd))
        } else {
            None
        }
    }
}

} // verus!
