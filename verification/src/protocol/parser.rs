//! Decoding of frames.
//!
//! A command frame is a reserved byte, a 16-bit opcode and the text fields of
//! the command. A response frame is a reserved byte, a status byte and one
//! text field. The reserved byte is not looked at.
use super::{
    get_string, get_u16, get_u8, leading_text, Command, CommandView, Cursor, DecodeError, Decoded,
    Response, ResponseView, reads,
};
use vstd::prelude::*;
use vstd::string::StringExecFns;

verus! {

/// The opcode of `Get`.
pub const OP_GET: u16 = 0;

/// The opcode of `Put`, which the protocol calls SET.
pub const OP_SET: u16 = 1;

/// The opcode of `Clear`.
pub const OP_CLEAR: u16 = 2;

/// The opcode of `Ping`.
pub const OP_PING: u16 = 3;

/// The status of `Okay`.
pub const STATUS_OK: u8 = 0;

/// The status of `Error`.
pub const STATUS_ERROR: u8 = 1;

/// The reason given for an opcode that names no command.
pub open spec fn unknown_command() -> Seq<char> {
    "Unknown command number"@
}

/// The reason given for a status that names no response.
pub open spec fn unknown_status() -> Seq<char> {
    "Unknown response type"@
}

/// The outcome of decoding one frame from a byte slice.
#[derive(Debug, PartialEq, Eq)]
pub enum DecodeResult<T> {
    /// The frame is cut short: wait for more bytes and decode again from the
    /// same offset.
    Incomplete,
    /// The bytes break the protocol, for the reason given.
    Malformed(String),
    /// The value, and the number of bytes that its frame takes up.
    Complete(T, usize),
}

impl<T: View> View for DecodeResult<T> {
    type V = Decoded<T::V>;

    open spec fn view(&self) -> Decoded<T::V> {
        match self {
            DecodeResult::Incomplete => Decoded::Incomplete,
            DecodeResult::Malformed(reason) => Decoded::Malformed(reason@),
            DecodeResult::Complete(value, len) => Decoded::Complete(value@, *len as nat),
        }
    }
}

impl<T> Decoded<T> {
    /// The same outcome for a value that starts `skipped` bytes further in.
    pub open spec fn after(self, skipped: nat) -> Decoded<T> {
        match self {
            Decoded::Complete(value, len) => Decoded::Complete(value, skipped + len),
            Decoded::Incomplete => Decoded::Incomplete,
            Decoded::Malformed(reason) => Decoded::Malformed(reason),
        }
    }
}

/// The command with one text field, made by `make`, at the head of `bytes`.
pub open spec fn one_field(bytes: Seq<u8>, make: spec_fn(Seq<char>) -> CommandView) -> Decoded<
    CommandView,
> {
    match leading_text(bytes) {
        Decoded::Complete(text, len) => Decoded::Complete(make(text), len),
        Decoded::Incomplete => Decoded::Incomplete,
        Decoded::Malformed(reason) => Decoded::Malformed(reason),
    }
}

/// The key and the value at the head of `bytes`. The key is looked at first:
/// if it is malformed, so is the pair, whatever follows.
pub open spec fn two_fields(bytes: Seq<u8>) -> Decoded<CommandView> {
    match leading_text(bytes) {
        Decoded::Complete(key, len) => match leading_text(bytes.skip(len as int)) {
            Decoded::Complete(value, more) => Decoded::Complete(
                CommandView::Put(key, value),
                len + more,
            ),
            Decoded::Incomplete => Decoded::Incomplete,
            Decoded::Malformed(reason) => Decoded::Malformed(reason),
        },
        Decoded::Incomplete => Decoded::Incomplete,
        Decoded::Malformed(reason) => Decoded::Malformed(reason),
    }
}

/// The fields of the command that `opcode` names, at the head of `bytes`.
pub open spec fn command_fields(opcode: u16, bytes: Seq<u8>) -> Decoded<CommandView> {
    if opcode == OP_GET {
        one_field(bytes, |key: Seq<char>| CommandView::Get(key))
    } else if opcode == OP_SET {
        two_fields(bytes)
    } else if opcode == OP_CLEAR {
        one_field(bytes, |key: Seq<char>| CommandView::Clear(key))
    } else if opcode == OP_PING {
        one_field(bytes, |message: Seq<char>| CommandView::Ping(message))
    } else {
        Decoded::Malformed(unknown_command())
    }
}

/// The command frame at the head of `bytes`: after the reserved byte and the
/// two bytes of the opcode, the fields that the opcode asks for.
pub open spec fn leading_command(bytes: Seq<u8>) -> Decoded<CommandView> {
    if bytes.len() < 3 {
        Decoded::Incomplete
    } else {
        command_fields((bytes[1] * 0x100 + bytes[2]) as u16, bytes.skip(3)).after(3)
    }
}

/// The field of the response that `status` names, at the head of `bytes`.
pub open spec fn response_field(status: u8, bytes: Seq<u8>) -> Decoded<ResponseView> {
    if status == STATUS_OK || status == STATUS_ERROR {
        match leading_text(bytes) {
            Decoded::Complete(text, len) => Decoded::Complete(
                if status == STATUS_OK {
                    ResponseView::Okay(text)
                } else {
                    ResponseView::Error(text)
                },
                len,
            ),
            Decoded::Incomplete => Decoded::Incomplete,
            Decoded::Malformed(reason) => Decoded::Malformed(reason),
        }
    } else {
        Decoded::Malformed(unknown_status())
    }
}

/// The response frame at the head of `bytes`: after the reserved byte and
/// the status byte, the text.
pub open spec fn leading_response(bytes: Seq<u8>) -> Decoded<ResponseView> {
    if bytes.len() < 2 {
        Decoded::Incomplete
    } else {
        response_field(bytes[1], bytes.skip(2)).after(2)
    }
}

/// Holds the functions that decode frames.
pub struct Parser {}

impl Parser {
    /// Reads one command frame. On success the cursor stands behind the
    /// frame; otherwise it has not moved.
    pub fn parse(data: &mut Cursor) -> (r: Result<Command, DecodeError>)
        ensures
            reads(*old(data), *final(data), r, leading_command(old(data).remaining())),
    {
        let mut probe = *data;
        let _header = match get_u8(&mut probe) {
            Ok(header) => header,
            Err(e) => return Err(e),
        };
        assert(probe.remaining() =~= old(data).remaining().skip(1));
        let command = match get_u16(&mut probe) {
            Ok(command) => command,
            Err(e) => return Err(e),
        };
        assert(probe.remaining() =~= old(data).remaining().skip(3));
        let parsed = if command == OP_GET {
            Parser::parse_get(&mut probe)
        } else if command == OP_SET {
            Parser::parse_set(&mut probe)
        } else if command == OP_CLEAR {
            Parser::parse_clear(&mut probe)
        } else if command == OP_PING {
            Parser::parse_ping(&mut probe)
        } else {
            Err(DecodeError::Malformed(String::from_str("Unknown command number")))
        };
        match parsed {
            Ok(command) => {
                *data = probe;
                Ok(command)
            },
            Err(e) => Err(e),
        }
    }

    /// Reads one response frame. On success the cursor stands behind the
    /// frame; otherwise it has not moved.
    pub fn parse_response(data: &mut Cursor) -> (r: Result<Response, DecodeError>)
        ensures
            reads(*old(data), *final(data), r, leading_response(old(data).remaining())),
    {
        let mut probe = *data;
        let _header = match get_u8(&mut probe) {
            Ok(header) => header,
            Err(e) => return Err(e),
        };
        assert(probe.remaining() =~= old(data).remaining().skip(1));
        let response_type = match get_u8(&mut probe) {
            Ok(response_type) => response_type,
            Err(e) => return Err(e),
        };
        assert(probe.remaining() =~= old(data).remaining().skip(2));
        if response_type != STATUS_OK && response_type != STATUS_ERROR {
            return Err(DecodeError::Malformed(String::from_str("Unknown response type")));
        }
        let text = match get_string(&mut probe) {
            Ok(text) => text,
            Err(e) => return Err(e),
        };
        *data = probe;
        if response_type == STATUS_OK {
            Ok(Response::Okay(text))
        } else {
            Ok(Response::Error(text))
        }
    }

    fn parse_get(data: &mut Cursor) -> (r: Result<Command, DecodeError>)
        ensures
            reads(*old(data), *final(data), r, command_fields(OP_GET, old(data).remaining())),
    {
        let key = match get_string(data) {
            Ok(key) => key,
            Err(e) => return Err(e),
        };
        Ok(Command::Get(key))
    }

    fn parse_set(data: &mut Cursor) -> (r: Result<Command, DecodeError>)
        ensures
            reads(*old(data), *final(data), r, command_fields(OP_SET, old(data).remaining())),
    {
        let mut probe = *data;
        let key = match get_string(&mut probe) {
            Ok(key) => key,
            Err(e) => return Err(e),
        };
        assert(probe.remaining() =~= old(data).remaining().skip(
            probe.consumed() - old(data).consumed(),
        ));
        let value = match get_string(&mut probe) {
            Ok(value) => value,
            Err(e) => return Err(e),
        };
        *data = probe;
        Ok(Command::Put(key, value))
    }

    fn parse_clear(data: &mut Cursor) -> (r: Result<Command, DecodeError>)
        ensures
            reads(*old(data), *final(data), r, command_fields(OP_CLEAR, old(data).remaining())),
    {
        let key = match get_string(data) {
            Ok(key) => key,
            Err(e) => return Err(e),
        };
        Ok(Command::Clear(key))
    }

    fn parse_ping(data: &mut Cursor) -> (r: Result<Command, DecodeError>)
        ensures
            reads(*old(data), *final(data), r, command_fields(OP_PING, old(data).remaining())),
    {
        let message = match get_string(data) {
            Ok(message) => message,
            Err(e) => return Err(e),
        };
        Ok(Command::Ping(message))
    }
}

/// Decodes the command frame at the head of `bytes`.
pub fn decode_command(bytes: &[u8]) -> (r: DecodeResult<Command>)
    ensures
        r@ == leading_command(bytes@),
{
    let mut cursor = Cursor::new(bytes);
    assert(cursor.remaining() =~= bytes@);
    match Parser::parse(&mut cursor) {
        Ok(command) => DecodeResult::Complete(command, cursor.position()),
        Err(DecodeError::Incomplete) => DecodeResult::Incomplete,
        Err(DecodeError::Malformed(reason)) => DecodeResult::Malformed(reason),
    }
}

/// Decodes the response frame at the head of `bytes`.
pub fn decode_response(bytes: &[u8]) -> (r: DecodeResult<Response>)
    ensures
        r@ == leading_response(bytes@),
{
    let mut cursor = Cursor::new(bytes);
    assert(cursor.remaining() =~= bytes@);
    match Parser::parse_response(&mut cursor) {
        Ok(response) => DecodeResult::Complete(response, cursor.position()),
        Err(DecodeError::Incomplete) => DecodeResult::Incomplete,
        Err(DecodeError::Malformed(reason)) => DecodeResult::Malformed(reason),
    }
}

} // verus!
