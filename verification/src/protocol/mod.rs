//! The wire protocol: commands, responses, and the fields they are made of.
//!
//! All integers are big-endian. A text field is a 32-bit byte count followed
//! by that many bytes of UTF-8.
use vstd::prelude::*;
use vstd::slice::slice_to_vec;
use vstd::string::StringExecFns;
use vstd::utf8::*;

mod parser;
pub mod roundtrip;
mod writer;

pub use parser::{
    command_fields, decode_command, decode_response, leading_command, leading_response, one_field,
    response_field, two_fields, unknown_command, unknown_status, DecodeResult, Parser, OP_CLEAR,
    OP_GET, OP_PING, OP_SET, STATUS_ERROR, STATUS_OK,
};
pub use writer::{
    command_frame, encode_command, encode_response, put_u16, put_u32, response_frame, string_fits,
    write_string, Writer,
};

verus! {

/// A request sent by a client.
#[derive(Debug, PartialEq, Eq)]
pub enum Command {
    /// Binds the key to the value, replacing what it was bound to.
    Put(String, String),
    /// Asks for the value bound to the key.
    Get(String),
    /// Removes the key and asks for the value it was bound to.
    Clear(String),
    /// Asks for the message to be echoed.
    Ping(String),
}

/// The reply to one command.
#[derive(Debug, PartialEq, Eq)]
pub enum Response {
    /// The command was carried out. The text is its result.
    Okay(String),
    /// The command could not be carried out. The text is the reason.
    Error(String),
}

/// The mathematical value of a [`Command`].
pub enum CommandView {
    Put(Seq<char>, Seq<char>),
    Get(Seq<char>),
    Clear(Seq<char>),
    Ping(Seq<char>),
}

/// The mathematical value of a [`Response`].
pub enum ResponseView {
    Okay(Seq<char>),
    Error(Seq<char>),
}

impl View for Command {
    type V = CommandView;

    open spec fn view(&self) -> CommandView {
        match self {
            Command::Put(key, value) => CommandView::Put(key@, value@),
            Command::Get(key) => CommandView::Get(key@),
            Command::Clear(key) => CommandView::Clear(key@),
            Command::Ping(message) => CommandView::Ping(message@),
        }
    }
}

impl View for Response {
    type V = ResponseView;

    open spec fn view(&self) -> ResponseView {
        match self {
            Response::Okay(message) => ResponseView::Okay(message@),
            Response::Error(reason) => ResponseView::Error(reason@),
        }
    }
}

/// Why a read from a [`Cursor`] gave no value.
#[derive(Debug, PartialEq, Eq)]
pub enum DecodeError {
    /// The bytes end before the value does. More bytes may complete it.
    Incomplete,
    /// The bytes that are there break the protocol. No further byte mends that.
    Malformed(String),
}

/// What the head of a byte sequence holds: the outcome of reading one value
/// from it.
pub enum Decoded<T> {
    /// The bytes end before the value does.
    Incomplete,
    /// The bytes break the protocol, for the reason given.
    Malformed(Seq<char>),
    /// The value, and the number of bytes that it takes up.
    Complete(T, nat),
}

/// The reason given for text that is not UTF-8.
pub open spec fn invalid_text() -> Seq<char> {
    "Invalid UTF-8 in a text field"@
}

/// The two bytes of a 16-bit integer, most significant first.
pub open spec fn be16(v: u16) -> Seq<u8> {
    seq![(v / 0x100) as u8, (v % 0x100) as u8]
}

/// The four bytes of a 32-bit integer, most significant first.
pub open spec fn be32(v: u32) -> Seq<u8> {
    seq![
        (v / 0x100_0000) as u8,
        (v / 0x1_0000 % 0x100) as u8,
        (v / 0x100 % 0x100) as u8,
        (v % 0x100) as u8,
    ]
}

/// A text field: the byte count of the text's UTF-8 encoding, then the encoding.
pub open spec fn text_field(text: Seq<char>) -> Seq<u8> {
    be32(encode_utf8(text).len() as u32) + encode_utf8(text)
}

/// Whether the text can stand in a field: its byte count fits in 32 bits.
pub open spec fn text_fits(text: Seq<char>) -> bool {
    encode_utf8(text).len() <= u32::MAX
}

/// The byte at the head of `bytes`.
pub open spec fn leading_u8(bytes: Seq<u8>) -> Decoded<u8> {
    if bytes.len() < 1 {
        Decoded::Incomplete
    } else {
        Decoded::Complete(bytes[0], 1)
    }
}

/// The big-endian 16-bit integer at the head of `bytes`.
pub open spec fn leading_u16(bytes: Seq<u8>) -> Decoded<u16> {
    if bytes.len() < 2 {
        Decoded::Incomplete
    } else {
        Decoded::Complete((bytes[0] * 0x100 + bytes[1]) as u16, 2)
    }
}

/// The big-endian 32-bit integer at the head of `bytes`.
pub open spec fn leading_u32(bytes: Seq<u8>) -> Decoded<u32> {
    if bytes.len() < 4 {
        Decoded::Incomplete
    } else {
        Decoded::Complete(
            (bytes[0] * 0x100_0000 + bytes[1] * 0x1_0000 + bytes[2] * 0x100 + bytes[3]) as u32,
            4,
        )
    }
}

/// The first `len` bytes of `bytes`.
pub open spec fn leading_slice(bytes: Seq<u8>, len: nat) -> Decoded<Seq<u8>> {
    if bytes.len() < len {
        Decoded::Incomplete
    } else {
        Decoded::Complete(bytes.take(len as int), len)
    }
}

/// The text field at the head of `bytes`. The byte count is compared with
/// what is there before the text is looked at, so a field that is cut short
/// is incomplete whatever its bytes are.
pub open spec fn leading_text(bytes: Seq<u8>) -> Decoded<Seq<char>> {
    match leading_u32(bytes) {
        Decoded::Complete(len, _) => {
            if bytes.len() < 4 + len {
                Decoded::Incomplete
            } else if valid_utf8(bytes.subrange(4, 4 + len)) {
                Decoded::Complete(decode_utf8(bytes.subrange(4, 4 + len)), (4 + len) as nat)
            } else {
                Decoded::Malformed(invalid_text())
            }
        },
        Decoded::Incomplete => Decoded::Incomplete,
        Decoded::Malformed(reason) => Decoded::Malformed(reason),
    }
}

/// A read position in a byte slice.
#[derive(Clone, Copy)]
pub struct Cursor<'a> {
    data: &'a [u8],
    pos: usize,
}

impl<'a> Cursor<'a> {
    #[verifier::type_invariant]
    spec fn in_bounds(self) -> bool {
        self.pos <= self.data@.len()
    }

    /// All the bytes under the cursor, read or not.
    pub closed spec fn bytes(self) -> Seq<u8> {
        self.data@
    }

    /// The number of bytes that have been read.
    pub closed spec fn consumed(self) -> nat {
        self.pos as nat
    }

    /// The bytes that have not been read.
    pub open spec fn remaining(self) -> Seq<u8> {
        self.bytes().skip(self.consumed() as int)
    }

    /// A cursor at the start of `data`.
    pub fn new(data: &'a [u8]) -> (cur: Self)
        ensures
            cur.bytes() == data@,
            cur.consumed() == 0,
    {
        Cursor { data, pos: 0 }
    }

    /// The number of bytes that have been read.
    pub fn position(&self) -> (pos: usize)
        ensures
            pos == self.consumed(),
            pos <= self.bytes().len(),
    {
        proof {
            use_type_invariant(self);
        }
        self.pos
    }

    /// The slice under the cursor.
    pub fn get_ref(&self) -> (data: &'a [u8])
        ensures
            data@ == self.bytes(),
    {
        self.data
    }

    /// Whether a byte is left to read.
    pub fn has_remaining(&self) -> (some: bool)
        ensures
            some == (self.remaining().len() > 0),
    {
        proof {
            use_type_invariant(self);
        }
        self.pos < self.data.len()
    }
}

/// Whether a read that returned `r` and took the cursor from `before` to
/// `after` did what `want` says of the unread bytes: on a value, the cursor
/// has moved past it; otherwise the cursor is where it was. Either way the
/// cursor stays within its bytes.
pub open spec fn reads<T: View>(
    before: Cursor,
    after: Cursor,
    r: Result<T, DecodeError>,
    want: Decoded<T::V>,
) -> bool {
    &&& after.bytes() == before.bytes()
    &&& before.consumed() <= before.bytes().len()
    &&& after.consumed() <= after.bytes().len()
    &&& match want {
        Decoded::Complete(value, len) => {
            &&& r matches Ok(got)
            &&& got@ == value
            &&& after.consumed() == before.consumed() + len
        },
        Decoded::Incomplete => {
            &&& r matches Err(DecodeError::Incomplete)
            &&& after.consumed() == before.consumed()
        },
        Decoded::Malformed(reason) => {
            &&& r matches Err(DecodeError::Malformed(said))
            &&& said@ == reason
            &&& after.consumed() == before.consumed()
        },
    }
}

/// Reads one byte.
pub fn get_u8(cur: &mut Cursor) -> (r: Result<u8, DecodeError>)
    ensures
        reads(*old(cur), *final(cur), r, leading_u8(old(cur).remaining())),
{
    proof {
        use_type_invariant(&*cur);
    }
    if !cur.has_remaining() {
        return Err(DecodeError::Incomplete);
    }
    let byte = cur.data[cur.pos];
    cur.pos = cur.pos + 1;
    Ok(byte)
}

/// Reads `len` bytes and gives them as a slice of the bytes under the cursor.
pub fn get_slice<'a>(cur: &mut Cursor<'a>, len: usize) -> (r: Result<&'a [u8], DecodeError>)
    ensures
        reads(*old(cur), *final(cur), r, leading_slice(old(cur).remaining(), len as nat)),
{
    let from = cur.position();
    let data = cur.get_ref();
    if data.len() - from < len {
        return Err(DecodeError::Incomplete);
    }
    let until = from + len;
    cur.pos = until;
    let taken = &data[from..until];
    assert(taken@ =~= old(cur).remaining().take(len as int));
    Ok(taken)
}

/// Reads a big-endian 16-bit integer.
pub fn get_u16(cur: &mut Cursor) -> (r: Result<u16, DecodeError>)
    ensures
        reads(*old(cur), *final(cur), r, leading_u16(old(cur).remaining())),
{
    let line = match get_slice(cur, 2) {
        Ok(line) => line,
        Err(e) => return Err(e),
    };
    let (hi, lo) = (line[0], line[1]);
    assert(((hi as u16) << 8) | (lo as u16) == hi * 0x100 + lo) by (bit_vector);
    Ok(((hi as u16) << 8) | (lo as u16))
}

/// Reads a big-endian 32-bit integer.
pub fn get_u32(cur: &mut Cursor) -> (r: Result<u32, DecodeError>)
    ensures
        reads(*old(cur), *final(cur), r, leading_u32(old(cur).remaining())),
{
    let line = match get_slice(cur, 4) {
        Ok(line) => line,
        Err(e) => return Err(e),
    };
    let (b0, b1, b2, b3) = (line[0], line[1], line[2], line[3]);
    assert(((b0 as u32) << 24) | ((b1 as u32) << 16) | ((b2 as u32) << 8) | (b3 as u32) == b0
        * 0x100_0000 + b1 * 0x1_0000 + b2 * 0x100 + b3) by (bit_vector);
    Ok(((b0 as u32) << 24) | ((b1 as u32) << 16) | ((b2 as u32) << 8) | (b3 as u32))
}

/// Reads a text field. The cursor moves only if the whole field is there and
/// is UTF-8.
pub fn get_string(cur: &mut Cursor) -> (r: Result<String, DecodeError>)
    ensures
        reads(*old(cur), *final(cur), r, leading_text(old(cur).remaining())),
{
    proof {
        use_type_invariant(&*cur);
    }
    let mut probe = *cur;
    let len = match get_u32(&mut probe) {
        Ok(len) => len,
        Err(e) => return Err(e),
    };
    assert(probe.remaining() =~= old(cur).remaining().skip(4));
    let data = match get_slice(&mut probe, len as usize) {
        Ok(data) => data,
        Err(e) => return Err(e),
    };
    assert(data@ =~= old(cur).remaining().subrange(4, 4 + len));
    match String::from_utf8(slice_to_vec(data)) {
        Ok(text) => {
            *cur = probe;
            Ok(text)
        },
        Err(_) => Err(DecodeError::Malformed(String::from_str("Invalid UTF-8 in a text field"))),
    }
}

} // verus!
