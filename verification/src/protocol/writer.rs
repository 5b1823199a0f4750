//! Encoding of frames.
use super::{
    be16, be32, text_field, text_fits, Command, CommandView, Response, ResponseView, OP_CLEAR,
    OP_GET, OP_PING, OP_SET, STATUS_ERROR, STATUS_OK,
};
use vstd::prelude::*;
use vstd::string::StringSliceAdditionalSpecFns;
use vstd::utf8::*;

verus! {

impl CommandView {
    /// Whether the command can be encoded: each of its texts fits in a field.
    pub open spec fn fits(self) -> bool {
        match self {
            CommandView::Put(key, value) => text_fits(key) && text_fits(value),
            CommandView::Get(key) => text_fits(key),
            CommandView::Clear(key) => text_fits(key),
            CommandView::Ping(message) => text_fits(message),
        }
    }

    /// The number of bytes in the command's frame: three of header, and for
    /// each field four of length and the bytes of the text.
    pub open spec fn frame_len(self) -> nat {
        match self {
            CommandView::Put(key, value) => 3 + 4 + encode_utf8(key).len() + 4 + encode_utf8(
                value,
            ).len(),
            CommandView::Get(key) => 3 + 4 + encode_utf8(key).len(),
            CommandView::Clear(key) => 3 + 4 + encode_utf8(key).len(),
            CommandView::Ping(message) => 3 + 4 + encode_utf8(message).len(),
        }
    }
}

impl ResponseView {
    /// The text that the response carries.
    pub open spec fn text(self) -> Seq<char> {
        match self {
            ResponseView::Okay(message) => message,
            ResponseView::Error(reason) => reason,
        }
    }

    /// Whether the response can be encoded: its text fits in a field.
    pub open spec fn fits(self) -> bool {
        text_fits(self.text())
    }

    /// The number of bytes in the response's frame: two of header, four of
    /// length and the bytes of the text.
    pub open spec fn frame_len(self) -> nat {
        2 + 4 + encode_utf8(self.text()).len()
    }
}

/// The frame of a command: a zero byte, the opcode, and the fields in order.
/// The message of a ping is encoded as it is, empty or not.
pub open spec fn command_frame(command: CommandView) -> Seq<u8> {
    match command {
        CommandView::Put(key, value) => seq![0u8] + be16(OP_SET) + text_field(key) + text_field(
            value,
        ),
        CommandView::Get(key) => seq![0u8] + be16(OP_GET) + text_field(key),
        CommandView::Clear(key) => seq![0u8] + be16(OP_CLEAR) + text_field(key),
        CommandView::Ping(message) => seq![0u8] + be16(OP_PING) + text_field(message),
    }
}

/// The frame of a response: a zero byte, the status, and the text.
pub open spec fn response_frame(response: ResponseView) -> Seq<u8> {
    match response {
        ResponseView::Okay(message) => seq![0u8, STATUS_OK] + text_field(message),
        ResponseView::Error(reason) => seq![0u8, STATUS_ERROR] + text_field(reason),
    }
}

impl Command {
    /// Whether the command can be encoded.
    pub fn fits(&self) -> (fits: bool)
        ensures
            fits == self@.fits(),
    {
        match self {
            Command::Put(key, value) => string_fits(key) && string_fits(value),
            Command::Get(key) => string_fits(key),
            Command::Clear(key) => string_fits(key),
            Command::Ping(message) => string_fits(message),
        }
    }
}

impl Response {
    /// Whether the response can be encoded.
    pub fn fits(&self) -> (fits: bool)
        ensures
            fits == self@.fits(),
    {
        match self {
            Response::Okay(message) => string_fits(message),
            Response::Error(reason) => string_fits(reason),
        }
    }
}

/// Whether the byte count of the text fits in 32 bits.
pub fn string_fits(text: &String) -> (fits: bool)
    ensures
        fits == text_fits(text@),
{
    text.as_str().as_bytes().len() <= 0xffff_ffff
}

/// Appends a 16-bit integer, most significant byte first.
pub fn put_u16(buf: &mut Vec<u8>, v: u16)
    ensures
        final(buf)@ == old(buf)@ + be16(v),
{
    buf.push((v >> 8) as u8);
    buf.push((v & 0xff) as u8);
    assert((v >> 8) as u8 == (v / 0x100) as u8 && (v & 0xff) as u8 == (v % 0x100) as u8)
        by (bit_vector);
    assert(buf@ =~= old(buf)@ + be16(v));
}

/// Appends a 32-bit integer, most significant byte first.
pub fn put_u32(buf: &mut Vec<u8>, v: u32)
    ensures
        final(buf)@ == old(buf)@ + be32(v),
{
    buf.push((v >> 24) as u8);
    buf.push(((v >> 16) & 0xff) as u8);
    buf.push(((v >> 8) & 0xff) as u8);
    buf.push((v & 0xff) as u8);
    assert((v >> 24) as u8 == (v / 0x100_0000) as u8 && ((v >> 16) & 0xff) as u8 == (v / 0x1_0000
        % 0x100) as u8 && ((v >> 8) & 0xff) as u8 == (v / 0x100 % 0x100) as u8 && (v & 0xff) as u8
        == (v % 0x100) as u8) by (bit_vector);
    assert(buf@ =~= old(buf)@ + be32(v));
}

/// Appends a text field: four bytes for the length `n`, followed by the `n`
/// bytes of the text.
pub fn write_string(buf: &mut Vec<u8>, data: &String)
    requires
        text_fits(data@),
    ensures
        final(buf)@ == old(buf)@ + text_field(data@),
{
    let bytes = data.as_str().as_bytes();
    let len = bytes.len() as u32;
    put_u32(buf, len);
    buf.extend_from_slice(bytes);
    assert(buf@ =~= old(buf)@ + text_field(data@));
}

/// Holds the functions that encode frames.
pub struct Writer {}

impl Writer {
    /// Appends the frame of the command to `buf`.
    pub fn write_command(buf: &mut Vec<u8>, cmd: &Command)
        requires
            cmd@.fits(),
        ensures
            final(buf)@ == old(buf)@ + command_frame(cmd@),
    {
        match cmd {
            Command::Get(key) => {
                buf.push(0);
                put_u16(buf, OP_GET);
                write_string(buf, key);
            },
            Command::Put(key, value) => {
                buf.push(0);
                put_u16(buf, OP_SET);
                write_string(buf, key);
                write_string(buf, value);
            },
            Command::Clear(key) => {
                buf.push(0);
                put_u16(buf, OP_CLEAR);
                write_string(buf, key);
            },
            Command::Ping(message) => {
                buf.push(0);
                put_u16(buf, OP_PING);
                write_string(buf, message);
            },
        }
        assert(buf@ =~= old(buf)@ + command_frame(cmd@));
    }

    /// Appends the frame of the response to `buf`.
    pub fn write_response(buf: &mut Vec<u8>, res: &Response)
        requires
            res@.fits(),
        ensures
            final(buf)@ == old(buf)@ + response_frame(res@),
    {
        match res {
            Response::Okay(msg) => {
                buf.push(0);
                buf.push(STATUS_OK);
                write_string(buf, msg);
            },
            Response::Error(msg) => {
                buf.push(0);
                buf.push(STATUS_ERROR);
                write_string(buf, msg);
            },
        }
        assert(buf@ =~= old(buf)@ + response_frame(res@));
    }
}

/// The frame of the command.
pub fn encode_command(cmd: &Command) -> (frame: Vec<u8>)
    requires
        cmd@.fits(),
    ensures
        frame@ == command_frame(cmd@),
        frame@.len() == cmd@.frame_len(),
{
    let mut frame = Vec::new();
    Writer::write_command(&mut frame, cmd);
    assert(frame@ =~= command_frame(cmd@));
    frame
}

/// The frame of the response.
pub fn encode_response(res: &Response) -> (frame: Vec<u8>)
    requires
        res@.fits(),
    ensures
        frame@ == response_frame(res@),
        frame@.len() == res@.frame_len(),
{
    let mut frame = Vec::new();
    Writer::write_response(&mut frame, res);
    assert(frame@ =~= response_frame(res@));
    frame
}

} // verus!
