//! Encoding and decoding are inverse to each other, and a frame that is cut
//! short is never mistaken for anything else.
use super::{
    be16, be32, command_fields, command_frame, leading_command, leading_response, leading_text,
    leading_u32, one_field, response_field, response_frame, text_field, text_fits, two_fields,
    CommandView, Decoded, ResponseView,
};
use vstd::prelude::*;
use vstd::utf8::*;

verus! {

/// Four bytes, joined most significant first, are a 32-bit integer whose
/// bytes they are.
proof fn lemma_join_then_split(b0: int, b1: int, b2: int, b3: int)
    requires
        0 <= b0 < 0x100,
        0 <= b1 < 0x100,
        0 <= b2 < 0x100,
        0 <= b3 < 0x100,
    ensures
        ({
            let v = b0 * 0x100_0000 + b1 * 0x1_0000 + b2 * 0x100 + b3;
            &&& 0 <= v <= u32::MAX
            &&& v / 0x100_0000 == b0
            &&& v / 0x1_0000 % 0x100 == b1
            &&& v / 0x100 % 0x100 == b2
            &&& v % 0x100 == b3
        }),
{
}

/// The four bytes of a 32-bit integer, joined most significant first, are
/// the integer.
proof fn lemma_split_then_join(v: int)
    requires
        0 <= v <= u32::MAX,
    ensures
        0 <= v / 0x100_0000 < 0x100,
        (v / 0x100_0000) * 0x100_0000 + (v / 0x1_0000 % 0x100) * 0x1_0000 + (v / 0x100 % 0x100)
            * 0x100 + v % 0x100 == v,
{
}

/// The four bytes of `v`, read back as a big-endian integer, give `v`.
pub proof fn lemma_u32_round_trip(v: u32, rest: Seq<u8>)
    ensures
        leading_u32(be32(v) + rest) == Decoded::Complete(v, 4),
{
    let bytes = be32(v) + rest;
    assert(bytes[0] == be32(v)[0] && bytes[1] == be32(v)[1] && bytes[2] == be32(v)[2] && bytes[3]
        == be32(v)[3]);
    lemma_split_then_join(v as int);
}

/// Four bytes, read as a big-endian integer and written again, are the same
/// four bytes.
pub proof fn lemma_u32_bytes(bytes: Seq<u8>)
    requires
        bytes.len() >= 4,
    ensures
        leading_u32(bytes) matches Decoded::Complete(v, len) && len == 4 && be32(v) == bytes.take(
            4,
        ),
{
    lemma_join_then_split(bytes[0] as int, bytes[1] as int, bytes[2] as int, bytes[3] as int);
    let v = leading_u32(bytes)->Complete_0;
    assert(be32(v) =~= bytes.take(4));
}

/// A text field decodes to its text, whatever follows it.
pub proof fn lemma_text_round_trip(text: Seq<char>, rest: Seq<u8>)
    requires
        text_fits(text),
    ensures
        leading_text(text_field(text) + rest) == Decoded::Complete(
            text,
            text_field(text).len(),
        ),
        text_field(text).len() == 4 + encode_utf8(text).len(),
{
    let body = encode_utf8(text);
    let len = body.len() as u32;
    let bytes = text_field(text) + rest;
    assert(bytes =~= be32(len) + (body + rest));
    lemma_u32_round_trip(len, body + rest);
    assert(bytes.subrange(4, 4 + len) =~= body);
    encode_utf8_valid_utf8(text);
    encode_utf8_decode_utf8(text);
}

/// A text field that is cut short is incomplete.
pub proof fn lemma_text_cut_short(text: Seq<char>, k: int)
    requires
        text_fits(text),
        0 <= k < text_field(text).len(),
    ensures
        leading_text(text_field(text).take(k)) == Decoded::<Seq<char>>::Incomplete,
{
    let body = encode_utf8(text);
    let len = body.len() as u32;
    let cut = text_field(text).take(k);
    if k >= 4 {
        assert(cut =~= be32(len) + body.take(k - 4));
        lemma_u32_round_trip(len, body.take(k - 4));
    }
}

/// A text that was decoded fits in a field, and its field is the bytes that
/// it was decoded from.
pub proof fn lemma_text_span(bytes: Seq<u8>)
    requires
        leading_text(bytes) is Complete,
    ensures
        leading_text(bytes) matches Decoded::Complete(text, len) && text_fits(text) && len
            <= bytes.len() && text_field(text) == bytes.take(len as int),
{
    lemma_u32_bytes(bytes);
    let len = leading_u32(bytes)->Complete_0;
    let body = bytes.subrange(4, 4 + len);
    decode_utf8_encode_utf8(body);
    assert(text_field(decode_utf8(body)) =~= bytes.take(4 + len));
}

/// The opcode of a command.
pub open spec fn opcode_of(command: CommandView) -> u16 {
    match command {
        CommandView::Put(_, _) => super::OP_SET,
        CommandView::Get(_) => super::OP_GET,
        CommandView::Clear(_) => super::OP_CLEAR,
        CommandView::Ping(_) => super::OP_PING,
    }
}

/// The fields of a command, encoded in order.
pub open spec fn fields_of(command: CommandView) -> Seq<u8> {
    match command {
        CommandView::Put(key, value) => text_field(key) + text_field(value),
        CommandView::Get(key) => text_field(key),
        CommandView::Clear(key) => text_field(key),
        CommandView::Ping(message) => text_field(message),
    }
}

proof fn lemma_frame_parts(command: CommandView)
    ensures
        command_frame(command) =~= seq![0u8] + be16(opcode_of(command)) + fields_of(command),
        command_frame(command).len() == 3 + fields_of(command).len(),
{
}

proof fn lemma_fields_round_trip(command: CommandView, rest: Seq<u8>)
    requires
        command.fits(),
    ensures
        command_fields(opcode_of(command), fields_of(command) + rest) == Decoded::Complete(
            command,
            fields_of(command).len(),
        ),
        3 + fields_of(command).len() == command.frame_len(),
{
    match command {
        CommandView::Put(key, value) => {
            let bytes = fields_of(command) + rest;
            assert(bytes =~= text_field(key) + (text_field(value) + rest));
            lemma_text_round_trip(key, text_field(value) + rest);
            assert(bytes.skip(text_field(key).len() as int) =~= text_field(value) + rest);
            lemma_text_round_trip(value, rest);
        },
        CommandView::Get(key) => {
            lemma_text_round_trip(key, rest);
        },
        CommandView::Clear(key) => {
            lemma_text_round_trip(key, rest);
        },
        CommandView::Ping(message) => {
            lemma_text_round_trip(message, rest);
        },
    }
}

proof fn lemma_fields_cut_short(command: CommandView, k: int)
    requires
        command.fits(),
        0 <= k < fields_of(command).len(),
    ensures
        command_fields(opcode_of(command), fields_of(command).take(k)) == Decoded::<
            CommandView,
        >::Incomplete,
{
    match command {
        CommandView::Put(key, value) => {
            let first = text_field(key);
            let cut = fields_of(command).take(k);
            if k < first.len() {
                assert(cut =~= first.take(k));
                lemma_text_cut_short(key, k);
            } else {
                let tail = text_field(value).take(k - first.len());
                assert(cut =~= first + tail);
                lemma_text_round_trip(key, tail);
                assert(cut.skip(first.len() as int) =~= tail);
                lemma_text_cut_short(value, k - first.len());
            }
        },
        CommandView::Get(key) => {
            lemma_text_cut_short(key, k);
        },
        CommandView::Clear(key) => {
            lemma_text_cut_short(key, k);
        },
        CommandView::Ping(message) => {
            lemma_text_cut_short(message, k);
        },
    }
}

/// Decoding the frame of a command gives the command back, and the length of
/// its frame, whatever bytes follow the frame.
pub proof fn command_round_trip(command: CommandView, rest: Seq<u8>)
    requires
        command.fits(),
    ensures
        leading_command(command_frame(command) + rest) == Decoded::Complete(
            command,
            command_frame(command).len(),
        ),
        command_frame(command).len() == command.frame_len(),
{
    lemma_frame_parts(command);
    let bytes = command_frame(command) + rest;
    let opcode = opcode_of(command);
    assert(bytes[1] == be16(opcode)[0] && bytes[2] == be16(opcode)[1]);
    assert(bytes.skip(3) =~= fields_of(command) + rest);
    lemma_fields_round_trip(command, rest);
}

/// A command frame that is cut short, at any offset, decodes as incomplete;
/// once the rest of it has arrived, it decodes to the command.
pub proof fn command_partial_delivery(command: CommandView, k: int)
    requires
        command.fits(),
        0 <= k < command_frame(command).len(),
    ensures
        leading_command(command_frame(command).take(k)) == Decoded::<CommandView>::Incomplete,
        leading_command(command_frame(command).take(k) + command_frame(command).skip(k))
            == Decoded::Complete(command, command_frame(command).len()),
{
    lemma_frame_parts(command);
    let frame = command_frame(command);
    let opcode = opcode_of(command);
    let cut = frame.take(k);
    if k >= 3 {
        assert(cut[1] == be16(opcode)[0] && cut[2] == be16(opcode)[1]);
        assert(cut.skip(3) =~= fields_of(command).take(k - 3));
        lemma_fields_cut_short(command, k - 3);
    }
    assert(frame.take(k) + frame.skip(k) =~= frame + Seq::<u8>::empty());
    command_round_trip(command, Seq::empty());
}

/// A command that was decoded can be encoded, and its frame is the bytes that
/// it was decoded from, but for the reserved byte, which may be anything.
pub proof fn command_span(bytes: Seq<u8>)
    requires
        leading_command(bytes) is Complete,
    ensures
        leading_command(bytes) matches Decoded::Complete(command, len) && command.fits() && len
            == command.frame_len() && len <= bytes.len() && command_frame(command).skip(1)
            == bytes.subrange(1, len as int),
{
    let opcode = (bytes[1] * 0x100 + bytes[2]) as u16;
    let fields = bytes.skip(3);
    let command = leading_command(bytes)->Complete_0;
    let len = leading_command(bytes)->Complete_1;
    lemma_frame_parts(command);
    assert(be16(opcode) =~= bytes.subrange(1, 3));
    lemma_text_span(fields);
    let first = leading_text(fields)->Complete_1;
    if opcode == super::OP_SET {
        lemma_text_span(fields.skip(first as int));
        let second = leading_text(fields.skip(first as int))->Complete_1;
        assert(fields_of(command) =~= fields.take(first as int) + fields.skip(first as int).take(
            second as int,
        ));
        assert(fields_of(command) =~= bytes.subrange(3, len as int));
    } else {
        assert(fields_of(command) =~= bytes.subrange(3, len as int));
    }
    assert(command_frame(command).skip(1) =~= bytes.subrange(1, len as int));
}

/// Decoding the frame of a response gives the response back, and the length
/// of its frame, whatever bytes follow the frame.
pub proof fn response_round_trip(response: ResponseView, rest: Seq<u8>)
    requires
        response.fits(),
    ensures
        leading_response(response_frame(response) + rest) == Decoded::Complete(
            response,
            response_frame(response).len(),
        ),
        response_frame(response).len() == response.frame_len(),
{
    let bytes = response_frame(response) + rest;
    assert(bytes.skip(2) =~= text_field(response.text()) + rest);
    lemma_text_round_trip(response.text(), rest);
}

/// A response frame that is cut short, at any offset, decodes as incomplete;
/// once the rest of it has arrived, it decodes to the response.
pub proof fn response_partial_delivery(response: ResponseView, k: int)
    requires
        response.fits(),
        0 <= k < response_frame(response).len(),
    ensures
        leading_response(response_frame(response).take(k)) == Decoded::<
            ResponseView,
        >::Incomplete,
        leading_response(response_frame(response).take(k) + response_frame(response).skip(k))
            == Decoded::Complete(response, response_frame(response).len()),
{
    let frame = response_frame(response);
    let cut = frame.take(k);
    if k >= 2 {
        assert(cut.skip(2) =~= text_field(response.text()).take(k - 2));
        lemma_text_cut_short(response.text(), k - 2);
    }
    assert(frame.take(k) + frame.skip(k) =~= frame + Seq::<u8>::empty());
    response_round_trip(response, Seq::empty());
}

/// A response that was decoded can be encoded, and its frame is the bytes
/// that it was decoded from, but for the reserved byte, which may be anything.
pub proof fn response_span(bytes: Seq<u8>)
    requires
        leading_response(bytes) is Complete,
    ensures
        leading_response(bytes) matches Decoded::Complete(response, len) && response.fits() && len
            == response.frame_len() && len <= bytes.len() && response_frame(response).skip(1)
            == bytes.subrange(1, len as int),
{
    let response = leading_response(bytes)->Complete_0;
    let len = leading_response(bytes)->Complete_1;
    lemma_text_span(bytes.skip(2));
    assert(response_frame(response).skip(1) =~= bytes.subrange(1, len as int));
}

} // verus!
