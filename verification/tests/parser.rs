use kvstore::protocol::{
    decode_command, decode_response, get_slice, get_string, get_u16, get_u32, get_u8, Command,
    Cursor, DecodeError, DecodeResult, Parser, Response,
};

fn write_u16(buf: &mut Vec<u8>, val: u16) {
    buf.extend_from_slice(&val.to_be_bytes());
}

fn write_u32(buf: &mut Vec<u8>, val: u32) {
    buf.extend_from_slice(&val.to_be_bytes());
}

fn write_str<'a>(buf: &'a mut Vec<u8>, val: &'a str) {
    write_u32(buf, val.len() as u32);
    buf.extend_from_slice(val.as_bytes());
}

#[test]
fn it_works_for_get() {
    let mut buf: Vec<u8> = vec![];
    let command_num: u16 = 0;
    buf.push(0); // header bit
    write_u16(&mut buf, command_num);

    write_str(&mut buf, "foobar");

    let mut cur = Cursor::new(buf.as_slice());
    let command = Parser::parse(&mut cur).unwrap();

    match command {
        Command::Get(matched_key) => {
            assert_eq!(matched_key, "foobar");
        }
        // basically fail the test
        _ => assert_eq!(true, false),
    }
}

#[test]
fn it_works_for_clear() {
    let mut buf: Vec<u8> = vec![];
    let command_num: u16 = 2;
    buf.push(0); // header bit
    write_u16(&mut buf, command_num);
    write_str(&mut buf, "foobar");
    let mut cur = Cursor::new(buf.as_slice());
    let command = Parser::parse(&mut cur).unwrap();
    match command {
        Command::Clear(matched_key) => {
            assert_eq!(matched_key, "foobar");
        }
        // basically fail the test
        _ => assert_eq!(true, false),
    }
}

#[test]
fn it_works_for_set() {
    let mut buf: Vec<u8> = vec![];
    let command_num: u16 = 1;
    buf.push(0); // header bit
    write_u16(&mut buf, command_num);
    write_str(&mut buf, "foobar");
    write_str(&mut buf, "value");
    let mut cur = Cursor::new(buf.as_slice());
    let command = Parser::parse(&mut cur).unwrap();
    match command {
        Command::Put(matched_key, matched_value) => {
            assert_eq!(matched_key, "foobar");
            assert_eq!(matched_value, "value");
        }
        // basically fail the test
        _ => assert_eq!(true, false),
    }
}

#[test]
fn it_works_for_response_ok() {
    let mut buf: Vec<u8> = vec![];
    let response_type: u8 = 0; // ok
    buf.push(0); // header bit
    buf.push(response_type);
    write_str(&mut buf, "OK");
    let mut cur = Cursor::new(buf.as_slice());
    let response = Parser::parse_response(&mut cur).unwrap();
    match response {
        Response::Okay(matched_message) => {
            assert_eq!(matched_message, "OK");
        }
        // basically fail the test
        _ => assert_eq!(true, false),
    }
}

#[test]
fn it_works_for_ping() {
    let mut buf: Vec<u8> = vec![0];
    write_u16(&mut buf, 3);
    write_str(&mut buf, "hello");
    let mut cur = Cursor::new(buf.as_slice());
    assert_eq!(Parser::parse(&mut cur), Ok(Command::Ping(String::from("hello"))));
    assert_eq!(cur.position(), 12);
}

#[test]
fn it_works_for_response_error() {
    let mut buf: Vec<u8> = vec![0, 1];
    write_str(&mut buf, "Key not found");
    let mut cur = Cursor::new(buf.as_slice());
    assert_eq!(
        Parser::parse_response(&mut cur),
        Ok(Response::Error(String::from("Key not found")))
    );
    assert_eq!(cur.position(), buf.len());
}

#[test]
fn parse_leaves_the_cursor_behind_the_frame() {
    let mut buf: Vec<u8> = vec![0];
    write_u16(&mut buf, 0);
    write_str(&mut buf, "k");
    let frame_len = buf.len();
    buf.extend_from_slice(&[0, 0, 3]);
    let mut cur = Cursor::new(buf.as_slice());
    assert_eq!(Parser::parse(&mut cur), Ok(Command::Get(String::from("k"))));
    assert_eq!(cur.position(), frame_len);
    assert_eq!(cur.position(), 8);
    assert!(cur.has_remaining());
    assert_eq!(cur.get_ref(), buf.as_slice());
    // the second frame is cut short, and the cursor stays where it is
    assert_eq!(Parser::parse(&mut cur), Err(DecodeError::Incomplete));
    assert_eq!(cur.position(), frame_len);
}

#[test]
fn the_reserved_byte_is_not_looked_at() {
    let mut buf: Vec<u8> = vec![0xab];
    write_u16(&mut buf, 0);
    write_str(&mut buf, "k");
    assert_eq!(
        decode_command(&buf),
        DecodeResult::Complete(Command::Get(String::from("k")), 8)
    );
    let mut buf: Vec<u8> = vec![0x7f, 0];
    write_str(&mut buf, "fine");
    assert_eq!(
        decode_response(&buf),
        DecodeResult::Complete(Response::Okay(String::from("fine")), 10)
    );
}

#[test]
fn an_unknown_opcode_is_malformed() {
    let buf: Vec<u8> = vec![0, 0, 4];
    assert_eq!(
        decode_command(&buf),
        DecodeResult::Malformed(String::from("Unknown command number"))
    );
    let buf: Vec<u8> = vec![0, 1, 0, 0, 0, 0, 0];
    assert_eq!(
        decode_command(&buf),
        DecodeResult::Malformed(String::from("Unknown command number"))
    );
    let mut cur = Cursor::new(buf.as_slice());
    assert_eq!(
        Parser::parse(&mut cur),
        Err(DecodeError::Malformed(String::from("Unknown command number")))
    );
    assert_eq!(cur.position(), 0);
}

#[test]
fn a_command_number_of_four_bytes_is_not_this_protocol() {
    // An opcode has two bytes. Four bytes of opcode 0 read as GET with the
    // first two bytes of a length following.
    let mut buf: Vec<u8> = vec![0];
    write_u32(&mut buf, 0);
    write_str(&mut buf, "foobar");
    assert_eq!(
        decode_command(&buf),
        DecodeResult::Complete(Command::Get(String::new()), 7)
    );
}

#[test]
fn an_unknown_status_is_malformed() {
    let buf: Vec<u8> = vec![0, 2];
    assert_eq!(
        decode_response(&buf),
        DecodeResult::Malformed(String::from("Unknown response type"))
    );
    let mut buf: Vec<u8> = vec![0, 0xff];
    write_str(&mut buf, "x");
    assert_eq!(
        decode_response(&buf),
        DecodeResult::Malformed(String::from("Unknown response type"))
    );
}

#[test]
fn text_that_is_not_utf8_is_malformed() {
    let mut buf: Vec<u8> = vec![0];
    write_u16(&mut buf, 0);
    write_u32(&mut buf, 2);
    buf.extend_from_slice(&[0xc3, 0x28]);
    assert_eq!(
        decode_command(&buf),
        DecodeResult::Malformed(String::from("Invalid UTF-8 in a text field"))
    );
    let mut buf: Vec<u8> = vec![0, 0];
    write_u32(&mut buf, 1);
    buf.push(0xff);
    assert_eq!(
        decode_response(&buf),
        DecodeResult::Malformed(String::from("Invalid UTF-8 in a text field"))
    );
}

#[test]
fn text_of_several_bytes_a_character_is_decoded() {
    let mut buf: Vec<u8> = vec![0];
    write_u16(&mut buf, 3);
    write_str(&mut buf, "héllo wörld ✓ 🦀");
    assert_eq!(
        decode_command(&buf),
        DecodeResult::Complete(Command::Ping(String::from("héllo wörld ✓ 🦀")), buf.len())
    );
}

#[test]
fn a_field_that_is_cut_short_is_incomplete_whatever_its_bytes() {
    // two bytes are announced, one is there, and it cannot start a character
    let mut buf: Vec<u8> = vec![0];
    write_u16(&mut buf, 0);
    write_u32(&mut buf, 2);
    buf.push(0xff);
    assert_eq!(decode_command(&buf), DecodeResult::Incomplete);
}

#[test]
fn a_bad_key_is_malformed_before_the_value_is_there() {
    let mut buf: Vec<u8> = vec![0];
    write_u16(&mut buf, 1);
    write_u32(&mut buf, 1);
    buf.push(0x80);
    assert_eq!(
        decode_command(&buf),
        DecodeResult::Malformed(String::from("Invalid UTF-8 in a text field"))
    );
}

#[test]
fn empty_input_is_incomplete() {
    assert_eq!(decode_command(&[]), DecodeResult::Incomplete);
    assert_eq!(decode_response(&[]), DecodeResult::Incomplete);
    assert_eq!(decode_command(&[0, 0]), DecodeResult::Incomplete);
    assert_eq!(decode_response(&[0]), DecodeResult::Incomplete);
    assert_eq!(decode_command(&[0, 0, 1, 0, 0, 0]), DecodeResult::Incomplete);
}

#[test]
fn get_u8_reads_one_byte() {
    let data = [7u8, 9];
    let mut cur = Cursor::new(&data);
    assert_eq!(get_u8(&mut cur), Ok(7));
    assert_eq!(cur.position(), 1);
    assert_eq!(get_u8(&mut cur), Ok(9));
    assert_eq!(cur.position(), 2);
    assert!(!cur.has_remaining());
    assert_eq!(get_u8(&mut cur), Err(DecodeError::Incomplete));
    assert_eq!(cur.position(), 2);
}

#[test]
fn get_u16_is_big_endian() {
    let data = [0x12u8, 0x34, 0x56];
    let mut cur = Cursor::new(&data);
    assert_eq!(get_u16(&mut cur), Ok(0x1234));
    assert_eq!(cur.position(), 2);
    assert_eq!(get_u16(&mut cur), Err(DecodeError::Incomplete));
    assert_eq!(cur.position(), 2);
}

#[test]
fn get_u32_is_big_endian() {
    let data = [0x12u8, 0x34, 0x56, 0x78, 0xff, 0xff, 0xff, 0xff, 0x00];
    let mut cur = Cursor::new(&data);
    assert_eq!(get_u32(&mut cur), Ok(0x1234_5678));
    assert_eq!(get_u32(&mut cur), Ok(u32::MAX));
    assert_eq!(cur.position(), 8);
    assert_eq!(get_u32(&mut cur), Err(DecodeError::Incomplete));
    assert_eq!(cur.position(), 8);
}

#[test]
fn get_slice_takes_what_is_asked_for() {
    let data = [1u8, 2, 3, 4, 5];
    let mut cur = Cursor::new(&data);
    assert_eq!(get_slice(&mut cur, 2), Ok(&data[0..2]));
    assert_eq!(get_slice(&mut cur, 0), Ok(&data[2..2]));
    assert_eq!(get_slice(&mut cur, 4), Err(DecodeError::Incomplete));
    assert_eq!(get_slice(&mut cur, usize::MAX), Err(DecodeError::Incomplete));
    assert_eq!(cur.position(), 2);
    assert_eq!(get_slice(&mut cur, 3), Ok(&data[2..5]));
    assert_eq!(cur.position(), 5);
}

#[test]
fn get_string_reads_a_text_field() {
    let mut buf: Vec<u8> = vec![];
    write_str(&mut buf, "key");
    write_str(&mut buf, "");
    let mut cur = Cursor::new(buf.as_slice());
    assert_eq!(get_string(&mut cur), Ok(String::from("key")));
    assert_eq!(cur.position(), 7);
    assert_eq!(get_string(&mut cur), Ok(String::new()));
    assert_eq!(cur.position(), 11);
    assert_eq!(get_string(&mut cur), Err(DecodeError::Incomplete));
}

#[test]
fn get_string_does_not_move_on_failure() {
    let buf: Vec<u8> = vec![0, 0, 0, 5, b'a', b'b'];
    let mut cur = Cursor::new(buf.as_slice());
    assert_eq!(get_string(&mut cur), Err(DecodeError::Incomplete));
    assert_eq!(cur.position(), 0);
    let buf: Vec<u8> = vec![0, 0, 0, 1, 0xfe];
    let mut cur = Cursor::new(buf.as_slice());
    assert_eq!(
        get_string(&mut cur),
        Err(DecodeError::Malformed(String::from("Invalid UTF-8 in a text field")))
    );
    assert_eq!(cur.position(), 0);
}
