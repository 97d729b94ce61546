use bytes::BytesMut;
use serial_tool::FrameError;
use serial_tool::LineCodec;

fn drain(codec: &mut LineCodec, buf: &mut BytesMut) -> Vec<String> {
    let mut lines = Vec::new();
    while let Ok(Some(line)) = codec.decode(buf) {
        lines.push(line);
    }
    lines
}

#[test]
fn no_newline_is_incomplete_and_keeps_buffer() {
    let mut codec = LineCodec;
    let mut buf = BytesMut::from(&b"hello"[..]);
    assert_eq!(codec.decode(&mut buf), Ok(None));
    assert_eq!(&buf[..], b"hello");
}

#[test]
fn empty_buffer_is_incomplete() {
    let mut codec = LineCodec;
    let mut buf = BytesMut::new();
    assert_eq!(codec.decode(&mut buf), Ok(None));
    assert_eq!(buf.len(), 0);
}

#[test]
fn buffer_grows_until_newline_arrives() {
    let mut codec = LineCodec;
    let mut buf = BytesMut::from(&b"ab"[..]);
    assert_eq!(codec.decode(&mut buf), Ok(None));
    buf.extend_from_slice(b"cd");
    assert_eq!(codec.decode(&mut buf), Ok(None));
    assert_eq!(&buf[..], b"abcd");
    buf.extend_from_slice(b"\n");
    assert_eq!(codec.decode(&mut buf), Ok(Some(String::from("abcd\n"))));
    assert_eq!(buf.len(), 0);
}

#[test]
fn encode_appends_exactly_one_newline() {
    let mut codec = LineCodec;
    let mut buf = BytesMut::new();
    codec.encode(String::from("hello"), &mut buf);
    assert_eq!(&buf[..], b"hello\n");
}

#[test]
fn encode_of_empty_text_is_bare_newline() {
    let mut codec = LineCodec;
    let mut buf = BytesMut::new();
    codec.encode(String::new(), &mut buf);
    assert_eq!(&buf[..], b"\n");
}

#[test]
fn decode_of_encode_round_trips() {
    let mut codec = LineCodec;
    let mut buf = BytesMut::new();
    codec.encode(String::from("hello"), &mut buf);
    assert_eq!(codec.decode(&mut buf), Ok(Some(String::from("hello\n"))));
    assert_eq!(buf.len(), 0);
}

#[test]
fn decode_of_encode_round_trips_multibyte_text() {
    let mut codec = LineCodec;
    let mut buf = BytesMut::new();
    codec.encode(String::from("héllo wörld"), &mut buf);
    assert_eq!(codec.decode(&mut buf), Ok(Some(String::from("héllo wörld\n"))));
    assert_eq!(buf.len(), 0);
}

#[test]
fn fragmented_delivery_yields_same_lines_as_one_delivery() {
    let stream: &[u8] = b"first line\nsecond\nthird one\ntrailing";
    let mut whole_codec = LineCodec;
    let mut whole = BytesMut::from(stream);
    let expected = drain(&mut whole_codec, &mut whole);
    assert_eq!(
        expected,
        vec![
            String::from("first line\n"),
            String::from("second\n"),
            String::from("third one\n")
        ]
    );

    for step in [1usize, 2, 3, 5, 7] {
        let mut codec = LineCodec;
        let mut buf = BytesMut::new();
        let mut lines = Vec::new();
        for chunk in stream.chunks(step) {
            buf.extend_from_slice(chunk);
            lines.extend(drain(&mut codec, &mut buf));
        }
        assert_eq!(lines, expected);
        assert_eq!(&buf[..], b"trailing");
    }
}

#[test]
fn invalid_text_before_newline_fails() {
    let mut codec = LineCodec;
    let mut buf = BytesMut::from(&[0xff, 0xfe, b'\n', b'o', b'k', b'\n'][..]);
    assert_eq!(codec.decode(&mut buf), Err(FrameError::InvalidText));
    // The bad line is gone; the next line is still delivered.
    assert_eq!(codec.decode(&mut buf), Ok(Some(String::from("ok\n"))));
}

#[test]
fn two_lines_in_one_buffer_come_out_in_order() {
    let mut codec = LineCodec;
    let mut buf = BytesMut::from(&b"a\nb\n"[..]);
    assert_eq!(codec.decode(&mut buf), Ok(Some(String::from("a\n"))));
    assert_eq!(codec.decode(&mut buf), Ok(Some(String::from("b\n"))));
    assert_eq!(codec.decode(&mut buf), Ok(None));
}
