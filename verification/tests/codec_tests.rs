use mini_telnet::codec::TelnetCodec;

#[test]
fn plain_lines_pass_through() {
    let mut codec = TelnetCodec::new();
    codec.feed(b"alpha\nbeta\n");
    assert_eq!(codec.next_line().unwrap(), b"alpha\n");
    assert_eq!(codec.next_line().unwrap(), b"beta\n");
    assert!(codec.next_line().is_none());
}

#[test]
fn option_negotiation_is_stripped() {
    let mut codec = TelnetCodec::new();
    // IAC WILL <echo-option> before the content.
    codec.feed(&[255, 251, 1, b'h', b'i', b'\n']);
    assert_eq!(codec.next_line().unwrap(), b"hi\n");
}

#[test]
fn escaped_iac_is_a_literal_byte() {
    let mut codec = TelnetCodec::new();
    codec.feed(&[255, 255, b'\n']);
    assert_eq!(codec.next_line().unwrap(), &[255, b'\n']);
}

#[test]
fn subnegotiation_block_is_dropped() {
    let mut codec = TelnetCodec::new();
    // IAC SB <option bytes> IAC SE around real content.
    codec.feed(&[255, 250, 31, 0, 80, 255, 240, b'x', b'\n']);
    assert_eq!(codec.next_line().unwrap(), b"x\n");
}

#[test]
fn escape_split_across_reads() {
    let mut codec = TelnetCodec::new();
    codec.feed(&[255]);
    codec.feed(&[253]);
    codec.feed(&[24, b'a', b'\n']);
    assert_eq!(codec.next_line().unwrap(), b"a\n");
}

#[test]
fn partial_line_is_buffered_across_reads() {
    let mut codec = TelnetCodec::new();
    codec.feed(b"ab");
    assert!(codec.next_line().is_none());
    codec.feed(b"c\nd");
    assert_eq!(codec.next_line().unwrap(), b"abc\n");
    assert!(codec.next_line().is_none());
    assert_eq!(codec.take_pending(), b"d");
    assert_eq!(codec.take_pending(), b"");
}

#[test]
fn malformed_command_is_skipped() {
    let mut codec = TelnetCodec::new();
    // IAC followed by a byte that is no known command: both are dropped,
    // the stream goes on.
    codec.feed(&[255, 1, b'z', b'\n']);
    assert_eq!(codec.next_line().unwrap(), b"z\n");
}

#[test]
fn pending_keeps_parser_state() {
    let mut codec = TelnetCodec::new();
    codec.feed(&[b'p', 255]);
    assert_eq!(codec.take_pending(), b"p");
    // The IAC is still in force: the next byte is a command verb.
    codec.feed(&[251, 3, b'q', b'\n']);
    assert_eq!(codec.next_line().unwrap(), b"q\n");
}
