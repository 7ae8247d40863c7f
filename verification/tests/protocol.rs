use resp_store::frame::{read_head, read_item, read_number, read_one_command, FrameError};
use resp_store::number::{ascii_to_number, number_to_ascii};
use resp_store::reply::{encode_error_string, encode_response_string, encode_status_string};
use resp_store::text::{matches_word, read_text};

#[test]
fn ascii_to_number_reads_decimal() {
    assert_eq!(ascii_to_number(b"0"), Some(0));
    assert_eq!(ascii_to_number(b"7"), Some(7));
    assert_eq!(ascii_to_number(b"123"), Some(123));
    assert_eq!(ascii_to_number(b"007"), Some(7));
    assert_eq!(ascii_to_number(b"4294967295"), Some(4294967295));
}

#[test]
fn ascii_to_number_rejects_what_is_no_number() {
    assert_eq!(ascii_to_number(b""), None);
    assert_eq!(ascii_to_number(b"12a"), None);
    assert_eq!(ascii_to_number(b"a12"), None);
    assert_eq!(ascii_to_number(b"-1"), None);
    assert_eq!(ascii_to_number(b"+1"), None);
    assert_eq!(ascii_to_number(b" 1"), None);
    assert_eq!(ascii_to_number(b"1\r"), None);
    assert_eq!(ascii_to_number(b"/"), None);
    assert_eq!(ascii_to_number(b":"), None);
}

#[test]
fn ascii_to_number_rejects_overflow() {
    let max = usize::MAX.to_string();
    assert_eq!(ascii_to_number(max.as_bytes()), Some(usize::MAX));
    let mut beyond = max.clone().into_bytes();
    let last = beyond.len() - 1;
    beyond[last] += 1;
    assert_eq!(ascii_to_number(&beyond), None);
    let mut longer = max.into_bytes();
    longer.push(b'0');
    assert_eq!(ascii_to_number(&longer), None);
    assert_eq!(ascii_to_number(b"99999999999999999999999999999999999999999"), None);
}

#[test]
fn number_to_ascii_writes_decimal() {
    assert_eq!(number_to_ascii(0), b"0".to_vec());
    assert_eq!(number_to_ascii(9), b"9".to_vec());
    assert_eq!(number_to_ascii(10), b"10".to_vec());
    assert_eq!(number_to_ascii(12345), b"12345".to_vec());
    assert_eq!(number_to_ascii(usize::MAX), usize::MAX.to_string().into_bytes());
}

#[test]
fn number_round_trip() {
    for n in [0usize, 1, 9, 10, 99, 100, 1024, 65535, 1_000_000, usize::MAX] {
        assert_eq!(ascii_to_number(&number_to_ascii(n)), Some(n));
    }
}

#[test]
fn read_number_reads_to_the_line_end() {
    assert_eq!(read_number(b"123\r\n", 0), Ok((123, 5)));
    assert_eq!(read_number(b"0\r\nrest", 0), Ok((0, 3)));
    assert_eq!(read_number(b"*12\r\n$1", 1), Ok((12, 4)));
    assert_eq!(read_number(b"0042\r\n", 0), Ok((42, 6)));
}

#[test]
fn read_number_waits_for_missing_bytes() {
    assert_eq!(read_number(b"", 0), Err(FrameError::Truncated));
    assert_eq!(read_number(b"1", 0), Err(FrameError::Truncated));
    assert_eq!(read_number(b"123", 0), Err(FrameError::Truncated));
    assert_eq!(read_number(b"123\r", 0), Err(FrameError::Truncated));
    assert_eq!(read_number(b"123\r\n", 5), Err(FrameError::Truncated));
    assert_eq!(read_number(b"123\r\n", 99), Err(FrameError::Truncated));
}

#[test]
fn read_number_rejects_malformed_numbers() {
    assert_eq!(read_number(b"12x\r\n", 0), Err(FrameError::BadNumber));
    assert_eq!(read_number(b"x", 0), Err(FrameError::BadNumber));
    assert_eq!(read_number(b"\r\n", 0), Err(FrameError::BadNumber));
    assert_eq!(read_number(b"-1\r\n", 0), Err(FrameError::BadNumber));
    assert_eq!(read_number(b"1 \r\n", 0), Err(FrameError::BadNumber));
    assert_eq!(read_number(b"1\n", 0), Err(FrameError::BadNumber));
    assert_eq!(read_number(b"1\rX", 0), Err(FrameError::BadTerminator));
    assert_eq!(read_number(b"1\r\r\n", 0), Err(FrameError::BadTerminator));
    assert_eq!(
        read_number(b"99999999999999999999999999999999999999999", 0),
        Err(FrameError::BadNumber)
    );
    assert_eq!(
        read_number(b"99999999999999999999999999999999999999999\r\n", 0),
        Err(FrameError::BadNumber)
    );
}

#[test]
fn read_head_reads_the_count() {
    assert_eq!(read_head(b"*2\r\n", 0), Ok((2, 4)));
    assert_eq!(read_head(b"*10\r\n$1\r\na\r\n", 0), Ok((10, 5)));
    assert_eq!(read_head(b"xx*3\r\n", 2), Ok((3, 4)));
    assert_eq!(read_head(b"*0\r\n", 0), Ok((0, 4)));
}

#[test]
fn read_head_errors() {
    assert_eq!(read_head(b"", 0), Err(FrameError::Truncated));
    assert_eq!(read_head(b"*", 0), Err(FrameError::Truncated));
    assert_eq!(read_head(b"*2", 0), Err(FrameError::Truncated));
    assert_eq!(read_head(b"*2\r", 0), Err(FrameError::Truncated));
    assert_eq!(read_head(b"*2\r\n", 4), Err(FrameError::Truncated));
    assert_eq!(read_head(b"$2\r\n", 0), Err(FrameError::BadSentinel));
    assert_eq!(read_head(b"2\r\n", 0), Err(FrameError::BadSentinel));
    assert_eq!(read_head(b"*\r\n", 0), Err(FrameError::BadNumber));
    assert_eq!(read_head(b"*a\r\n", 0), Err(FrameError::BadNumber));
    assert_eq!(read_head(b"*2\rx", 0), Err(FrameError::BadTerminator));
}

#[test]
fn read_item_reads_the_payload() {
    let input = b"$5\r\nhello\r\n";
    assert_eq!(read_item(input, 0), Ok((&b"hello"[..], 11)));
    let input = b"$0\r\n\r\n";
    assert_eq!(read_item(input, 0), Ok((&b""[..], 6)));
    let input = b"*1\r\n$3\r\nabc\r\n$1\r\nz\r\n";
    assert_eq!(read_item(input, 4), Ok((&b"abc"[..], 9)));
    assert_eq!(read_item(input, 13), Ok((&b"z"[..], 7)));
}

#[test]
fn read_item_is_binary_safe() {
    let input = b"$4\r\na\r\nb\r\n";
    assert_eq!(read_item(input, 0), Ok((&b"a\r\nb"[..], 10)));
    let input = [b'$', b'3', b'\r', b'\n', 0, 255, b'$', b'\r', b'\n'];
    assert_eq!(read_item(&input, 0), Ok((&[0u8, 255, b'$'][..], 9)));
}

#[test]
fn read_item_errors() {
    assert_eq!(read_item(b"", 0), Err(FrameError::Truncated));
    assert_eq!(read_item(b"$", 0), Err(FrameError::Truncated));
    assert_eq!(read_item(b"$5", 0), Err(FrameError::Truncated));
    assert_eq!(read_item(b"$5\r\n", 0), Err(FrameError::Truncated));
    assert_eq!(read_item(b"$5\r\nhel", 0), Err(FrameError::Truncated));
    assert_eq!(read_item(b"$5\r\nhello", 0), Err(FrameError::Truncated));
    assert_eq!(read_item(b"$5\r\nhello\r", 0), Err(FrameError::Truncated));
    assert_eq!(read_item(b"*5\r\nhello\r\n", 0), Err(FrameError::BadSentinel));
    assert_eq!(read_item(b"$x\r\nhello\r\n", 0), Err(FrameError::BadNumber));
    assert_eq!(read_item(b"$-1\r\n", 0), Err(FrameError::BadNumber));
    assert_eq!(read_item(b"$5\r\nhelloXY", 0), Err(FrameError::BadTerminator));
    assert_eq!(read_item(b"$5\r\nhello\rY", 0), Err(FrameError::BadTerminator));
    assert_eq!(read_item(b"$3\r\nhello\r\n", 0), Err(FrameError::BadTerminator));
    let huge = format!("${}\r\nabc\r\n", usize::MAX);
    assert_eq!(read_item(huge.as_bytes(), 0), Err(FrameError::Truncated));
}

#[test]
fn read_one_command_reads_a_frame() {
    let input = b"*2\r\n$4\r\nECHO\r\n$2\r\nhi\r\n";
    let (command, used) = read_one_command(input, 0).unwrap();
    assert_eq!(command, vec![&b"ECHO"[..], &b"hi"[..]]);
    assert_eq!(used, input.len());
    let input = b"*1\r\n$4\r\nPING\r\n";
    let (command, used) = read_one_command(input, 0).unwrap();
    assert_eq!(command, vec![&b"PING"[..]]);
    assert_eq!(used, 14);
}

#[test]
fn read_one_command_reports_where_the_next_frame_starts() {
    let input = b"*1\r\n$4\r\nPING\r\n*3\r\n$3\r\nSET\r\n$1\r\na\r\n$1\r\n1\r\n*1\r\n$4";
    let (first, used) = read_one_command(input, 0).unwrap();
    assert_eq!(first, vec![&b"PING"[..]]);
    assert_eq!(used, 14);
    let (second, more) = read_one_command(input, used).unwrap();
    assert_eq!(second, vec![&b"SET"[..], &b"a"[..], &b"1"[..]]);
    assert_eq!(more, 27);
    assert_eq!(read_one_command(input, used + more), Err(FrameError::Truncated));
}

#[test]
fn read_one_command_errors() {
    assert_eq!(read_one_command(b"", 0), Err(FrameError::Truncated));
    assert_eq!(read_one_command(b"*0\r\n", 0), Err(FrameError::EmptyFrame));
    assert_eq!(read_one_command(b"PING\r\n", 0), Err(FrameError::BadSentinel));
    assert_eq!(read_one_command(b"*1\r\n+OK\r\n", 0), Err(FrameError::BadSentinel));
    assert_eq!(read_one_command(b"*x\r\n", 0), Err(FrameError::BadNumber));
    assert_eq!(read_one_command(b"*1\r\n$y\r\n", 0), Err(FrameError::BadNumber));
    assert_eq!(read_one_command(b"*1\r\n$1\r\nabc", 0), Err(FrameError::BadTerminator));
    assert_eq!(read_one_command(b"*2\r\n$1\r\na\r\n", 0), Err(FrameError::Truncated));
    assert_eq!(read_one_command(b"*2\r\n$1\r\na\r\nb", 0), Err(FrameError::BadSentinel));
    assert_eq!(read_one_command(b"*1\r\n", 7), Err(FrameError::Truncated));
}

#[test]
fn every_proper_prefix_of_a_frame_is_truncated() {
    let input = b"*5\r\n$3\r\nSET\r\n$3\r\nkey\r\n$12\r\nhello\r\nworld\r\n$2\r\nPX\r\n$3\r\n100\r\n";
    let (command, used) = read_one_command(input, 0).unwrap();
    assert_eq!(command.len(), 5);
    assert_eq!(command[2], &b"hello\r\nworld"[..]);
    assert_eq!(used, input.len());
    for cut in 0..input.len() {
        assert_eq!(read_one_command(&input[..cut], 0), Err(FrameError::Truncated));
    }
}

#[test]
fn encode_response_string_bulk() {
    assert_eq!(encode_response_string(Some(b"hello")), b"$5\r\nhello\r\n".to_vec());
    assert_eq!(encode_response_string(Some(b"")), b"$0\r\n\r\n".to_vec());
    assert_eq!(encode_response_string(Some(b"a\r\nb")), b"$4\r\na\r\nb\r\n".to_vec());
    assert_eq!(
        encode_response_string(Some(b"0123456789ab")),
        b"$12\r\n0123456789ab\r\n".to_vec()
    );
}

#[test]
fn encode_response_string_null() {
    assert_eq!(encode_response_string(None), b"$-1\r\n".to_vec());
}

#[test]
fn encode_status_string_line() {
    assert_eq!(encode_status_string("OK"), "+OK\r\n");
    assert_eq!(encode_status_string("PONG"), "+PONG\r\n");
    assert_eq!(encode_status_string(""), "+\r\n");
}

#[test]
fn encode_error_string_line() {
    assert_eq!(encode_error_string("ERR unknown command"), "-ERR unknown command\r\n");
}

#[test]
fn encoded_bulk_reads_back_as_an_item() {
    let payloads: [&[u8]; 4] = [b"", b"x", b"hello world", b"\r\n$3\r\n"];
    for payload in payloads {
        let wire = encode_response_string(Some(payload));
        assert_eq!(read_item(&wire, 0), Ok((payload, wire.len())));
    }
}

#[test]
fn read_text_accepts_utf8_only() {
    assert_eq!(read_text(b"hello"), Some("hello"));
    assert_eq!(read_text(b""), Some(""));
    assert_eq!(read_text("gr\u{fc}\u{df}e".as_bytes()), Some("gr\u{fc}\u{df}e"));
    assert_eq!(read_text(&[0xff, 0xfe]), None);
    assert_eq!(read_text(&[b'a', 0x80]), None);
    assert_eq!(read_text(&[0xc3]), None);
    assert_eq!(read_text(&[0xed, 0xa0, 0x80]), None);
}

#[test]
fn matches_word_ignores_ascii_case() {
    assert!(matches_word(b"ping", "ping"));
    assert!(matches_word(b"PING", "ping"));
    assert!(matches_word(b"PiNg", "ping"));
    assert!(matches_word(b"LIB-NAME", "lib-name"));
    assert!(matches_word(b"", ""));
    assert!(!matches_word(b"pin", "ping"));
    assert!(!matches_word(b"pings", "ping"));
    assert!(!matches_word(b"pong", "ping"));
    assert!(!matches_word(b"lib_name", "lib-name"));
    assert!(!matches_word(b"LIB\rNAME", "lib-name"));
    assert!(!matches_word(b"ping", "PING"));
    assert!(!matches_word(&[0xc3, 0xa9], "\u{e9}"));
    assert!(!matches_word(b"`", "@"));
    assert!(!matches_word(b"{", "["));
}
