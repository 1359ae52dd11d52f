use mls::protocol::{parse_request, reply_line, ProtocolError};
use mls::topicdb::{DBResult, RequestError};

#[test]
fn get_line_yields_topic() {
    assert_eq!(parse_request(b"GET in/test\n"), Ok(b"in/test".to_vec()));
    assert_eq!(parse_request(b"GET #\n"), Ok(b"#".to_vec()));
}

#[test]
fn other_lines_are_refused() {
    assert_eq!(parse_request(b"PUT a\n"), Err(ProtocolError::UnknownCommand));
    assert_eq!(parse_request(b"GET a"), Err(ProtocolError::UnknownCommand));
    assert_eq!(parse_request(b"GET\n"), Err(ProtocolError::UnknownCommand));
    assert_eq!(parse_request(b""), Err(ProtocolError::UnknownCommand));
}

#[test]
fn longest_line_is_accepted() {
    let mut line = b"GET ".to_vec();
    line.extend(std::iter::repeat(b'a').take(65535));
    line.push(b'\n');
    assert_eq!(line.len(), 65540);
    assert_eq!(parse_request(&line).map(|t| t.len()), Ok(65535));
    line.insert(4, b'a');
    assert_eq!(parse_request(&line), Err(ProtocolError::UnknownCommand));
}

#[test]
fn replies_are_single_lines() {
    assert_eq!(reply_line(&DBResult::NoMatch), b"None\n".to_vec());
    assert_eq!(reply_line(&DBResult::Found(0)), b"0\n".to_vec());
    assert_eq!(reply_line(&DBResult::Found(666)), b"666\n".to_vec());
    assert_eq!(reply_line(&DBResult::Found(65535)), b"65535\n".to_vec());
    assert_eq!(reply_line(&DBResult::Denied(RequestError::InvalidTopic)), b"Denied\n".to_vec());
}
