use kvs::codec::encode_command;
use kvs::codec::parse_command_at;
use kvs::errors::KvsError;
use kvs::errors::ProtocolFault;
use kvs::read_message;
use kvs::write_message;
use kvs::Action;
use kvs::Command;
use kvs::Message;
use kvs::BUFFER_SIZE;

fn encode(message: &Message) -> Vec<u8> {
    let mut buf: Vec<u8> = Vec::new();
    write_message(&mut buf, message).unwrap();
    buf
}

#[test]
fn round_trip_command() {
    let msg = Message::Command(Command {
        action: Action::Put,
        key: "key1".to_owned(),
        value: "value1".to_owned(),
    });
    let buf = encode(&msg);
    let (decoded, consumed) = read_message(&buf).unwrap();
    assert_eq!(consumed, buf.len());
    match decoded {
        Message::Command(c) => {
            assert_eq!(c.action, Action::Put);
            assert_eq!(c.key, "key1");
            assert_eq!(c.value, "value1");
        },
        _ => panic!("expected a command"),
    }
}

#[test]
fn round_trip_command_non_ascii() {
    let msg = Message::Command(Command {
        action: Action::Remove,
        key: "clé".to_owned(),
        value: "日本語".to_owned(),
    });
    let buf = encode(&msg);
    let (decoded, _) = read_message(&buf).unwrap();
    match decoded {
        Message::Command(c) => {
            assert_eq!(c.action, Action::Remove);
            assert_eq!(c.key, "clé");
            assert_eq!(c.value, "日本語");
        },
        _ => panic!("expected a command"),
    }
}

#[test]
fn round_trip_error_and_string() {
    let buf = encode(&Message::Error("boom".to_owned()));
    match read_message(&buf).unwrap().0 {
        Message::Error(text) => assert_eq!(text, "boom"),
        _ => panic!("expected an error message"),
    }
    let buf2 = encode(&Message::String("fine".to_owned()));
    match read_message(&buf2).unwrap().0 {
        Message::String(text) => assert_eq!(text, "fine"),
        _ => panic!("expected a string message"),
    }
}

#[test]
fn frame_layout_is_fixed() {
    let buf = encode(&Message::String("hi".to_owned()));
    assert_eq!(buf, vec![0, 0, 0, 3, 0, 0, 0, 2, b'h', b'i']);
    let buf2 = encode(&Message::Error("e".to_owned()));
    assert_eq!(buf2, vec![0, 0, 0, 2, 0, 0, 0, 1, b'e']);
}

#[test]
fn oversized_payload_rejected_on_write() {
    let big = "x".repeat(BUFFER_SIZE + 1);
    let mut buf: Vec<u8> = Vec::new();
    let r = write_message(&mut buf, &Message::String(big));
    assert!(matches!(r, Err(KvsError::Encoding)));
    assert!(buf.is_empty());

    let exactly = "x".repeat(BUFFER_SIZE);
    let r2 = write_message(&mut buf, &Message::String(exactly));
    assert!(r2.is_ok());
}

#[test]
fn truncated_frame_rejected_on_read() {
    let mut buf = encode(&Message::String("hello".to_owned()));
    buf.pop();
    let r = read_message(&buf);
    assert!(matches!(
        r,
        Err(KvsError::Protocol(ProtocolFault::Truncated))
    ));
    let r2 = read_message(&vec![0, 0, 0]);
    assert!(matches!(
        r2,
        Err(KvsError::Protocol(ProtocolFault::Truncated))
    ));
}

#[test]
fn unknown_type_rejected_on_read() {
    let buf = vec![0, 0, 0, 9, 0, 0, 0, 0];
    let r = read_message(&buf);
    assert!(matches!(
        r,
        Err(KvsError::Protocol(ProtocolFault::UnknownType))
    ));
}

#[test]
fn oversized_declared_length_rejected_on_read() {
    let buf = vec![0, 0, 0, 3, 0xff, 0xff, 0xff, 0xff];
    let r = read_message(&buf);
    assert!(matches!(
        r,
        Err(KvsError::Protocol(ProtocolFault::Oversized))
    ));
}

#[test]
fn malformed_command_rejected_on_read() {
    let buf = vec![0, 0, 0, 1, 0, 0, 0, 2, b'x', b'x'];
    let r = read_message(&buf);
    assert!(matches!(
        r,
        Err(KvsError::Protocol(ProtocolFault::Malformed))
    ));
}

#[test]
fn record_codec_round_trip() {
    let actions = [Action::Noop, Action::Get, Action::Put, Action::Remove];
    for action in actions {
        let cmd = Command {
            action,
            key: "k".to_owned(),
            value: "v".to_owned(),
        };
        let mut bytes: Vec<u8> = Vec::new();
        encode_command(&cmd, &mut bytes);
        let (parsed, end) = parse_command_at(&bytes, 0).unwrap();
        assert_eq!(end, bytes.len());
        assert_eq!(parsed.action, action);
        assert_eq!(parsed.key, "k");
        assert_eq!(parsed.value, "v");
    }
}

#[test]
fn record_layout_is_fixed() {
    let cmd = Command {
        action: Action::Put,
        key: "k".to_owned(),
        value: "v".to_owned(),
    };
    let mut bytes: Vec<u8> = Vec::new();
    encode_command(&cmd, &mut bytes);
    assert_eq!(
        bytes,
        vec![
            2, 0, 0, 0, 0, 0, 0, 0, 1, b'k', 0, 0, 0, 0, 0, 0, 0, 1, b'v',
        ]
    );
}

#[test]
fn record_codec_empty_texts() {
    let cmd = Command {
        action: Action::Remove,
        key: String::new(),
        value: String::new(),
    };
    let mut bytes: Vec<u8> = Vec::new();
    encode_command(&cmd, &mut bytes);
    assert_eq!(bytes.len(), 17);
    let (parsed, end) = parse_command_at(&bytes, 0).unwrap();
    assert_eq!(end, 17);
    assert_eq!(parsed.key, "");
    assert_eq!(parsed.value, "");
}

#[test]
fn frame_total_len_reads_header() {
    let buf = encode(&Message::String("abc".to_owned()));
    assert_eq!(kvs::frame_total_len(&buf).unwrap(), buf.len());
    assert!(matches!(
        kvs::frame_total_len(&vec![1, 2]),
        Err(KvsError::Protocol(ProtocolFault::Truncated))
    ));
}
