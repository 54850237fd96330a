//! Frontend-encoder tests: exact wire bytes for each request message.

use gres::message::{
    BindMessage, CloseMessage, CloseType, ExecuteMessage, Format, Message, ParseMessage,
    PasswordMessage, Query, StartupMessage, SyncMessage, Terminate,
};
use gres::servermsg::take_msg;

#[test]
fn test_terminate() {
    assert_eq!(Terminate.to_bytes(), b"\x58\0\0\0\x04".to_vec());
}

#[test]
fn test_startup_message() {
    let msg = StartupMessage {
        user: "cliff".to_string(),
        database: None,
        params: vec![
            ("name".to_string(), "Theseus".to_string()),
            ("vessel".to_string(), "ship".to_string()),
        ],
    };
    assert_eq!(
        msg.to_bytes(),
        b"\0\0\0\x2d\x00\x03\x00\x00user\0cliff\0name\0Theseus\0vessel\0ship\0\0".to_vec()
    );
}

#[test]
fn test_password_message() {
    let msg = PasswordMessage { hash: "open sesame".to_string() };
    assert_eq!(msg.to_bytes(), b"p\0\0\0\x10open sesame\0".to_vec());
}

#[test]
fn test_query_message() {
    let msg = Query { query: "SELECT 1".to_string() };
    assert_eq!(msg.to_bytes(), b"Q\0\0\0\x0dSELECT 1\0".to_vec());
}

#[test]
fn parse_message_bytes() {
    let msg = ParseMessage {
        name: "0".to_string(),
        sql: "SELECT $1".to_string(),
        param_types: vec![0x17],
    };
    assert_eq!(msg.to_bytes(), b"P\0\0\0\x16\x30\0SELECT $1\0\0\x01\0\0\0\x17".to_vec());
}

#[test]
fn bind_message_bytes() {
    let msg = BindMessage {
        portal: "".to_string(),
        prepared_statement: "0".to_string(),
        param_format_codes: vec![Format::Text],
        param_values: vec![Some(b"42".to_vec()), None],
        result_format_codes: vec![],
    };
    let expected: Vec<u8> = [
        b"B\0\0\0\x19\0\x30\0".as_slice(),
        &[0, 1, 0, 0],
        &[0, 2],
        &[0, 0, 0, 2, b'4', b'2'],
        &[0xFF, 0xFF, 0xFF, 0xFF],
        &[0, 0],
    ]
    .concat();
    assert_eq!(msg.to_bytes(), expected);
}

#[test]
fn execute_message_bytes() {
    let msg = ExecuteMessage { portal: "p1".to_string(), max_rows: 7 };
    assert_eq!(msg.to_bytes(), b"E\0\0\0\x0bp1\0\0\0\0\x07".to_vec());
}

#[test]
fn sync_message_bytes() {
    assert_eq!(SyncMessage.to_bytes(), b"S\0\0\0\x04".to_vec());
}

#[test]
fn close_message_bytes() {
    let stmt = CloseMessage { close_type: CloseType::PreparedStatement, name: "0".to_string() };
    assert_eq!(stmt.to_bytes(), b"C\0\0\0\x07S0\0".to_vec());
    let portal = CloseMessage { close_type: CloseType::Portal, name: "p".to_string() };
    assert_eq!(portal.to_bytes(), b"C\0\0\0\x07Pp\0".to_vec());
}

#[test]
fn encode_then_frame_round_trip() {
    // every identifier-carrying request frames back as one whole message
    let frames: Vec<Vec<u8>> = vec![
        PasswordMessage { hash: "md5abc".to_string() }.to_bytes(),
        Query { query: "SELECT 1".to_string() }.to_bytes(),
        ParseMessage { name: "0".to_string(), sql: "x".to_string(), param_types: vec![] }
            .to_bytes(),
        ExecuteMessage { portal: "".to_string(), max_rows: 0 }.to_bytes(),
        SyncMessage.to_bytes(),
        CloseMessage { close_type: CloseType::Portal, name: "".to_string() }.to_bytes(),
        Terminate.to_bytes(),
    ];
    for f in frames {
        let (frame, rest) = take_msg(&f).unwrap();
        assert_eq!(frame, &f[..]);
        assert!(rest.is_empty());
        let declared = u32::from_be_bytes([f[1], f[2], f[3], f[4]]) as usize;
        assert_eq!(declared, f.len() - 1);
    }
}

#[test]
fn startup_frame_length_counts_whole_frame() {
    let msg = StartupMessage { user: "u".to_string(), database: None, params: vec![] };
    let bytes = msg.to_bytes();
    let declared = u32::from_be_bytes([bytes[0], bytes[1], bytes[2], bytes[3]]) as usize;
    assert_eq!(declared, bytes.len());
    assert_eq!(&bytes[4..8], &[0, 3, 0, 0]);
}
