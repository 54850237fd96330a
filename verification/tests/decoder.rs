//! Framer and backend-decoder tests over recorded server replies.

use gres::error::ProtocolError;
use gres::servermsg::{take_msg, AuthMsg, FieldDescription, FieldFormat, ServerMsg};

fn decode(frame: &[u8]) -> ServerMsg {
    ServerMsg::from_slice(frame).unwrap()
}

#[test]
fn server_test_take_msg() {
    let buffer = [69, 0, 0, 0, 5, 1, 72, 0, 0, 0, 12, 1, 2, 3, 4, 5, 6, 7, 8];
    let (first, rest) = take_msg(&buffer).unwrap();
    assert_eq!(first, [69, 0, 0, 0, 5, 1]);
    let (second, nothing) = take_msg(rest).unwrap();
    assert_eq!(second, [72, 0, 0, 0, 12, 1, 2, 3, 4, 5, 6, 7, 8]);
    assert!(nothing.is_empty());
}

#[test]
fn servermsg_test_take_msg() {
    let buffer = [69, 0, 0, 0, 5, 1, 72, 0, 0, 0, 12, 1, 2, 3, 4, 5, 6, 7, 8];
    let (first, rest) = take_msg(&buffer).unwrap();
    assert_eq!(first, [69, 0, 0, 0, 5, 1]);
    let (second, nothing) = take_msg(rest).unwrap();
    assert_eq!(second, [72, 0, 0, 0, 12, 1, 2, 3, 4, 5, 6, 7, 8]);
    assert_eq!(nothing, []);
}

const STARTUP_REPLY: &[u8] = b"R\x00\x00\x00\x08\x00\x00\x00\x00S\x00\x00\x00\x16application_name\x00\x00S\x00\x00\x00\x19client_encoding\x00UTF8\x00S\x00\x00\x00\x17DateStyle\x00ISO, MDY\x00S\x00\x00\x00\x19integer_datetimes\x00on\x00S\x00\x00\x00\x1bIntervalStyle\x00postgres\x00S\x00\x00\x00\x15is_superuser\x00off\x00S\x00\x00\x00\x19server_encoding\x00UTF8\x00S\x00\x00\x00\x19server_version\x009.6.1\x00S\x00\x00\x00 session_authorization\x00cliff\x00S\x00\x00\x00#standard_conforming_strings\x00on\x00S\x00\x00\x00\x18TimeZone\x00US/Eastern\x00K\x00\x00\x00\x0c\x00\x00\x17\xbb\x15b\xfb1Z\x00\x00\x00\x05I";

fn param(name: &str, value: &str) -> ServerMsg {
    ServerMsg::ParamStatus(name.to_string(), value.to_string())
}

fn check_startup_reply(buffer: &[u8]) {
    let (next, buffer) = take_msg(buffer).unwrap();
    assert_eq!(decode(next), ServerMsg::Auth(AuthMsg::AuthOk));
    assert_eq!(buffer.len(), 314);

    let (next, buffer) = take_msg(buffer).unwrap();
    assert_eq!(decode(next), param("application_name", ""));
    assert_eq!(buffer.len(), 291);

    let (next, buffer) = take_msg(buffer).unwrap();
    assert_eq!(decode(next), param("client_encoding", "UTF8"));
    assert_eq!(buffer.len(), 265);

    let (next, buffer) = take_msg(buffer).unwrap();
    assert_eq!(decode(next), param("DateStyle", "ISO, MDY"));
    assert_eq!(buffer.len(), 241);

    let (next, buffer) = take_msg(buffer).unwrap();
    assert_eq!(decode(next), param("integer_datetimes", "on"));
    assert_eq!(buffer.len(), 215);

    let (next, buffer) = take_msg(buffer).unwrap();
    assert_eq!(decode(next), param("IntervalStyle", "postgres"));
    assert_eq!(buffer.len(), 187);

    let (next, buffer) = take_msg(buffer).unwrap();
    assert_eq!(decode(next), param("is_superuser", "off"));
    assert_eq!(buffer.len(), 165);

    let (next, buffer) = take_msg(buffer).unwrap();
    assert_eq!(decode(next), param("server_encoding", "UTF8"));
    assert_eq!(buffer.len(), 139);

    let (next, buffer) = take_msg(buffer).unwrap();
    assert_eq!(decode(next), param("server_version", "9.6.1"));
    assert_eq!(buffer.len(), 113);

    let (next, buffer) = take_msg(buffer).unwrap();
    assert_eq!(decode(next), param("session_authorization", "cliff"));
    assert_eq!(buffer.len(), 80);

    let (next, buffer) = take_msg(buffer).unwrap();
    assert_eq!(decode(next), param("standard_conforming_strings", "on"));
    assert_eq!(buffer.len(), 44);

    let (next, buffer) = take_msg(buffer).unwrap();
    assert_eq!(decode(next), param("TimeZone", "US/Eastern"));
    assert_eq!(buffer.len(), 19);

    let (next, buffer) = take_msg(buffer).unwrap();
    assert!(matches!(decode(next), ServerMsg::BackendKeyData(..)));
    assert_eq!(buffer.len(), 6);

    let (next, buffer) = take_msg(buffer).unwrap();
    assert_eq!(decode(next), ServerMsg::ReadyForQuery(b'I'));
    assert_eq!(buffer.len(), 0);

    assert!(take_msg(buffer).is_err());
}

#[test]
fn test_server_startup_response_parsing() {
    check_startup_reply(STARTUP_REPLY);
}

#[test]
fn servermsg_test_server_startup_response_parsing() {
    check_startup_reply(STARTUP_REPLY);
}

const QUERY_REPLY: &[u8] = b"T\x00\x00\x00 \x00\x01version\x00\x00\x00\x00\x00\x00\x00\x00\x00\x00\x19\xff\xff\xff\xff\xff\xff\x00\x00D\x00\x00\x00_\x00\x01\x00\x00\x00UPostgreSQL 9.6.1 on x86_64-pc-linux-gnu, compiled by gcc (GCC) 6.2.1 20160830, 64-bitC\x00\x00\x00\rSELECT 1\x00Z\x00\x00\x00\x05I";

fn check_query_reply(buffer: &[u8]) {
    let (next, buffer) = take_msg(buffer).unwrap();
    assert_eq!(
        decode(next),
        ServerMsg::RowDescription(vec![FieldDescription {
            field_name: "version".to_string(),
            table_oid: 0,
            column_attr: 0,
            type_oid: 0x19,
            type_size: -1,
            type_modifier: -1,
            format: FieldFormat::Text,
        }])
    );
    assert_eq!(buffer.len(), 116);

    let (next, buffer) = take_msg(buffer).unwrap();
    assert_eq!(
        decode(next),
        ServerMsg::DataRow(vec![Some(
            b"PostgreSQL 9.6.1 on x86_64-pc-linux-gnu, compiled by gcc (GCC) 6.2.1 20160830, 64-bit"
                .to_vec()
        )])
    );
    assert_eq!(buffer.len(), 20);

    let (next, buffer) = take_msg(buffer).unwrap();
    assert_eq!(decode(next), ServerMsg::CommandComplete("SELECT 1".to_string()));
    assert_eq!(buffer.len(), 6);

    let (next, buffer) = take_msg(buffer).unwrap();
    assert_eq!(decode(next), ServerMsg::ReadyForQuery(b'I'));
    assert_eq!(buffer.len(), 0);
}

#[test]
fn test_server_query_response_parsing() {
    check_query_reply(QUERY_REPLY);
}

#[test]
fn servermsg_test_server_query_response_parsing() {
    check_query_reply(QUERY_REPLY);
}

fn frame(id: u8, body: &[u8]) -> Vec<u8> {
    let mut out = vec![id];
    out.extend_from_slice(&((body.len() + 4) as u32).to_be_bytes());
    out.extend_from_slice(body);
    out
}

#[test]
fn framer_needs_more_on_short_input() {
    assert_eq!(take_msg(&[]), Err(ProtocolError::Truncated));
    assert_eq!(take_msg(&[69, 0, 0, 0]), Err(ProtocolError::Truncated));
    // a complete header declaring more bytes than are present
    assert_eq!(take_msg(&[69, 0, 0, 0, 6, 1]), Err(ProtocolError::Truncated));
}

#[test]
fn framer_never_splits_mid_frame() {
    // every strict prefix of a frame is refused; the exact input splits
    let f = frame(b'K', &[0, 0, 0, 7, 0, 0, 0, 9]);
    for cut in 0..f.len() {
        assert_eq!(take_msg(&f[..cut]), Err(ProtocolError::Truncated));
    }
    let (whole, rest) = take_msg(&f).unwrap();
    assert_eq!(whole, &f[..]);
    assert!(rest.is_empty());
}

#[test]
fn backend_key_data_exact_length() {
    let good = frame(b'K', &[0, 0, 0, 7, 0, 0, 0, 9]);
    assert_eq!(decode(&good), ServerMsg::BackendKeyData(7, 9));
    let short = frame(b'K', &[0, 0, 0, 7, 0, 0, 0]);
    assert_eq!(ServerMsg::from_slice(&short), Err(ProtocolError::Invalid(b'K')));
    let long = frame(b'K', &[0, 0, 0, 7, 0, 0, 0, 9, 1]);
    assert_eq!(ServerMsg::from_slice(&long), Err(ProtocolError::Invalid(b'K')));
}

#[test]
fn ready_for_query_exact_length() {
    assert_eq!(decode(&frame(b'Z', b"T")), ServerMsg::ReadyForQuery(b'T'));
    assert_eq!(ServerMsg::from_slice(&frame(b'Z', b"")), Err(ProtocolError::Invalid(b'Z')));
    assert_eq!(ServerMsg::from_slice(&frame(b'Z', b"TI")), Err(ProtocolError::Invalid(b'Z')));
}

#[test]
fn bodiless_messages_reject_extra_bytes() {
    assert_eq!(decode(&frame(b'1', b"")), ServerMsg::ParseComplete);
    assert_eq!(decode(&frame(b'2', b"")), ServerMsg::BindComplete);
    assert_eq!(decode(&frame(b'3', b"")), ServerMsg::CloseComplete);
    assert_eq!(decode(&frame(b'n', b"")), ServerMsg::NoData);
    assert_eq!(decode(&frame(b's', b"")), ServerMsg::PortalSuspended);
    assert_eq!(decode(&frame(b'I', b"")), ServerMsg::EmptyQueryResponse);
    for id in [b'1', b'2', b'3', b'n', b's', b'I'] {
        assert_eq!(ServerMsg::from_slice(&frame(id, b"x")), Err(ProtocolError::Invalid(id)));
    }
}

#[test]
fn param_status_off_by_one_is_invalid() {
    let good = frame(b'S', b"a\0b\0");
    assert_eq!(decode(&good), param("a", "b"));
    assert_eq!(
        ServerMsg::from_slice(&frame(b'S', b"a\0b\0x")),
        Err(ProtocolError::Invalid(b'S'))
    );
    assert_eq!(ServerMsg::from_slice(&frame(b'S', b"a\0b")), Err(ProtocolError::Invalid(b'S')));
}

#[test]
fn command_complete_off_by_one_is_invalid() {
    assert_eq!(
        decode(&frame(b'C', b"INSERT 0 1\0")),
        ServerMsg::CommandComplete("INSERT 0 1".to_string())
    );
    assert_eq!(
        ServerMsg::from_slice(&frame(b'C', b"INSERT 0 1\0x")),
        Err(ProtocolError::Invalid(b'C'))
    );
    assert_eq!(
        ServerMsg::from_slice(&frame(b'C', b"INSERT 0 1")),
        Err(ProtocolError::Invalid(b'C'))
    );
}

#[test]
fn data_row_with_null_column() {
    // two columns: NULL (length -1) and a 2-byte value
    let body = [0, 2, 0xFF, 0xFF, 0xFF, 0xFF, 0, 0, 0, 2, b'o', b'k'];
    assert_eq!(
        decode(&frame(b'D', &body)),
        ServerMsg::DataRow(vec![None, Some(b"ok".to_vec())])
    );
    // one byte short or long must be rejected
    let short = &body[..body.len() - 1];
    assert_eq!(ServerMsg::from_slice(&frame(b'D', short)), Err(ProtocolError::Invalid(b'D')));
    let mut long = body.to_vec();
    long.push(0);
    assert_eq!(ServerMsg::from_slice(&frame(b'D', &long)), Err(ProtocolError::Invalid(b'D')));
}

#[test]
fn row_description_bad_format_code_is_invalid() {
    // one field whose format code decodes to 2
    let body = [
        0, 1, b'c', 0, 0, 0, 0, 0, 0, 0, 0, 0, 0, 0x19, 0xFF, 0xFF, 0xFF, 0xFF, 0xFF, 0xFF, 0,
        2,
    ];
    assert_eq!(ServerMsg::from_slice(&frame(b'T', &body)), Err(ProtocolError::Invalid(b'T')));
}

#[test]
fn unknown_identifier_is_accepted() {
    let f = frame(b'A', b"whatever");
    assert_eq!(decode(&f), ServerMsg::Unknown(b'A', b"whatever".to_vec()));
}

#[test]
fn wrong_declared_length_is_invalid() {
    // declared body length disagrees with the slice handed in
    let mut f = frame(b'Z', b"I");
    f[4] = 9;
    assert_eq!(ServerMsg::from_slice(&f), Err(ProtocolError::Invalid(b'Z')));
    assert_eq!(ServerMsg::from_slice(&[b'Z', 0]), Err(ProtocolError::Truncated));
}

#[test]
fn auth_sub_kinds() {
    assert_eq!(decode(&frame(b'R', &[0, 0, 0, 0])), ServerMsg::Auth(AuthMsg::AuthOk));
    assert_eq!(decode(&frame(b'R', &[0, 0, 0, 2])), ServerMsg::Auth(AuthMsg::Kerberos));
    assert_eq!(decode(&frame(b'R', &[0, 0, 0, 3])), ServerMsg::Auth(AuthMsg::Cleartext));
    assert_eq!(
        decode(&frame(b'R', &[0, 0, 0, 5, 0xAA, 0xBB, 0xCC, 0xDD])),
        ServerMsg::Auth(AuthMsg::Md5([0xAA, 0xBB, 0xCC, 0xDD]))
    );
    assert_eq!(decode(&frame(b'R', &[0, 0, 0, 6])), ServerMsg::Auth(AuthMsg::ScmCredential));
    assert_eq!(decode(&frame(b'R', &[0, 0, 0, 7])), ServerMsg::Auth(AuthMsg::Gss));
    assert_eq!(
        decode(&frame(b'R', &[0, 0, 0, 8, 1, 2, 3])),
        ServerMsg::Auth(AuthMsg::GssContinue(vec![1, 2, 3]))
    );
    assert_eq!(decode(&frame(b'R', &[0, 0, 0, 9])), ServerMsg::Auth(AuthMsg::Sspi));
    // forward compatibility: unknown codes decode rather than fail
    assert_eq!(decode(&frame(b'R', &[0, 0, 0, 10])), ServerMsg::Auth(AuthMsg::Unknown(10)));
    assert_eq!(decode(&frame(b'R', &[0, 0, 0, 1])), ServerMsg::Auth(AuthMsg::Unknown(1)));
    // known fixed sub-kinds must have exact bodies
    assert_eq!(
        ServerMsg::from_slice(&frame(b'R', &[0, 0, 0, 0, 0])),
        Err(ProtocolError::Invalid(b'R'))
    );
    assert_eq!(
        ServerMsg::from_slice(&frame(b'R', &[0, 0, 0, 5, 0xAA, 0xBB, 0xCC])),
        Err(ProtocolError::Invalid(b'R'))
    );
    // a code outside the known and reserved ranges fails
    assert_eq!(
        ServerMsg::from_slice(&frame(b'R', &[0, 0, 1, 0])),
        Err(ProtocolError::Invalid(b'R'))
    );
}

#[test]
fn param_status_bad_utf8_is_utf8_error() {
    assert_eq!(
        ServerMsg::from_slice(&frame(b'S', &[0xFF, 0, b'b', 0])),
        Err(ProtocolError::Utf8)
    );
}
