//! Notice/error body parser tests: presence validation, field ordering,
//! positions, severities, and unknown tags.

use gres::error::ProtocolError;
use gres::notice::{NoticeBody, Position, Severity};

const ERROR_ID: u8 = b'E';

#[test]
fn notice_basic_fields() {
    let body = b"SERROR\0VERROR\0C42601\0Msyntax error\0\0";
    let nb = NoticeBody::from_bytes(body, ERROR_ID).unwrap();
    assert_eq!(nb.severity_loc.as_deref(), Some("ERROR"));
    assert_eq!(nb.severity, Some(Severity::Error));
    assert_eq!(nb.code, "42601");
    assert_eq!(nb.message(), "syntax error");
    assert_eq!(nb.detail, None);
    assert_eq!(nb.hint, None);
    assert_eq!(nb.position, None);
    assert!(nb.more.is_empty());
}

#[test]
fn notice_missing_message_is_rejected() {
    let body = b"SERROR\0C42601\0\0";
    assert_eq!(NoticeBody::from_bytes(body, ERROR_ID), Err(ProtocolError::Invalid(ERROR_ID)));
}

#[test]
fn notice_missing_code_is_rejected() {
    let body = b"SERROR\0Moops\0\0";
    assert_eq!(NoticeBody::from_bytes(body, ERROR_ID), Err(ProtocolError::Invalid(ERROR_ID)));
}

#[test]
fn notice_missing_both_severities_is_rejected() {
    let body = b"C42601\0Moops\0\0";
    assert_eq!(NoticeBody::from_bytes(body, ERROR_ID), Err(ProtocolError::Invalid(ERROR_ID)));
}

#[test]
fn notice_acceptance_ignores_field_order() {
    let orders: [&[u8]; 3] = [
        b"SERROR\0C42601\0Moops\0\0",
        b"Moops\0SERROR\0C42601\0\0",
        b"C42601\0Moops\0SERROR\0\0",
    ];
    for body in orders {
        let nb = NoticeBody::from_bytes(body, ERROR_ID).unwrap();
        assert_eq!(nb.code, "42601");
        assert_eq!(nb.message(), "oops");
        assert_eq!(nb.severity_loc.as_deref(), Some("ERROR"));
    }
}

#[test]
fn notice_last_write_wins() {
    let body = b"SERROR\0C11111\0C42601\0Moops\0\0";
    let nb = NoticeBody::from_bytes(body, ERROR_ID).unwrap();
    assert_eq!(nb.code, "42601");
}

#[test]
fn notice_public_position() {
    let body = b"SERROR\0C42601\0Moops\0P15\0\0";
    let nb = NoticeBody::from_bytes(body, ERROR_ID).unwrap();
    let pos = nb.position.unwrap();
    assert_eq!(pos.position(), 15);
    assert_eq!(pos.query(), None);
}

#[test]
fn notice_internal_position_with_query() {
    let body = b"SERROR\0C42601\0Moops\0p7\0qSELECT hidden\0\0";
    let nb = NoticeBody::from_bytes(body, ERROR_ID).unwrap();
    let pos = nb.position.clone().unwrap();
    assert_eq!(pos.position(), 7);
    assert_eq!(pos.query(), Some("SELECT hidden"));
    assert_eq!(
        nb.position,
        Some(Position::Internal { position: 7, query: "SELECT hidden".to_string() })
    );
}

#[test]
fn notice_malformed_decimal_is_parse_int() {
    let body = b"SERROR\0C42601\0Moops\0P1x\0\0";
    assert_eq!(NoticeBody::from_bytes(body, ERROR_ID), Err(ProtocolError::ParseInt));
    let empty = b"SERROR\0C42601\0Moops\0P\0\0";
    assert_eq!(NoticeBody::from_bytes(empty, ERROR_ID), Err(ProtocolError::ParseInt));
}

#[test]
fn notice_severity_spellings() {
    for (spelling, severity) in [
        ("ERROR", Severity::Error),
        ("FATAL", Severity::Fatal),
        ("PANIC", Severity::Panic),
        ("WARNING", Severity::Warning),
        ("NOTICE", Severity::Notice),
        ("DEBUG", Severity::Debug),
        ("INFO", Severity::Info),
        ("LOG", Severity::Log),
    ] {
        let mut body = Vec::new();
        body.extend_from_slice(b"V");
        body.extend_from_slice(spelling.as_bytes());
        body.extend_from_slice(b"\0Shola\0C00000\0Mm\0\0");
        let nb = NoticeBody::from_bytes(&body, b'N').unwrap();
        assert_eq!(nb.severity, Some(severity));
        // the localized spelling is kept verbatim
        assert_eq!(nb.severity_loc.as_deref(), Some("hola"));
    }
    // an unknown spelling yields no severity
    let nb = NoticeBody::from_bytes(b"VGRAVE\0C00000\0Mm\0\0", b'N').unwrap();
    assert_eq!(nb.severity, None);
}

#[test]
fn notice_unknown_tags_preserved_in_order() {
    let body = b"SERROR\0C42601\0Moops\0Ffile.c\0L123\0\0";
    let nb = NoticeBody::from_bytes(body, ERROR_ID).unwrap();
    assert_eq!(
        nb.more,
        vec![(b'F', "file.c".to_string()), (b'L', "123".to_string())]
    );
}

#[test]
fn notice_unterminated_body_is_rejected() {
    assert_eq!(NoticeBody::from_bytes(b"", ERROR_ID), Err(ProtocolError::Invalid(ERROR_ID)));
    let body = b"SERROR\0C42601\0Moops\0";
    assert_eq!(NoticeBody::from_bytes(body, ERROR_ID), Err(ProtocolError::Invalid(ERROR_ID)));
    let trailing = b"SERROR\0C42601\0Moops\0\0x";
    assert_eq!(
        NoticeBody::from_bytes(trailing, ERROR_ID),
        Err(ProtocolError::Invalid(ERROR_ID))
    );
}
