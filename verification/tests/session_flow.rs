//! Session state-machine tests: startup, authentication, simple queries,
//! state discipline, and error recovery.

use gres::error::{PgError, ProtocolError};
use gres::servermsg::{take_msg, AuthMsg, ServerMsg};
use gres::session::{Action, BusyKind, Session, SessionState};

fn frame(id: u8, body: &[u8]) -> Vec<u8> {
    let mut out = vec![id];
    out.extend_from_slice(&((body.len() + 4) as u32).to_be_bytes());
    out.extend_from_slice(body);
    out
}

/// Feeds every frame in `reply` to the session, asserting the request
/// completes on the last one.
fn drain(session: &mut Session, reply: &[u8]) {
    let mut rest = reply;
    while !rest.is_empty() {
        let (f, r) = take_msg(rest).unwrap();
        let msg = ServerMsg::from_slice(f).unwrap();
        let action = session.on_message(msg).unwrap();
        rest = r;
        if rest.is_empty() {
            assert_eq!(action, Action::Complete);
        } else {
            assert_eq!(action, Action::Continue);
        }
    }
}

#[test]
fn startup_reaches_ready() {
    let (mut session, startup_bytes) = Session::new("cliff", None, Some("db"));
    assert_eq!(session.state, SessionState::AwaitingAuth);
    assert_eq!(
        startup_bytes,
        b"\0\0\0\x20\x00\x03\x00\x00user\0cliff\0database\0db\0\0".to_vec()
    );

    let mut reply = frame(b'R', &[0, 0, 0, 0]);
    reply.extend_from_slice(&frame(b'S', b"client_encoding\0UTF8\0"));
    reply.extend_from_slice(&frame(b'K', &[0, 0, 0, 9, 0, 0, 0, 5]));
    reply.extend_from_slice(&frame(b'Z', b"I"));
    drain(&mut session, &reply);

    assert_eq!(session.state, SessionState::Ready);
    assert_eq!(
        session.params,
        vec![("client_encoding".to_string(), "UTF8".to_string())]
    );
    assert_eq!(session.backend_key, Some((9, 5)));
    assert_eq!(session.txn_status, Some(b'I'));
}

#[test]
fn database_defaults_to_user() {
    let (session, bytes) = Session::new("u", None, None);
    assert_eq!(session.database, "u");
    assert_eq!(bytes, b"\0\0\0\x1b\x00\x03\x00\x00user\0u\0database\0u\0\0".to_vec());
}

#[test]
fn md5_challenge_produces_password_frame() {
    let (mut session, _) = Session::new("u", Some("p"), None);
    let action = session
        .on_message(ServerMsg::Auth(AuthMsg::Md5([0xAA, 0xBB, 0xCC, 0xDD])))
        .unwrap();
    let expected_hash = b"md5294fa294d81e899629510a5b0b4aee32";
    let expected = frame(b'p', &[expected_hash.as_slice(), &[0]].concat());
    match action {
        Action::Send(bytes) => assert_eq!(bytes, expected),
        other => panic!("expected a password frame, got {:?}", other),
    }
    assert_eq!(session.state, SessionState::AwaitingAuth);
}

#[test]
fn cleartext_challenge_sends_password() {
    let (mut session, _) = Session::new("u", Some("open sesame"), None);
    let action = session.on_message(ServerMsg::Auth(AuthMsg::Cleartext)).unwrap();
    assert_eq!(action, Action::Send(b"p\0\0\0\x10open sesame\0".to_vec()));
}

#[test]
fn md5_without_password_is_config_error() {
    let (mut session, _) = Session::new("u", None, None);
    let r = session.on_message(ServerMsg::Auth(AuthMsg::Md5([1, 2, 3, 4])));
    assert_eq!(r, Err(PgError::MissingPassword));
    assert_eq!(session.state, SessionState::Closed);
}

#[test]
fn unsupported_auth_method_is_rejected() {
    let (mut session, _) = Session::new("u", Some("p"), None);
    let r = session.on_message(ServerMsg::Auth(AuthMsg::Kerberos));
    assert_eq!(r, Err(PgError::Unsupported(2)));
    assert_eq!(session.state, SessionState::Closed);
}

#[test]
fn handshake_error_rejects_auth() {
    let (mut session, _) = Session::new("u", Some("p"), None);
    let body = b"SFATAL\0C28P01\0Mpassword authentication failed\0\0";
    let msg = ServerMsg::from_slice(&frame(b'E', body)).unwrap();
    let r = session.on_message(msg);
    assert_eq!(session.state, SessionState::AuthRejected);
    match r {
        Err(PgError::Rejected(nb)) => {
            assert_eq!(nb.code, "28P01");
            assert_eq!(nb.message(), "password authentication failed");
        },
        other => panic!("expected a rejection, got {:?}", other),
    }
}

fn ready_session() -> Session {
    let (mut session, _) = Session::new("u", None, None);
    session.on_message(ServerMsg::Auth(AuthMsg::AuthOk)).unwrap();
    session.on_message(ServerMsg::ReadyForQuery(b'I')).unwrap();
    assert_eq!(session.state, SessionState::Ready);
    session
}

#[test]
fn simple_query_collects_rows() {
    let mut session = ready_session();
    let bytes = session.begin_simple_query("SELECT 1").unwrap();
    assert_eq!(bytes, b"Q\0\0\0\x0dSELECT 1\0".to_vec());
    assert_eq!(session.state, SessionState::Busy(BusyKind::SimpleQuery));

    let mut reply = frame(
        b'T',
        &[
            0, 1, b'c', 0, 0, 0, 0, 0, 0, 0, 0, 0, 0, 0x17, 0, 4, 0xFF, 0xFF, 0xFF, 0xFF, 0, 0,
        ],
    );
    reply.extend_from_slice(&frame(b'D', &[0, 1, 0, 0, 0, 1, b'1']));
    reply.extend_from_slice(&frame(b'C', b"SELECT 1\0"));
    reply.extend_from_slice(&frame(b'Z', b"I"));
    drain(&mut session, &reply);

    assert_eq!(session.state, SessionState::Ready);
    assert_eq!(session.tags, vec!["SELECT 1".to_string()]);
    let rows = session.take_result().unwrap();
    assert_eq!(rows, vec![vec![Some(b"1".to_vec())]]);
    assert!(session.rows.is_empty());
}

#[test]
fn request_outside_ready_is_state_error() {
    let (mut session, _) = Session::new("u", None, None);
    // still authenticating: every request initiation is refused
    let before = session.state;
    let r = session.begin_simple_query("SELECT 1");
    assert_eq!(
        r,
        Err(PgError::State { expected: SessionState::Ready, actual: SessionState::AwaitingAuth })
    );
    assert_eq!(session.state, before);

    let mut session = ready_session();
    session.begin_simple_query("SELECT 1").unwrap();
    // busy: a second request is refused and the session is untouched
    let r = session.begin_simple_query("SELECT 2");
    assert_eq!(
        r,
        Err(PgError::State {
            expected: SessionState::Ready,
            actual: SessionState::Busy(BusyKind::SimpleQuery),
        })
    );
    assert_eq!(session.state, SessionState::Busy(BusyKind::SimpleQuery));
    let r = session.begin_prepare("SELECT 1");
    assert!(matches!(r, Err(PgError::State { .. })));
    let r = session.begin_sync();
    assert!(matches!(r, Err(PgError::State { .. })));
}

#[test]
fn server_error_recovers_at_sync_point() {
    let mut session = ready_session();
    session.begin_simple_query("SELEC 1;").unwrap();

    let body = b"SERROR\0VERROR\0C42601\0Msyntax error at or near \"SELEC\"\0\0";
    let mut reply = frame(b'E', body);
    reply.extend_from_slice(&frame(b'Z', b"I"));
    drain(&mut session, &reply);
    assert_eq!(session.state, SessionState::Ready);

    let r = session.take_result();
    match r {
        Err(PgError::Server(nb)) => {
            assert_eq!(nb.code, "42601");
            assert!(nb.message().contains("syntax error"));
        },
        other => panic!("expected a server error, got {:?}", other),
    }

    // the next well-formed query succeeds
    session.begin_simple_query("SELECT 1;").unwrap();
    let mut reply = frame(b'D', &[0, 1, 0, 0, 0, 1, b'1']);
    reply.extend_from_slice(&frame(b'C', b"SELECT 1\0"));
    reply.extend_from_slice(&frame(b'Z', b"I"));
    drain(&mut session, &reply);
    let rows = session.take_result().unwrap();
    assert_eq!(rows, vec![vec![Some(b"1".to_vec())]]);
}

#[test]
fn notices_are_absorbed_not_raised() {
    let mut session = ready_session();
    session.begin_simple_query("SELECT 1").unwrap();
    let body = b"SNOTICE\0VNOTICE\0C00000\0Mjust so you know\0\0";
    let msg = ServerMsg::from_slice(&frame(b'N', body)).unwrap();
    assert_eq!(session.on_message(msg), Ok(Action::Continue));
    assert_eq!(session.notices.len(), 1);
    assert_eq!(session.notices[0].message(), "just so you know");
    assert_eq!(session.state, SessionState::Busy(BusyKind::SimpleQuery));
}

#[test]
fn prepare_mints_sequential_names() {
    let mut session = ready_session();
    let (bytes, name) = session.begin_prepare("SELECT $1").unwrap();
    assert_eq!(name, "0");
    assert_eq!(session.state, SessionState::Busy(BusyKind::Parse));
    let expected: Vec<u8> =
        [b"P\0\0\0\x12\x30\0SELECT $1\0\0\0".as_slice(), b"S\0\0\0\x04"].concat();
    assert_eq!(bytes, expected);

    // server confirms: ParseComplete then ReadyForQuery
    assert_eq!(session.on_message(ServerMsg::ParseComplete), Ok(Action::Continue));
    assert_eq!(session.completions, vec![b'1']);
    assert_eq!(session.on_message(ServerMsg::ReadyForQuery(b'I')), Ok(Action::Complete));

    let (_, name2) = session.begin_prepare("SELECT $1 + 1").unwrap();
    assert_eq!(name2, "1");
    assert_eq!(session.prepared_counter, 2);
}

#[test]
fn bind_execute_close_frames() {
    let mut session = ready_session();
    let bytes = session.begin_bind("", "0", vec![Some(b"7".to_vec()), None]).unwrap();
    let expected: Vec<u8> = [
        b"B\0\0\0\x16\0\x30\0\0\0\0\x02".as_slice(),
        &[0, 0, 0, 1, b'7'],
        &[0xFF, 0xFF, 0xFF, 0xFF],
        &[0, 0],
        b"S\0\0\0\x04",
    ]
    .concat();
    assert_eq!(bytes, expected);
    assert_eq!(session.state, SessionState::Busy(BusyKind::Bind));
    session.on_message(ServerMsg::BindComplete).unwrap();
    session.on_message(ServerMsg::ReadyForQuery(b'I')).unwrap();

    let bytes = session.begin_execute("", 0).unwrap();
    let expected: Vec<u8> = [b"E\0\0\0\x09\0\0\0\0\0".as_slice(), b"S\0\0\0\x04"].concat();
    assert_eq!(bytes, expected);
    session.on_message(ServerMsg::DataRow(vec![Some(b"7".to_vec())])).unwrap();
    session.on_message(ServerMsg::CommandComplete("SELECT 1".to_string())).unwrap();
    session.on_message(ServerMsg::ReadyForQuery(b'I')).unwrap();
    assert_eq!(session.take_result().unwrap(), vec![vec![Some(b"7".to_vec())]]);

    let bytes = session
        .begin_close(gres::message::CloseType::PreparedStatement, "0")
        .unwrap();
    let expected: Vec<u8> = [b"C\0\0\0\x07S0\0".as_slice(), b"S\0\0\0\x04"].concat();
    assert_eq!(bytes, expected);
    session.on_message(ServerMsg::CloseComplete).unwrap();
    assert_eq!(session.completions, vec![b'3']);
    session.on_message(ServerMsg::ReadyForQuery(b'I')).unwrap();
    assert_eq!(session.state, SessionState::Ready);
}

#[test]
fn terminate_emits_final_frame() {
    let mut session = ready_session();
    let bytes = session.terminate();
    assert_eq!(bytes, b"\x58\0\0\0\x04".to_vec());
    assert_eq!(session.state, SessionState::Closed);
}

#[test]
fn unexpected_message_poisons_connection() {
    let mut session = ready_session();
    // a data row arriving while idle violates the protocol
    let r = session.on_message(ServerMsg::DataRow(vec![]));
    assert_eq!(r, Err(PgError::Protocol(ProtocolError::Invalid(b'D'))));
    assert_eq!(session.state, SessionState::Closed);
}
