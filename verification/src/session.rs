//! Session state machine: legal protocol states, the transitions driven by
//! backend messages, and request initiation. The embedder owns the socket:
//! it writes the byte buffers these functions return and feeds every decoded
//! backend message to [`Session::on_message`] until the synchronization
//! point.

use vstd::prelude::*;
use vstd::utf8::encode_utf8;
use vstd::string::StringSliceAdditionalSpecFns;
use crate::auth::{build_md5_hash, spec_md5_hash_bytes};
use crate::error::PgError;
use crate::error::ProtocolError;
use crate::message::{
    Message, PasswordMessage, Query, StartupMessage, Terminate, ParseMessage, BindMessage,
    ExecuteMessage, SyncMessage, CloseMessage, CloseType, spec_frame, spec_cstr, spec_params,
    spec_oids, spec_format_codes, spec_value_bytes, FRONT_PASSWORD, FRONT_QUERY, FRONT_PARSE,
    FRONT_BIND, FRONT_EXECUTE, FRONT_SYNC, FRONT_CLOSE, FRONT_TERMINATE,
};
use crate::notice::NoticeBody;
use crate::servermsg::{
    ServerMsg, AuthMsg, FieldDescription, ID_AUTH, ID_PARAM_STATUS, ID_BACKEND_KEY,
    ID_ROW_DESCRIPTION, ID_DATA_ROW, ID_COMMAND_COMPLETE, ID_READY_FOR_QUERY, ID_ERROR_RESPONSE,
    ID_NOTICE_RESPONSE, ID_PARSE_COMPLETE, ID_BIND_COMPLETE, ID_CLOSE_COMPLETE, ID_NO_DATA,
    ID_PORTAL_SUSPENDED, ID_EMPTY_QUERY,
};
use crate::wire::{ascii_bytes_to_string, u16_be, u32_be};

verus! {

/// The kind of request a busy session is waiting on.
#[derive(Clone, Copy, Debug, PartialEq, Eq, Structural)]
pub enum BusyKind {
    SimpleQuery,
    Parse,
    Bind,
    Execute,
    Sync,
    Close,
}

/// The lifecycle state of a connection.
#[derive(Clone, Copy, Debug, PartialEq, Eq, Structural)]
pub enum SessionState {
    /// Created; no startup message sent yet.
    New,
    /// Startup sent; waiting for the authentication exchange.
    AwaitingAuth,
    /// Authentication succeeded; absorbing server parameters.
    Authenticated,
    /// The server rejected the handshake.
    AuthRejected,
    /// Idle; the caller may initiate a request.
    Ready,
    /// A request is in flight; draining until `ReadyForQuery`.
    Busy(BusyKind),
    /// Terminated or poisoned; no further traffic.
    Closed,
}

/// A parameter value for a prepared-statement execution.
#[derive(Clone, Debug, PartialEq, Eq)]
pub enum Param {
    Text(String),
    Binary(Vec<u8>),
    Integer(i64),
    Boolean(bool),
    Null,
}

/// What the embedder must do after feeding one message to the session.
#[derive(Clone, Debug, PartialEq, Eq)]
pub enum Action {
    /// Keep reading and feeding messages.
    Continue,
    /// Write these bytes to the socket, then keep reading.
    Send(Vec<u8>),
    /// The synchronization point was reached; the request is finished.
    Complete,
}

/// One row of a result: each column NULL or a byte string.
pub type Row = Vec<Option<Vec<u8>>>;

/// The protocol core of one connection. It holds no socket; the embedder
/// moves bytes and drives [`Session::on_message`].
#[derive(Clone, Debug)]
pub struct Session {
    /// Current lifecycle state.
    pub state: SessionState,
    /// The negotiated user name.
    pub user: String,
    /// The negotiated database (defaulted to the user name).
    pub database: String,
    /// The configured password, if any.
    pub password: Option<String>,
    /// Server parameter statuses, in order of arrival (last write wins).
    pub params: Vec<(String, String)>,
    /// The `BackendKeyData` process id and secret, once received.
    pub backend_key: Option<(u32, u32)>,
    /// Mints sequential decimal prepared-statement names.
    pub prepared_counter: u32,
    /// Data rows accumulated by the request in flight.
    pub rows: Vec<Row>,
    /// Command-completion tags accumulated by the request in flight.
    pub tags: Vec<String>,
    /// The row description of the request in flight.
    pub row_desc: Option<Vec<FieldDescription>>,
    /// Identifier bytes of completion messages seen by the request in
    /// flight (`ParseComplete`, `BindComplete`, `CloseComplete`, `NoData`,
    /// `PortalSuspended`, `EmptyQueryResponse`).
    pub completions: Vec<u8>,
    /// The first server error captured while draining; surfaced at the
    /// synchronization point.
    pub pending_error: Option<NoticeBody>,
    /// Notices delivered out of band, for the observer.
    pub notices: Vec<NoticeBody>,
    /// The transaction status byte of the last `ReadyForQuery`.
    pub txn_status: Option<u8>,
}

/// Machine limit the session relies on: a configured password fits a
/// password message.
pub open spec fn session_wf(s: &Session) -> bool {
    match s.password {
        Some(ref p) => encode_utf8(p@).len() + 5 <= u32::MAX,
        None => true,
    }
}

/// The identifier byte a backend message is carried under.
pub open spec fn spec_msg_id(m: &ServerMsg) -> u8 {
    match m {
        ServerMsg::ErrorResponse(_) => ID_ERROR_RESPONSE,
        ServerMsg::NoticeResponse(_) => ID_NOTICE_RESPONSE,
        ServerMsg::Auth(_) => ID_AUTH,
        ServerMsg::ReadyForQuery(_) => ID_READY_FOR_QUERY,
        ServerMsg::CommandComplete(_) => ID_COMMAND_COMPLETE,
        ServerMsg::ParamStatus(_, _) => ID_PARAM_STATUS,
        ServerMsg::BackendKeyData(_, _) => ID_BACKEND_KEY,
        ServerMsg::RowDescription(_) => ID_ROW_DESCRIPTION,
        ServerMsg::DataRow(_) => ID_DATA_ROW,
        ServerMsg::ParseComplete => ID_PARSE_COMPLETE,
        ServerMsg::BindComplete => ID_BIND_COMPLETE,
        ServerMsg::CloseComplete => ID_CLOSE_COMPLETE,
        ServerMsg::NoData => ID_NO_DATA,
        ServerMsg::PortalSuspended => ID_PORTAL_SUSPENDED,
        ServerMsg::EmptyQueryResponse => ID_EMPTY_QUERY,
        ServerMsg::Unknown(id, _) => *id,
    }
}

/// The wire code of an authentication sub-kind this core does not
/// implement.
pub open spec fn spec_auth_code(a: &AuthMsg) -> u32 {
    match a {
        AuthMsg::Kerberos => 2,
        AuthMsg::ScmCredential => 6,
        AuthMsg::Gss => 7,
        AuthMsg::GssContinue(_) => 8,
        AuthMsg::Sspi => 9,
        AuthMsg::Unknown(code) => *code,
        _ => 0,
    }
}

/// The state after one backend message, per the startup diagram and the
/// drain-loop rules.
pub open spec fn spec_next_state(st: SessionState, m: &ServerMsg, has_password: bool) -> SessionState {
    match st {
        SessionState::AwaitingAuth => match m {
            ServerMsg::Auth(AuthMsg::AuthOk) => SessionState::Authenticated,
            ServerMsg::Auth(AuthMsg::Md5(_)) | ServerMsg::Auth(AuthMsg::Cleartext) => if has_password {
                SessionState::AwaitingAuth
            } else {
                SessionState::Closed
            },
            ServerMsg::Auth(_) => SessionState::Closed,
            ServerMsg::ErrorResponse(_) => SessionState::AuthRejected,
            _ => SessionState::Closed,
        },
        SessionState::Authenticated => match m {
            ServerMsg::ReadyForQuery(_) => SessionState::Ready,
            ServerMsg::ParamStatus(_, _) | ServerMsg::BackendKeyData(_, _)
                | ServerMsg::NoticeResponse(_) | ServerMsg::ErrorResponse(_)
                | ServerMsg::Unknown(_, _) => SessionState::Authenticated,
            _ => SessionState::Closed,
        },
        SessionState::Ready => match m {
            ServerMsg::ParamStatus(_, _) | ServerMsg::NoticeResponse(_) => SessionState::Ready,
            _ => SessionState::Closed,
        },
        SessionState::Busy(k) => match m {
            ServerMsg::ReadyForQuery(_) => SessionState::Ready,
            ServerMsg::Auth(_) => SessionState::Closed,
            _ => SessionState::Busy(k),
        },
        _ => SessionState::Closed,
    }
}

/// The error one backend message produces, if any; `None` means the
/// message is legal in this state.
pub open spec fn spec_step_err(st: SessionState, m: &ServerMsg, has_password: bool) -> Option<
    PgError,
> {
    match st {
        SessionState::AwaitingAuth => match m {
            ServerMsg::Auth(AuthMsg::AuthOk) => None,
            ServerMsg::Auth(AuthMsg::Md5(_)) | ServerMsg::Auth(AuthMsg::Cleartext) => if has_password {
                None
            } else {
                Some(PgError::MissingPassword)
            },
            ServerMsg::Auth(a) => Some(PgError::Unsupported(spec_auth_code(a))),
            ServerMsg::ErrorResponse(b) => Some(PgError::Rejected(*b)),
            _ => Some(PgError::Protocol(ProtocolError::Invalid(spec_msg_id(m)))),
        },
        SessionState::Authenticated => match m {
            ServerMsg::ReadyForQuery(_) | ServerMsg::ParamStatus(_, _)
                | ServerMsg::BackendKeyData(_, _) | ServerMsg::NoticeResponse(_)
                | ServerMsg::ErrorResponse(_) | ServerMsg::Unknown(_, _) => None,
            _ => Some(PgError::Protocol(ProtocolError::Invalid(spec_msg_id(m)))),
        },
        SessionState::Ready => match m {
            ServerMsg::ParamStatus(_, _) | ServerMsg::NoticeResponse(_) => None,
            _ => Some(PgError::Protocol(ProtocolError::Invalid(spec_msg_id(m)))),
        },
        SessionState::Busy(_) => match m {
            ServerMsg::Auth(_) => Some(PgError::Protocol(ProtocolError::Invalid(ID_AUTH))),
            _ => None,
        },
        _ => Some(PgError::Protocol(ProtocolError::Invalid(spec_msg_id(m)))),
    }
}

/// The configuration fields a step never touches.
pub open spec fn spec_config_kept(pre: &Session, post: &Session) -> bool {
    &&& post.user == pre.user
    &&& post.database == pre.database
    &&& post.password == pre.password
    &&& post.prepared_counter == pre.prepared_counter
}

/// The data fields a failing step never touches.
pub open spec fn spec_data_kept(pre: &Session, post: &Session) -> bool {
    &&& post.params == pre.params
    &&& post.backend_key == pre.backend_key
    &&& post.rows == pre.rows
    &&& post.tags == pre.tags
    &&& post.row_desc == pre.row_desc
    &&& post.completions == pre.completions
    &&& post.pending_error == pre.pending_error
    &&& post.notices == pre.notices
    &&& post.txn_status == pre.txn_status
}

/// True of the six bodiless completion messages.
pub open spec fn spec_is_completion(m: &ServerMsg) -> bool {
    m matches ServerMsg::ParseComplete || m matches ServerMsg::BindComplete
        || m matches ServerMsg::CloseComplete || m matches ServerMsg::NoData
        || m matches ServerMsg::PortalSuspended || m matches ServerMsg::EmptyQueryResponse
}

/// How a legal message updates the session's tables and accumulators.
pub open spec fn spec_data_updates(pre: &Session, post: &Session, m: &ServerMsg) -> bool {
    &&& post.params@ == (match m {
        ServerMsg::ParamStatus(n, v) => pre.params@.push((*n, *v)),
        _ => pre.params@,
    })
    &&& post.backend_key == (match m {
        ServerMsg::BackendKeyData(pid, key) => Some((*pid, *key)),
        _ => pre.backend_key,
    })
    &&& post.rows@ == (match m {
        ServerMsg::DataRow(cols) => pre.rows@.push(*cols),
        _ => pre.rows@,
    })
    &&& post.tags@ == (match m {
        ServerMsg::CommandComplete(tag) => pre.tags@.push(*tag),
        _ => pre.tags@,
    })
    &&& post.row_desc == (match m {
        ServerMsg::RowDescription(fs) => Some(*fs),
        _ => pre.row_desc,
    })
    &&& post.completions@ == (if spec_is_completion(m) {
        pre.completions@.push(spec_msg_id(m))
    } else {
        pre.completions@
    })
    &&& post.pending_error == (match m {
        ServerMsg::ErrorResponse(b) => if pre.pending_error is Some {
            pre.pending_error
        } else {
            Some(*b)
        },
        _ => pre.pending_error,
    })
    &&& post.notices@ == (match m {
        ServerMsg::NoticeResponse(b) => pre.notices@.push(*b),
        _ => pre.notices@,
    })
    &&& post.txn_status == (match m {
        ServerMsg::ReadyForQuery(t) => Some(*t),
        _ => pre.txn_status,
    })
}

/// The action a legal message produces: a password reply during
/// authentication, completion at `ReadyForQuery`, else keep draining.
pub open spec fn spec_action_ok(pre: &Session, m: &ServerMsg, a: &Action) -> bool {
    match m {
        ServerMsg::Auth(AuthMsg::Md5(salt)) => match pre.password {
            Some(ref p) => a matches Action::Send(bytes) && bytes@ == spec_frame(
                Some(FRONT_PASSWORD),
                spec_md5_hash_bytes(encode_utf8(pre.user@), encode_utf8(p@), salt@) + seq![0u8],
            ),
            None => false,
        },
        ServerMsg::Auth(AuthMsg::Cleartext) => match pre.password {
            Some(ref p) => a matches Action::Send(bytes) && bytes@ == spec_frame(
                Some(FRONT_PASSWORD),
                spec_cstr(p@),
            ),
            None => false,
        },
        ServerMsg::ReadyForQuery(_) => a == Action::Complete,
        _ => a == Action::Continue,
    }
}

/// The complete step relation of [`Session::on_message`].
pub open spec fn spec_step_rel(
    pre: &Session,
    post: &Session,
    m: &ServerMsg,
    r: &Result<Action, PgError>,
) -> bool {
    &&& spec_config_kept(pre, post)
    &&& post.state == spec_next_state(pre.state, m, pre.password is Some)
    &&& match spec_step_err(pre.state, m, pre.password is Some) {
        Some(e) => r == Err::<Action, PgError>(e) && spec_data_kept(pre, post),
        None => match r {
            Ok(a) => spec_data_updates(pre, post, m) && spec_action_ok(pre, m, a),
            Err(_) => false,
        },
    }
}

impl Session {
    /// Opens a session: the new session in `AwaitingAuth` and the startup
    /// frame to send. The database defaults to the user name.
    pub fn new(user: &str, password: Option<&str>, database: Option<&str>) -> (r: (
        Session,
        Vec<u8>,
    ))
        requires
            (match password {
                Some(p) => encode_utf8(p@).len() + 5 <= u32::MAX,
                None => true,
            }),
            encode_utf8(user@).len() + (match database {
                Some(d) => encode_utf8(d@).len(),
                None => encode_utf8(user@).len(),
            }) + 100 <= u32::MAX,
        ensures
            session_wf(&r.0),
            r.0.state == SessionState::AwaitingAuth,
            r.0.user@ == user@,
            r.0.database@ == (match database {
                Some(d) => d@,
                None => user@,
            }),
            (match (password, &r.0.password) {
                (Some(p), Some(q)) => q@ == p@,
                (None, None) => true,
                _ => false,
            }),
            r.0.params@.len() == 0 && r.0.rows@.len() == 0 && r.0.tags@.len() == 0,
            r.0.backend_key is None && r.0.row_desc is None && r.0.pending_error is None,
            r.0.completions@.len() == 0 && r.0.notices@.len() == 0 && r.0.txn_status is None,
            r.0.prepared_counter == 0,
            r.1@ == spec_frame(
                None,
                seq![0u8, 3u8, 0u8, 0u8] + spec_cstr("user"@) + spec_cstr(user@) + spec_cstr(
                    "database"@,
                ) + spec_cstr(r.0.database@) + seq![0u8],
            ),
    {
        let db: String = match database {
            Some(d) => d.to_owned(),
            None => user.to_owned(),
        };
        let startup = StartupMessage {
            user: user.to_owned(),
            database: Some(db.clone()),
            params: Vec::new(),
        };
        proof {
            reveal_strlit("user");
            reveal_strlit("database");
            crate::message::lemma_encode_len_bound("user"@);
            crate::message::lemma_encode_len_bound("database"@);
            assert(spec_params(startup.params@) =~= Seq::<u8>::empty());
            assert(startup.spec_body() =~= seq![0u8, 3u8, 0u8, 0u8] + spec_cstr("user"@)
                + spec_cstr(user@) + spec_cstr("database"@) + spec_cstr(db@) + seq![0u8]);
        }
        let bytes = startup.to_bytes();
        let session = Session {
            state: SessionState::AwaitingAuth,
            user: user.to_owned(),
            database: db,
            password: match password {
                Some(p) => Some(p.to_owned()),
                None => None,
            },
            params: Vec::new(),
            backend_key: None,
            prepared_counter: 0,
            rows: Vec::new(),
            tags: Vec::new(),
            row_desc: None,
            completions: Vec::new(),
            pending_error: None,
            notices: Vec::new(),
            txn_status: None,
        };
        (session, bytes)
    }

    /// Feeds one decoded backend message to the state machine; returns what
    /// the embedder must do next, or the error the message produced.
    pub fn on_message(&mut self, msg: ServerMsg) -> (r: Result<Action, PgError>)
        requires
            session_wf(old(self)),
        ensures
            session_wf(final(self)),
            spec_step_rel(old(self), final(self), &msg, &r),
    {
        let st = self.state;
        match st {
            SessionState::AwaitingAuth => match msg {
                ServerMsg::Auth(AuthMsg::AuthOk) => {
                    self.state = SessionState::Authenticated;
                    Ok(Action::Continue)
                },
                ServerMsg::Auth(AuthMsg::Md5(salt)) => {
                    match &self.password {
                        None => {
                            self.state = SessionState::Closed;
                            Err(PgError::MissingPassword)
                        },
                        Some(p) => {
                            let hash = build_md5_hash(
                                self.user.as_str(),
                                p.as_str(),
                                salt.as_slice(),
                            );
                            let reply = PasswordMessage { hash };
                            let bytes = reply.to_bytes();
                            Ok(Action::Send(bytes))
                        },
                    }
                },
                ServerMsg::Auth(AuthMsg::Cleartext) => {
                    match &self.password {
                        None => {
                            self.state = SessionState::Closed;
                            Err(PgError::MissingPassword)
                        },
                        Some(p) => {
                            let reply = PasswordMessage { hash: p.clone() };
                            let bytes = reply.to_bytes();
                            Ok(Action::Send(bytes))
                        },
                    }
                },
                ServerMsg::Auth(other) => {
                    self.state = SessionState::Closed;
                    let code: u32 = match &other {
                        AuthMsg::Kerberos => 2,
                        AuthMsg::ScmCredential => 6,
                        AuthMsg::Gss => 7,
                        AuthMsg::GssContinue(_) => 8,
                        AuthMsg::Sspi => 9,
                        AuthMsg::Unknown(c) => *c,
                        _ => 0,
                    };
                    Err(PgError::Unsupported(code))
                },
                ServerMsg::ErrorResponse(b) => {
                    self.state = SessionState::AuthRejected;
                    Err(PgError::Rejected(b))
                },
                other => {
                    self.state = SessionState::Closed;
                    let id = msg_id(&other);
                    Err(PgError::Protocol(ProtocolError::Invalid(id)))
                },
            },
            SessionState::Authenticated | SessionState::Busy(_) => {
                let busy = matches!(st, SessionState::Busy(_));
                match msg {
                    ServerMsg::ReadyForQuery(t) => {
                        self.state = SessionState::Ready;
                        self.txn_status = Some(t);
                        Ok(Action::Complete)
                    },
                    ServerMsg::ParamStatus(n, v) => {
                        self.params.push((n, v));
                        Ok(Action::Continue)
                    },
                    ServerMsg::BackendKeyData(pid, key) => {
                        self.backend_key = Some((pid, key));
                        Ok(Action::Continue)
                    },
                    ServerMsg::NoticeResponse(b) => {
                        self.notices.push(b);
                        Ok(Action::Continue)
                    },
                    ServerMsg::ErrorResponse(b) => {
                        if self.pending_error.is_none() {
                            self.pending_error = Some(b);
                        }
                        Ok(Action::Continue)
                    },
                    ServerMsg::Unknown(_, _) => Ok(Action::Continue),
                    ServerMsg::Auth(_) => {
                        self.state = SessionState::Closed;
                        Err(PgError::Protocol(ProtocolError::Invalid(ID_AUTH)))
                    },
                    ServerMsg::DataRow(cols) => {
                        if busy {
                            self.rows.push(cols);
                            Ok(Action::Continue)
                        } else {
                            self.state = SessionState::Closed;
                            Err(PgError::Protocol(ProtocolError::Invalid(ID_DATA_ROW)))
                        }
                    },
                    ServerMsg::RowDescription(fs) => {
                        if busy {
                            self.row_desc = Some(fs);
                            Ok(Action::Continue)
                        } else {
                            self.state = SessionState::Closed;
                            Err(PgError::Protocol(ProtocolError::Invalid(ID_ROW_DESCRIPTION)))
                        }
                    },
                    ServerMsg::CommandComplete(tag) => {
                        if busy {
                            self.tags.push(tag);
                            Ok(Action::Continue)
                        } else {
                            self.state = SessionState::Closed;
                            Err(PgError::Protocol(ProtocolError::Invalid(ID_COMMAND_COMPLETE)))
                        }
                    },
                    other => {
                        // the six completion messages
                        if busy {
                            let id = msg_id(&other);
                            self.completions.push(id);
                            Ok(Action::Continue)
                        } else {
                            self.state = SessionState::Closed;
                            let id = msg_id(&other);
                            Err(PgError::Protocol(ProtocolError::Invalid(id)))
                        }
                    },
                }
            },
            SessionState::Ready => match msg {
                ServerMsg::ParamStatus(n, v) => {
                    self.params.push((n, v));
                    Ok(Action::Continue)
                },
                ServerMsg::NoticeResponse(b) => {
                    self.notices.push(b);
                    Ok(Action::Continue)
                },
                other => {
                    self.state = SessionState::Closed;
                    let id = msg_id(&other);
                    Err(PgError::Protocol(ProtocolError::Invalid(id)))
                },
            },
            _ => {
                self.state = SessionState::Closed;
                let id = msg_id(&msg);
                Err(PgError::Protocol(ProtocolError::Invalid(id)))
            },
        }
    }
}

/// Powers of ten.
pub open spec fn pow10(k: nat) -> int
    decreases k,
{
    if k == 0 {
        1
    } else {
        10 * pow10((k - 1) as nat)
    }
}

/// The decimal digit string of a nonnegative integer, most significant
/// digit first and without leading zeros.
pub open spec fn spec_dec_bytes(n: int) -> Seq<u8>
    recommends
        n >= 0,
    decreases n,
{
    if n < 10 {
        seq![(48 + n) as u8]
    } else {
        spec_dec_bytes(n / 10).push((48 + (n % 10)) as u8)
    }
}

/// Decimal digit strings are ASCII digits and read back to their value.
pub proof fn lemma_dec_bytes_props(n: int)
    requires
        n >= 0,
    ensures
        crate::notice::all_dec_digits(spec_dec_bytes(n)),
        crate::notice::dec_value(spec_dec_bytes(n)) == n,
        forall|i: int| 0 <= i < spec_dec_bytes(n).len() ==> spec_dec_bytes(n)[i] < 0x80,
    decreases n,
{
    if n < 10 {
        assert(crate::notice::dec_value(spec_dec_bytes(n).drop_last()) == 0);
    } else {
        lemma_dec_bytes_props(n / 10);
        let s = spec_dec_bytes(n);
        assert(s.drop_last() =~= spec_dec_bytes(n / 10));
        assert(s.last() == (48 + (n % 10)) as u8);
    }
}

/// Every power of ten is positive.
proof fn lemma_pow10_pos(k: nat)
    ensures
        pow10(k) >= 1,
    decreases k,
{
    if k > 0 {
        lemma_pow10_pos((k - 1) as nat);
    }
}

/// A number below `10^k` has at most `k` decimal digits.
proof fn lemma_dec_bytes_len(n: int, k: nat)
    requires
        0 <= n < pow10(k),
        k >= 1,
    ensures
        spec_dec_bytes(n).len() <= k,
    decreases k,
{
    if n >= 10 {
        let p = pow10((k - 1) as nat);
        lemma_pow10_pos((k - 1) as nat);
        vstd::arithmetic::div_mod::lemma_fundamental_div_mod(n, 10);
        assert(n / 10 < p) by {
            if n / 10 >= p {
                assert(n >= 10 * p + n % 10);
                vstd::arithmetic::div_mod::lemma_mod_bound(n, 10);
            }
        }
        assert(k >= 2) by {
            if k == 1 {
                assert(pow10(1nat) == 10);
            }
        }
        lemma_dec_bytes_len(n / 10, (k - 1) as nat);
    }
}

/// Appends the decimal digits of `n`.
fn push_dec(buf: &mut Vec<u8>, n: u32)
    ensures
        final(buf)@ == old(buf)@ + spec_dec_bytes(n as int),
    decreases n,
{
    if n < 10 {
        buf.push(48 + n as u8);
        assert(buf@ =~= old(buf)@ + spec_dec_bytes(n as int));
    } else {
        push_dec(buf, n / 10);
        buf.push(48 + (n % 10) as u8);
        assert(buf@ =~= old(buf)@ + spec_dec_bytes(n as int));
    }
}

/// The decimal name minted for a prepared statement: at most ten digits.
fn mint_name(n: u32) -> (r: String)
    ensures
        encode_utf8(r@) == spec_dec_bytes(n as int),
        encode_utf8(r@).len() <= 10,
{
    let mut buf: Vec<u8> = Vec::new();
    push_dec(&mut buf, n);
    proof {
        assert(buf@ =~= spec_dec_bytes(n as int));
        lemma_dec_bytes_props(n as int);
        reveal_with_fuel(pow10, 11);
        assert(pow10(10nat) == 10_000_000_000int);
        lemma_dec_bytes_len(n as int, 10nat);
    }
    ascii_bytes_to_string(&buf)
}

/// The request accumulators are empty, as at the start of a request.
pub open spec fn spec_request_cleared(s: &Session) -> bool {
    &&& s.rows@.len() == 0
    &&& s.tags@.len() == 0
    &&& s.row_desc is None
    &&& s.completions@.len() == 0
    &&& s.pending_error is None
}

/// The fields a request initiation never touches.
pub open spec fn spec_idle_kept(pre: &Session, post: &Session) -> bool {
    &&& post.user == pre.user
    &&& post.database == pre.database
    &&& post.password == pre.password
    &&& post.params == pre.params
    &&& post.backend_key == pre.backend_key
    &&& post.notices == pre.notices
    &&& post.txn_status == pre.txn_status
}

impl Session {
    /// Resets the request accumulators for a fresh request.
    fn clear_request(&mut self)
        ensures
            spec_request_cleared(final(self)),
            spec_idle_kept(old(self), final(self)),
            final(self).state == old(self).state,
            final(self).prepared_counter == old(self).prepared_counter,
    {
        self.rows = Vec::new();
        self.tags = Vec::new();
        self.row_desc = None;
        self.completions = Vec::new();
        self.pending_error = None;
    }

    /// Starts a simple query: returns the `Query` frame to send and enters
    /// the busy state. In any state but `Ready` the request is refused
    /// without producing bytes and without changing the session.
    pub fn begin_simple_query(&mut self, sql: &str) -> (r: Result<Vec<u8>, PgError>)
        requires
            session_wf(old(self)),
            encode_utf8(sql@).len() + 6 <= u32::MAX,
        ensures
            session_wf(final(self)),
            old(self).state != SessionState::Ready ==> r == Err::<Vec<u8>, PgError>(
                PgError::State { expected: SessionState::Ready, actual: old(self).state },
            ) && *final(self) == *old(self),
            old(self).state == SessionState::Ready ==> {
                &&& r matches Ok(bytes) && bytes@ == spec_frame(
                    Some(FRONT_QUERY),
                    spec_cstr(sql@),
                )
                &&& final(self).state == SessionState::Busy(BusyKind::SimpleQuery)
                &&& final(self).prepared_counter == old(self).prepared_counter
                &&& spec_request_cleared(final(self))
                &&& spec_idle_kept(old(self), final(self))
            },
    {
        if self.state != SessionState::Ready {
            return Err(PgError::State { expected: SessionState::Ready, actual: self.state });
        }
        let q = Query { query: sql.to_owned() };
        let bytes = q.to_bytes();
        self.clear_request();
        self.state = SessionState::Busy(BusyKind::SimpleQuery);
        Ok(bytes)
    }

    /// Prepares a statement under a freshly minted decimal name: returns
    /// the `Parse` frame followed by a `Sync` frame, and the new name.
    /// Refused outside `Ready` without touching the session.
    pub fn begin_prepare(&mut self, sql: &str) -> (r: Result<(Vec<u8>, String), PgError>)
        requires
            session_wf(old(self)),
            encode_utf8(sql@).len() + 50 <= u32::MAX,
            old(self).prepared_counter < u32::MAX,
        ensures
            session_wf(final(self)),
            old(self).state != SessionState::Ready ==> r == Err::<(Vec<u8>, String), PgError>(
                PgError::State { expected: SessionState::Ready, actual: old(self).state },
            ) && *final(self) == *old(self),
            old(self).state == SessionState::Ready ==> {
                &&& r matches Ok(p) && encode_utf8(p.1@) == spec_dec_bytes(
                    old(self).prepared_counter as int,
                ) && p.0@ == spec_frame(
                    Some(FRONT_PARSE),
                    spec_cstr(p.1@) + spec_cstr(sql@) + u16_be(0),
                ) + spec_frame(Some(FRONT_SYNC), Seq::empty())
                &&& final(self).state == SessionState::Busy(BusyKind::Parse)
                &&& final(self).prepared_counter == old(self).prepared_counter + 1
                &&& spec_request_cleared(final(self))
                &&& spec_idle_kept(old(self), final(self))
            },
    {
        if self.state != SessionState::Ready {
            return Err(PgError::State { expected: SessionState::Ready, actual: self.state });
        }
        let name = mint_name(self.prepared_counter);
        self.prepared_counter = self.prepared_counter + 1;
        let parse = ParseMessage {
            name: name.clone(),
            sql: sql.to_owned(),
            param_types: Vec::new(),
        };
        proof {
            assert(spec_oids(parse.param_types@) =~= Seq::<u8>::empty());
            assert(parse.spec_body() =~= spec_cstr(name@) + spec_cstr(sql@) + u16_be(0));
        }
        let mut bytes = parse.to_bytes();
        let sync = SyncMessage;
        let mut sync_bytes = sync.to_bytes();
        bytes.append(&mut sync_bytes);
        proof {
            assert(bytes@ =~= spec_frame(Some(FRONT_PARSE), spec_cstr(name@) + spec_cstr(sql@)
                + u16_be(0)) + spec_frame(Some(FRONT_SYNC), Seq::empty()));
        }
        self.clear_request();
        self.state = SessionState::Busy(BusyKind::Parse);
        Ok((bytes, name))
    }

    /// Binds parameter values to a prepared statement under a portal name:
    /// returns the `Bind` frame followed by a `Sync` frame. Refused
    /// outside `Ready` without touching the session.
    pub fn begin_bind(
        &mut self,
        portal: &str,
        statement: &str,
        param_values: Vec<Option<Vec<u8>>>,
    ) -> (r: Result<Vec<u8>, PgError>)
        requires
            session_wf(old(self)),
            encode_utf8(portal@).len() + encode_utf8(statement@).len() + spec_value_bytes(
                param_values@,
            ).len() + 50 <= u32::MAX,
            param_values@.len() <= u16::MAX,
            forall|i: int|
                #![trigger param_values@[i]]
                0 <= i < param_values@.len() ==> (match param_values@[i] {
                    Some(ref v) => v@.len() <= 0x7FFF_FFFF,
                    None => true,
                }),
        ensures
            session_wf(final(self)),
            old(self).state != SessionState::Ready ==> r == Err::<Vec<u8>, PgError>(
                PgError::State { expected: SessionState::Ready, actual: old(self).state },
            ) && *final(self) == *old(self),
            old(self).state == SessionState::Ready ==> {
                &&& r matches Ok(bytes) && bytes@ == spec_frame(
                    Some(FRONT_BIND),
                    spec_cstr(portal@) + spec_cstr(statement@) + u16_be(0) + u16_be(
                        param_values@.len() as int,
                    ) + spec_value_bytes(param_values@) + u16_be(0),
                ) + spec_frame(Some(FRONT_SYNC), Seq::empty())
                &&& final(self).state == SessionState::Busy(BusyKind::Bind)
                &&& final(self).prepared_counter == old(self).prepared_counter
                &&& spec_request_cleared(final(self))
                &&& spec_idle_kept(old(self), final(self))
            },
    {
        if self.state != SessionState::Ready {
            return Err(PgError::State { expected: SessionState::Ready, actual: self.state });
        }
        let bind = BindMessage {
            portal: portal.to_owned(),
            prepared_statement: statement.to_owned(),
            param_format_codes: Vec::new(),
            param_values,
            result_format_codes: Vec::new(),
        };
        proof {
            assert(spec_format_codes(bind.param_format_codes@) =~= Seq::<u8>::empty());
            assert(spec_format_codes(bind.result_format_codes@) =~= Seq::<u8>::empty());
            assert(bind.spec_body() =~= spec_cstr(portal@) + spec_cstr(statement@) + u16_be(0)
                + u16_be(bind.param_values@.len() as int) + spec_value_bytes(bind.param_values@)
                + u16_be(0));
        }
        let mut bytes = bind.to_bytes();
        let sync = SyncMessage;
        let mut sync_bytes = sync.to_bytes();
        bytes.append(&mut sync_bytes);
        proof {
            assert(bytes@ =~= spec_frame(Some(FRONT_BIND), spec_cstr(portal@) + spec_cstr(
                statement@,
            ) + u16_be(0) + u16_be(bind.param_values@.len() as int) + spec_value_bytes(
                bind.param_values@,
            ) + u16_be(0)) + spec_frame(Some(FRONT_SYNC), Seq::empty()));
        }
        self.clear_request();
        self.state = SessionState::Busy(BusyKind::Bind);
        Ok(bytes)
    }

    /// Runs a bound portal: returns the `Execute` frame followed by a
    /// `Sync` frame. Refused outside `Ready` without touching the session.
    pub fn begin_execute(&mut self, portal: &str, max_rows: u32) -> (r: Result<Vec<u8>, PgError>)
        requires
            session_wf(old(self)),
            encode_utf8(portal@).len() + 20 <= u32::MAX,
        ensures
            session_wf(final(self)),
            old(self).state != SessionState::Ready ==> r == Err::<Vec<u8>, PgError>(
                PgError::State { expected: SessionState::Ready, actual: old(self).state },
            ) && *final(self) == *old(self),
            old(self).state == SessionState::Ready ==> {
                &&& r matches Ok(bytes) && bytes@ == spec_frame(
                    Some(FRONT_EXECUTE),
                    spec_cstr(portal@) + u32_be(max_rows as int),
                ) + spec_frame(Some(FRONT_SYNC), Seq::empty())
                &&& final(self).state == SessionState::Busy(BusyKind::Execute)
                &&& final(self).prepared_counter == old(self).prepared_counter
                &&& spec_request_cleared(final(self))
                &&& spec_idle_kept(old(self), final(self))
            },
    {
        if self.state != SessionState::Ready {
            return Err(PgError::State { expected: SessionState::Ready, actual: self.state });
        }
        let execute = ExecuteMessage { portal: portal.to_owned(), max_rows };
        let mut bytes = execute.to_bytes();
        let sync = SyncMessage;
        let mut sync_bytes = sync.to_bytes();
        bytes.append(&mut sync_bytes);
        proof {
            assert(bytes@ =~= spec_frame(Some(FRONT_EXECUTE), spec_cstr(portal@) + u32_be(
                max_rows as int,
            )) + spec_frame(Some(FRONT_SYNC), Seq::empty()));
        }
        self.clear_request();
        self.state = SessionState::Busy(BusyKind::Execute);
        Ok(bytes)
    }

    /// Emits a lone `Sync`, forcing a synchronization point. Refused
    /// outside `Ready` without touching the session.
    pub fn begin_sync(&mut self) -> (r: Result<Vec<u8>, PgError>)
        requires
            session_wf(old(self)),
        ensures
            session_wf(final(self)),
            old(self).state != SessionState::Ready ==> r == Err::<Vec<u8>, PgError>(
                PgError::State { expected: SessionState::Ready, actual: old(self).state },
            ) && *final(self) == *old(self),
            old(self).state == SessionState::Ready ==> {
                &&& r matches Ok(bytes) && bytes@ == spec_frame(
                    Some(FRONT_SYNC),
                    Seq::empty(),
                )
                &&& final(self).state == SessionState::Busy(BusyKind::Sync)
                &&& final(self).prepared_counter == old(self).prepared_counter
                &&& spec_request_cleared(final(self))
                &&& spec_idle_kept(old(self), final(self))
            },
    {
        if self.state != SessionState::Ready {
            return Err(PgError::State { expected: SessionState::Ready, actual: self.state });
        }
        let sync = SyncMessage;
        let bytes = sync.to_bytes();
        self.clear_request();
        self.state = SessionState::Busy(BusyKind::Sync);
        Ok(bytes)
    }

    /// Releases a prepared statement or portal: returns the `Close` frame
    /// followed by a `Sync` frame. Refused outside `Ready` without
    /// touching the session.
    pub fn begin_close(&mut self, close_type: CloseType, name: &str) -> (r: Result<
        Vec<u8>,
        PgError,
    >)
        requires
            session_wf(old(self)),
            encode_utf8(name@).len() + 20 <= u32::MAX,
        ensures
            session_wf(final(self)),
            old(self).state != SessionState::Ready ==> r == Err::<Vec<u8>, PgError>(
                PgError::State { expected: SessionState::Ready, actual: old(self).state },
            ) && *final(self) == *old(self),
            old(self).state == SessionState::Ready ==> {
                &&& r matches Ok(bytes) && bytes@ == spec_frame(
                    Some(FRONT_CLOSE),
                    seq![crate::message::spec_close_code(close_type)] + spec_cstr(name@),
                ) + spec_frame(Some(FRONT_SYNC), Seq::empty())
                &&& final(self).state == SessionState::Busy(BusyKind::Close)
                &&& final(self).prepared_counter == old(self).prepared_counter
                &&& spec_request_cleared(final(self))
                &&& spec_idle_kept(old(self), final(self))
            },
    {
        if self.state != SessionState::Ready {
            return Err(PgError::State { expected: SessionState::Ready, actual: self.state });
        }
        let close = CloseMessage { close_type, name: name.to_owned() };
        let mut bytes = close.to_bytes();
        let sync = SyncMessage;
        let mut sync_bytes = sync.to_bytes();
        bytes.append(&mut sync_bytes);
        proof {
            assert(bytes@ =~= spec_frame(Some(FRONT_CLOSE), seq![crate::message::spec_close_code(
                close_type,
            )] + spec_cstr(name@)) + spec_frame(Some(FRONT_SYNC), Seq::empty()));
        }
        self.clear_request();
        self.state = SessionState::Busy(BusyKind::Close);
        Ok(bytes)
    }

    /// Hands the finished request's outcome to the caller: the captured
    /// server error if one arrived, else the accumulated rows. Clears both.
    pub fn take_result(&mut self) -> (r: Result<Vec<Row>, PgError>)
        ensures
            spec_config_kept(old(self), final(self)),
            final(self).state == old(self).state,
            final(self).params == old(self).params,
            final(self).backend_key == old(self).backend_key,
            final(self).tags == old(self).tags,
            final(self).row_desc == old(self).row_desc,
            final(self).completions == old(self).completions,
            final(self).notices == old(self).notices,
            final(self).txn_status == old(self).txn_status,
            final(self).pending_error is None,
            final(self).rows@.len() == 0,
            (match old(self).pending_error {
                Some(ref b) => r == Err::<Vec<Row>, PgError>(PgError::Server(*b)),
                None => r matches Ok(rows) && rows@ == old(self).rows@,
            }),
    {
        let mut pending: Option<NoticeBody> = None;
        core::mem::swap(&mut pending, &mut self.pending_error);
        let mut rows: Vec<Row> = Vec::new();
        core::mem::swap(&mut rows, &mut self.rows);
        match pending {
            Some(b) => Err(PgError::Server(b)),
            None => Ok(rows),
        }
    }

    /// Closes the session: returns the `Terminate` frame to send before
    /// dropping the socket.
    pub fn terminate(&mut self) -> (r: Vec<u8>)
        ensures
            final(self).state == SessionState::Closed,
            spec_config_kept(old(self), final(self)),
            spec_data_kept(old(self), final(self)),
            r@ == spec_frame(Some(FRONT_TERMINATE), Seq::empty()),
    {
        self.state = SessionState::Closed;
        let t = Terminate;
        t.to_bytes()
    }
}

/// A server error captured while busy leaves the session busy, and the
/// following `ReadyForQuery` restores `Ready`: the connection stays usable
/// after a failed request.
pub proof fn lemma_server_error_recovery(k: BusyKind, b: NoticeBody, t: u8, has_password: bool)
    ensures
        spec_step_err(SessionState::Busy(k), &ServerMsg::ErrorResponse(b), has_password)
            is None,
        spec_next_state(SessionState::Busy(k), &ServerMsg::ErrorResponse(b), has_password)
            == SessionState::Busy(k),
        spec_step_err(SessionState::Busy(k), &ServerMsg::ReadyForQuery(t), has_password)
            is None,
        spec_next_state(SessionState::Busy(k), &ServerMsg::ReadyForQuery(t), has_password)
            == SessionState::Ready,
{
}

/// The identifier byte a backend message is carried under.
pub fn msg_id(m: &ServerMsg) -> (r: u8)
    ensures
        r == spec_msg_id(m),
{
    match m {
        ServerMsg::ErrorResponse(_) => ID_ERROR_RESPONSE,
        ServerMsg::NoticeResponse(_) => ID_NOTICE_RESPONSE,
        ServerMsg::Auth(_) => ID_AUTH,
        ServerMsg::ReadyForQuery(_) => ID_READY_FOR_QUERY,
        ServerMsg::CommandComplete(_) => ID_COMMAND_COMPLETE,
        ServerMsg::ParamStatus(_, _) => ID_PARAM_STATUS,
        ServerMsg::BackendKeyData(_, _) => ID_BACKEND_KEY,
        ServerMsg::RowDescription(_) => ID_ROW_DESCRIPTION,
        ServerMsg::DataRow(_) => ID_DATA_ROW,
        ServerMsg::ParseComplete => ID_PARSE_COMPLETE,
        ServerMsg::BindComplete => ID_BIND_COMPLETE,
        ServerMsg::CloseComplete => ID_CLOSE_COMPLETE,
        ServerMsg::NoData => ID_NO_DATA,
        ServerMsg::PortalSuspended => ID_PORTAL_SUSPENDED,
        ServerMsg::EmptyQueryResponse => ID_EMPTY_QUERY,
        ServerMsg::Unknown(id, _) => *id,
    }
}

} // verus!
