//! Backend messages: the framer and the decoder that turns one complete
//! frame into a tagged value.

use vstd::prelude::*;
use vstd::utf8::{valid_utf8, decode_utf8};
use vstd::string::StringSliceAdditionalSpecFns;
use vstd::slice::{slice_subrange, slice_to_vec};
use crate::error::ProtocolError;
use crate::notice::{NoticeBody, SpecNoticeBody, spec_parse_notice};
use crate::wire::{
    be_u16, be_u32, be_i16, be_i32, spec_take_cstring, spec_take_cstring_plus_fixed,
    spec_take_sized, slice_to_u16, slice_to_u32, take_cstring, take_cstring_plus_fixed,
    take_sized_string,
};

verus! {

/// Message identifier bytes used by the decoder (ASCII).
pub const ID_AUTH: u8 = 82;

pub const ID_PARAM_STATUS: u8 = 83;

pub const ID_BACKEND_KEY: u8 = 75;

pub const ID_ROW_DESCRIPTION: u8 = 84;

pub const ID_DATA_ROW: u8 = 68;

pub const ID_COMMAND_COMPLETE: u8 = 67;

pub const ID_READY_FOR_QUERY: u8 = 90;

pub const ID_ERROR_RESPONSE: u8 = 69;

pub const ID_NOTICE_RESPONSE: u8 = 78;

pub const ID_PARSE_COMPLETE: u8 = 49;

pub const ID_BIND_COMPLETE: u8 = 50;

pub const ID_CLOSE_COMPLETE: u8 = 51;

pub const ID_NO_DATA: u8 = 110;

pub const ID_PORTAL_SUSPENDED: u8 = 115;

pub const ID_EMPTY_QUERY: u8 = 73;

/// Per-column result encoding indicator: 0 is textual, 1 is binary.
#[derive(Clone, Copy, Debug, PartialEq, Eq, Structural)]
pub enum FieldFormat {
    Text,
    Binary,
}

/// One column description from a `RowDescription` message.
#[derive(Clone, Debug, PartialEq, Eq)]
pub struct FieldDescription {
    pub field_name: String,
    pub table_oid: u32,
    pub column_attr: u16,
    pub type_oid: u32,
    pub type_size: i16,
    pub type_modifier: i32,
    pub format: FieldFormat,
}

/// Ghost counterpart of [`FieldDescription`].
pub struct SpecFieldDescription {
    pub field_name: Seq<char>,
    pub table_oid: u32,
    pub column_attr: u16,
    pub type_oid: u32,
    pub type_size: i16,
    pub type_modifier: i32,
    pub format: FieldFormat,
}

impl View for FieldDescription {
    type V = SpecFieldDescription;

    open spec fn view(&self) -> SpecFieldDescription {
        SpecFieldDescription {
            field_name: self.field_name@,
            table_oid: self.table_oid,
            column_attr: self.column_attr,
            type_oid: self.type_oid,
            type_size: self.type_size,
            type_modifier: self.type_modifier,
            format: self.format,
        }
    }
}

/// An authentication request's sub-kind.
#[derive(Clone, Debug, PartialEq, Eq)]
pub enum AuthMsg {
    AuthOk,
    Kerberos,
    Cleartext,
    Md5([u8; 4]),
    ScmCredential,
    Gss,
    Sspi,
    GssContinue(Vec<u8>),
    Unknown(u32),
}

/// Ghost counterpart of [`AuthMsg`].
pub enum SpecAuthMsg {
    AuthOk,
    Kerberos,
    Cleartext,
    Md5(Seq<u8>),
    ScmCredential,
    Gss,
    Sspi,
    GssContinue(Seq<u8>),
    Unknown(u32),
}

impl View for AuthMsg {
    type V = SpecAuthMsg;

    open spec fn view(&self) -> SpecAuthMsg {
        match self {
            AuthMsg::AuthOk => SpecAuthMsg::AuthOk,
            AuthMsg::Kerberos => SpecAuthMsg::Kerberos,
            AuthMsg::Cleartext => SpecAuthMsg::Cleartext,
            AuthMsg::Md5(salt) => SpecAuthMsg::Md5(salt@),
            AuthMsg::ScmCredential => SpecAuthMsg::ScmCredential,
            AuthMsg::Gss => SpecAuthMsg::Gss,
            AuthMsg::Sspi => SpecAuthMsg::Sspi,
            AuthMsg::GssContinue(data) => SpecAuthMsg::GssContinue(data@),
            AuthMsg::Unknown(code) => SpecAuthMsg::Unknown(*code),
        }
    }
}

/// One decoded backend message.
#[derive(Clone, Debug, PartialEq, Eq)]
pub enum ServerMsg {
    ErrorResponse(NoticeBody),
    NoticeResponse(NoticeBody),
    Auth(AuthMsg),
    /// Carries the transaction status byte (`I`, `T` or `E`).
    ReadyForQuery(u8),
    CommandComplete(String),
    ParamStatus(String, String),
    BackendKeyData(u32, u32),
    RowDescription(Vec<FieldDescription>),
    /// Each column is NULL (wire length `-1`) or a byte string.
    DataRow(Vec<Option<Vec<u8>>>),
    ParseComplete,
    BindComplete,
    CloseComplete,
    NoData,
    PortalSuspended,
    EmptyQueryResponse,
    /// Any other identifier is accepted and skipped, not an error.
    Unknown(u8, Vec<u8>),
}

/// Ghost counterpart of [`ServerMsg`].
pub enum SpecServerMsg {
    ErrorResponse(SpecNoticeBody),
    NoticeResponse(SpecNoticeBody),
    Auth(SpecAuthMsg),
    ReadyForQuery(u8),
    CommandComplete(Seq<char>),
    ParamStatus(Seq<char>, Seq<char>),
    BackendKeyData(u32, u32),
    RowDescription(Seq<SpecFieldDescription>),
    DataRow(Seq<Option<Seq<u8>>>),
    ParseComplete,
    BindComplete,
    CloseComplete,
    NoData,
    PortalSuspended,
    EmptyQueryResponse,
    Unknown(u8, Seq<u8>),
}

impl View for ServerMsg {
    type V = SpecServerMsg;

    open spec fn view(&self) -> SpecServerMsg {
        match self {
            ServerMsg::ErrorResponse(nb) => SpecServerMsg::ErrorResponse(nb@),
            ServerMsg::NoticeResponse(nb) => SpecServerMsg::NoticeResponse(nb@),
            ServerMsg::Auth(a) => SpecServerMsg::Auth(a@),
            ServerMsg::ReadyForQuery(t) => SpecServerMsg::ReadyForQuery(*t),
            ServerMsg::CommandComplete(tag) => SpecServerMsg::CommandComplete(tag@),
            ServerMsg::ParamStatus(n, v) => SpecServerMsg::ParamStatus(n@, v@),
            ServerMsg::BackendKeyData(pid, key) => SpecServerMsg::BackendKeyData(*pid, *key),
            ServerMsg::RowDescription(fs) => SpecServerMsg::RowDescription(
                Seq::new(fs@.len(), |i: int| fs@[i]@),
            ),
            ServerMsg::DataRow(cols) => SpecServerMsg::DataRow(
                Seq::new(
                    cols@.len(),
                    |i: int| match cols@[i] {
                        Some(v) => Some(v@),
                        None => None,
                    },
                ),
            ),
            ServerMsg::ParseComplete => SpecServerMsg::ParseComplete,
            ServerMsg::BindComplete => SpecServerMsg::BindComplete,
            ServerMsg::CloseComplete => SpecServerMsg::CloseComplete,
            ServerMsg::NoData => SpecServerMsg::NoData,
            ServerMsg::PortalSuspended => SpecServerMsg::PortalSuspended,
            ServerMsg::EmptyQueryResponse => SpecServerMsg::EmptyQueryResponse,
            ServerMsg::Unknown(id, body) => SpecServerMsg::Unknown(*id, body@),
        }
    }
}

/// Total length of the frame at the head of the input, as declared by its
/// length field (which counts itself but not the identifier byte).
pub open spec fn spec_frame_len(input: Seq<u8>) -> int
    recommends
        input.len() >= 5,
{
    1 + be_u32(input.subrange(1, 5))
}

/// One well-formed frame: identifier, length, and exactly as many bytes as
/// the length field declares.
pub open spec fn spec_is_frame(s: Seq<u8>) -> bool {
    s.len() >= 5 && s.len() == spec_frame_len(s)
}

/// The framer: the first complete frame and the remainder, or nothing when
/// fewer than `5 + body` bytes are present.
pub open spec fn spec_take_msg(input: Seq<u8>) -> Option<(Seq<u8>, Seq<u8>)> {
    if input.len() < 5 {
        None
    } else if input.len() < spec_frame_len(input) {
        None
    } else {
        Some((input.take(spec_frame_len(input)), input.skip(spec_frame_len(input))))
    }
}

/// Splits the next complete frame off an append-only read buffer, without
/// copying and without consuming a partial frame.
pub fn take_msg<'a>(input: &'a [u8]) -> (r: Result<(&'a [u8], &'a [u8]), ProtocolError>)
    ensures
        match r {
            Ok((frame, rest)) => {
                &&& spec_take_msg(input@) == Some((frame@, rest@))
                &&& input@ == frame@ + rest@
                &&& frame@.len() == spec_frame_len(input@)
                &&& spec_frame_len(input@) >= 5 ==> spec_is_frame(frame@)
            },
            Err(e) => e == ProtocolError::Truncated && spec_take_msg(input@) is None,
        },
{
    if input.len() < 5 {
        return Err(ProtocolError::Truncated);
    }
    let len_bytes = slice_subrange(input, 1, 5);
    proof {
        assert(len_bytes@ == input@.subrange(1, 5));
    }
    let body_len = slice_to_u32(len_bytes);
    if (body_len as usize) > input.len() - 1 {
        return Err(ProtocolError::Truncated);
    }
    let total = 1 + body_len as usize;
    let frame = slice_subrange(input, 0, total);
    let rest = slice_subrange(input, total, input.len());
    proof {
        assert(input@ =~= frame@ + rest@);
        if total >= 5 {
            assert(frame@.subrange(1, 5) =~= input@.subrange(1, 5));
        }
    }
    Ok((frame, rest))
}

/// Encoding a message and framing the result agree: the frame built from
/// an identifier and a body is one well-formed frame, its identifier and
/// length field match the body, and the framer splits it back off whole.
pub proof fn lemma_encode_then_frame(id: u8, body: Seq<u8>)
    requires
        body.len() + 4 <= u32::MAX,
    ensures
        ({
            let frame = crate::message::spec_frame(Some(id), body);
            &&& spec_is_frame(frame)
            &&& frame.len() == 5 + body.len()
            &&& frame[0] == id
            &&& be_u32(frame.subrange(1, 5)) == body.len() + 4
            &&& frame.skip(5) == body
            &&& spec_take_msg(frame) == Some((frame, Seq::<u8>::empty()))
        }),
{
    let frame = crate::message::spec_frame(Some(id), body);
    crate::wire::lemma_be_u32_roundtrip(body.len() + 4 as int);
    assert(frame.subrange(1, 5) =~= crate::wire::u32_be(body.len() + 4 as int));
    assert(frame.skip(5) =~= body);
    assert(frame.take(frame.len() as int) =~= frame);
    assert(frame.skip(frame.len() as int) =~= Seq::<u8>::empty());
}

/// Round-trip for every identifier-carrying frontend message: the bytes
/// its encoder emits form a single frame that the framer splits back off
/// whole, with the identifier and length field agreeing with the body.
pub proof fn lemma_frontend_round_trip<M: crate::message::Message>(m: &M)
    requires
        m.spec_body().len() + 4 <= u32::MAX,
        m.spec_id() is Some,
    ensures
        ({
            let frame = crate::message::spec_frame(m.spec_id(), m.spec_body());
            &&& spec_is_frame(frame)
            &&& frame[0] == m.spec_id()->Some_0
            &&& be_u32(frame.subrange(1, 5)) == m.spec_body().len() + 4
            &&& frame.skip(5) == m.spec_body()
            &&& spec_take_msg(frame) == Some((frame, Seq::<u8>::empty()))
        }),
{
    lemma_encode_then_frame(m.spec_id()->Some_0, m.spec_body());
}

/// The identifier-less startup frame: its leading length field counts the
/// whole frame, and the rest is the body.
pub proof fn lemma_startup_frame(body: Seq<u8>)
    requires
        body.len() + 4 <= u32::MAX,
    ensures
        ({
            let frame = crate::message::spec_frame(None, body);
            &&& frame.len() == 4 + body.len()
            &&& be_u32(frame.take(4)) == frame.len()
            &&& frame.skip(4) == body
        }),
{
    let frame = crate::message::spec_frame(None, body);
    crate::wire::lemma_be_u32_roundtrip(body.len() + 4 as int);
    assert(frame.take(4) =~= crate::wire::u32_be(body.len() + 4 as int));
    assert(frame.skip(4) =~= body);
}

/// Concatenation of a list of frames.
pub open spec fn spec_frames_concat(fs: Seq<Seq<u8>>) -> Seq<u8>
    decreases fs.len(),
{
    if fs.len() == 0 {
        Seq::empty()
    } else {
        fs[0] + spec_frames_concat(fs.drop_first())
    }
}

/// Every element is a well-formed frame.
pub open spec fn spec_all_frames(fs: Seq<Seq<u8>>) -> bool {
    forall|i: int| 0 <= i < fs.len() ==> spec_is_frame(#[trigger] fs[i])
}

/// The framer never consumes a partial frame: a whole frame followed by
/// anything splits exactly at the frame boundary.
pub proof fn lemma_framer_splits_at_frame(f: Seq<u8>, rest: Seq<u8>)
    requires
        spec_is_frame(f),
    ensures
        spec_take_msg(f + rest) == Some((f, rest)),
{
    let w = f + rest;
    assert(w.subrange(1, 5) =~= f.subrange(1, 5));
    assert(w.take(f.len() as int) =~= f);
    assert(w.skip(f.len() as int) =~= rest);
}

/// Framer totality: on any prefix of a concatenation of well-formed
/// frames, the framer either reports that more input is needed (exactly
/// when the first frame is incomplete) or splits off the first frame
/// whole, never consuming bytes beyond its boundary.
pub proof fn lemma_framer_totality(fs: Seq<Seq<u8>>, n: int)
    requires
        spec_all_frames(fs),
        0 <= n <= spec_frames_concat(fs).len(),
    ensures
        ({
            let p = spec_frames_concat(fs).take(n);
            match spec_take_msg(p) {
                Some((frame, rest)) => {
                    &&& fs.len() > 0
                    &&& n >= fs[0].len()
                    &&& frame == fs[0]
                    &&& rest == p.skip(fs[0].len() as int)
                },
                None => fs.len() == 0 || n < fs[0].len(),
            }
        }),
{
    let w = spec_frames_concat(fs);
    let p = w.take(n);
    if fs.len() == 0 {
        assert(p =~= Seq::<u8>::empty());
    } else {
        let f0 = fs[0];
        assert(spec_is_frame(f0));
        assert(w == f0 + spec_frames_concat(fs.drop_first()));
        if n < 5 {
            assert(p.len() < 5);
        } else {
            assert(p.subrange(1, 5) =~= f0.subrange(1, 5));
            assert(spec_frame_len(p) == f0.len());
            if n >= f0.len() {
                assert(p.take(f0.len() as int) =~= f0);
            }
        }
    }
}

/// Decodes the authentication sub-kind from the body of an `R` message.
pub open spec fn spec_decode_auth(body: Seq<u8>) -> Result<SpecAuthMsg, ProtocolError> {
    if body.len() < 4 {
        Err(ProtocolError::Invalid(ID_AUTH))
    } else {
        let code = be_u32(body.take(4));
        if code == 0 {
            if body.len() == 4 {
                Ok(SpecAuthMsg::AuthOk)
            } else {
                Err(ProtocolError::Invalid(ID_AUTH))
            }
        } else if code == 2 {
            if body.len() == 4 {
                Ok(SpecAuthMsg::Kerberos)
            } else {
                Err(ProtocolError::Invalid(ID_AUTH))
            }
        } else if code == 3 {
            if body.len() == 4 {
                Ok(SpecAuthMsg::Cleartext)
            } else {
                Err(ProtocolError::Invalid(ID_AUTH))
            }
        } else if code == 5 {
            if body.len() == 8 {
                Ok(SpecAuthMsg::Md5(body.skip(4)))
            } else {
                Err(ProtocolError::Invalid(ID_AUTH))
            }
        } else if code == 6 {
            if body.len() == 4 {
                Ok(SpecAuthMsg::ScmCredential)
            } else {
                Err(ProtocolError::Invalid(ID_AUTH))
            }
        } else if code == 7 {
            if body.len() == 4 {
                Ok(SpecAuthMsg::Gss)
            } else {
                Err(ProtocolError::Invalid(ID_AUTH))
            }
        } else if code == 8 {
            Ok(SpecAuthMsg::GssContinue(body.skip(4)))
        } else if code == 9 {
            if body.len() == 4 {
                Ok(SpecAuthMsg::Sspi)
            } else {
                Err(ProtocolError::Invalid(ID_AUTH))
            }
        } else if code == 1 || code == 4 || (10 <= code && code <= 255) {
            Ok(SpecAuthMsg::Unknown(code as u32))
        } else {
            Err(ProtocolError::Invalid(ID_AUTH))
        }
    }
}

/// Builds one field description from its name and its 18 fixed bytes;
/// the format code must decode to 0 or 1.
pub open spec fn spec_field_of(name: Seq<char>, fixed: Seq<u8>) -> Result<
    SpecFieldDescription,
    ProtocolError,
>
    recommends
        fixed.len() == 18,
{
    let fmt = be_u16(fixed.subrange(16, 18));
    if fmt == 0 || fmt == 1 {
        Ok(
            SpecFieldDescription {
                field_name: name,
                table_oid: be_u32(fixed.subrange(0, 4)) as u32,
                column_attr: be_u16(fixed.subrange(4, 6)) as u16,
                type_oid: be_u32(fixed.subrange(6, 10)) as u32,
                type_size: be_i16(fixed.subrange(10, 12)) as i16,
                type_modifier: be_i32(fixed.subrange(12, 16)) as i32,
                format: if fmt == 0 {
                    FieldFormat::Text
                } else {
                    FieldFormat::Binary
                },
            },
        )
    } else {
        Err(ProtocolError::Invalid(ID_ROW_DESCRIPTION))
    }
}

/// Parses one field description off the head of the input.
pub open spec fn spec_take_field(b: Seq<u8>) -> Result<
    (SpecFieldDescription, Seq<u8>),
    ProtocolError,
> {
    match spec_take_cstring_plus_fixed(b, 18) {
        None => Err(ProtocolError::Invalid(ID_ROW_DESCRIPTION)),
        Some((nb, fixed, rest)) => if !valid_utf8(nb) {
            Err(ProtocolError::Utf8)
        } else {
            match spec_field_of(decode_utf8(nb), fixed) {
                Err(e) => Err(e),
                Ok(f) => Ok((f, rest)),
            }
        },
    }
}

/// Parses `n` field descriptions in sequence.
pub open spec fn spec_parse_fields(b: Seq<u8>, n: int) -> Result<
    (Seq<SpecFieldDescription>, Seq<u8>),
    ProtocolError,
>
    decreases n,
{
    if n <= 0 {
        Ok((Seq::empty(), b))
    } else {
        match spec_take_field(b) {
            Err(e) => Err(e),
            Ok((f, r)) => match spec_parse_fields(r, n - 1) {
                Err(e) => Err(e),
                Ok((fs, rr)) => Ok((seq![f] + fs, rr)),
            },
        }
    }
}

/// Parses `n` length-prefixed columns in sequence.
pub open spec fn spec_parse_cols(b: Seq<u8>, n: int) -> Result<
    (Seq<Option<Seq<u8>>>, Seq<u8>),
    ProtocolError,
>
    decreases n,
{
    if n <= 0 {
        Ok((Seq::empty(), b))
    } else {
        match spec_take_sized(b) {
            None => Err(ProtocolError::Invalid(ID_DATA_ROW)),
            Some((v, r)) => match spec_parse_cols(r, n - 1) {
                Err(e) => Err(e),
                Ok((vs, rr)) => Ok((seq![v] + vs, rr)),
            },
        }
    }
}

/// Decodes the body of each message kind; the body must be consumed
/// exactly, and any other identifier is kept opaque, not rejected.
pub open spec fn spec_decode_body(id: u8, body: Seq<u8>) -> Result<
    SpecServerMsg,
    ProtocolError,
> {
    if id == ID_AUTH {
        match spec_decode_auth(body) {
            Err(e) => Err(e),
            Ok(a) => Ok(SpecServerMsg::Auth(a)),
        }
    } else if id == ID_PARAM_STATUS {
        match spec_take_cstring(body) {
            None => Err(ProtocolError::Invalid(id)),
            Some((nb, r1)) => if !valid_utf8(nb) {
                Err(ProtocolError::Utf8)
            } else {
                match spec_take_cstring(r1) {
                    None => Err(ProtocolError::Invalid(id)),
                    Some((vb, r2)) => if !valid_utf8(vb) {
                        Err(ProtocolError::Utf8)
                    } else if r2.len() != 0 {
                        Err(ProtocolError::Invalid(id))
                    } else {
                        Ok(SpecServerMsg::ParamStatus(decode_utf8(nb), decode_utf8(vb)))
                    },
                }
            },
        }
    } else if id == ID_BACKEND_KEY {
        if body.len() == 8 {
            Ok(
                SpecServerMsg::BackendKeyData(
                    be_u32(body.take(4)) as u32,
                    be_u32(body.skip(4)) as u32,
                ),
            )
        } else {
            Err(ProtocolError::Invalid(id))
        }
    } else if id == ID_ROW_DESCRIPTION {
        if body.len() < 2 {
            Err(ProtocolError::Invalid(id))
        } else {
            match spec_parse_fields(body.skip(2), be_u16(body.take(2))) {
                Err(e) => Err(e),
                Ok((fs, rest)) => if rest.len() == 0 {
                    Ok(SpecServerMsg::RowDescription(fs))
                } else {
                    Err(ProtocolError::Invalid(id))
                },
            }
        }
    } else if id == ID_DATA_ROW {
        if body.len() < 2 {
            Err(ProtocolError::Invalid(id))
        } else {
            match spec_parse_cols(body.skip(2), be_u16(body.take(2))) {
                Err(e) => Err(e),
                Ok((vs, rest)) => if rest.len() == 0 {
                    Ok(SpecServerMsg::DataRow(vs))
                } else {
                    Err(ProtocolError::Invalid(id))
                },
            }
        }
    } else if id == ID_COMMAND_COMPLETE {
        match spec_take_cstring(body) {
            None => Err(ProtocolError::Invalid(id)),
            Some((tb, rest)) => if !valid_utf8(tb) {
                Err(ProtocolError::Utf8)
            } else if rest.len() != 0 {
                Err(ProtocolError::Invalid(id))
            } else {
                Ok(SpecServerMsg::CommandComplete(decode_utf8(tb)))
            },
        }
    } else if id == ID_READY_FOR_QUERY {
        if body.len() == 1 {
            Ok(SpecServerMsg::ReadyForQuery(body[0]))
        } else {
            Err(ProtocolError::Invalid(id))
        }
    } else if id == ID_ERROR_RESPONSE {
        match spec_parse_notice(body, id) {
            Err(e) => Err(e),
            Ok(nb) => Ok(SpecServerMsg::ErrorResponse(nb)),
        }
    } else if id == ID_NOTICE_RESPONSE {
        match spec_parse_notice(body, id) {
            Err(e) => Err(e),
            Ok(nb) => Ok(SpecServerMsg::NoticeResponse(nb)),
        }
    } else if id == ID_PARSE_COMPLETE {
        if body.len() == 0 {
            Ok(SpecServerMsg::ParseComplete)
        } else {
            Err(ProtocolError::Invalid(id))
        }
    } else if id == ID_BIND_COMPLETE {
        if body.len() == 0 {
            Ok(SpecServerMsg::BindComplete)
        } else {
            Err(ProtocolError::Invalid(id))
        }
    } else if id == ID_CLOSE_COMPLETE {
        if body.len() == 0 {
            Ok(SpecServerMsg::CloseComplete)
        } else {
            Err(ProtocolError::Invalid(id))
        }
    } else if id == ID_NO_DATA {
        if body.len() == 0 {
            Ok(SpecServerMsg::NoData)
        } else {
            Err(ProtocolError::Invalid(id))
        }
    } else if id == ID_PORTAL_SUSPENDED {
        if body.len() == 0 {
            Ok(SpecServerMsg::PortalSuspended)
        } else {
            Err(ProtocolError::Invalid(id))
        }
    } else if id == ID_EMPTY_QUERY {
        if body.len() == 0 {
            Ok(SpecServerMsg::EmptyQueryResponse)
        } else {
            Err(ProtocolError::Invalid(id))
        }
    } else {
        Ok(SpecServerMsg::Unknown(id, body))
    }
}

/// Decodes one complete frame: the length field must agree with the frame,
/// and the body must match its identifier's layout exactly.
pub open spec fn spec_decode(msg: Seq<u8>) -> Result<SpecServerMsg, ProtocolError> {
    if msg.len() < 5 {
        Err(ProtocolError::Truncated)
    } else if msg.len() != spec_frame_len(msg) {
        Err(ProtocolError::Invalid(msg[0]))
    } else {
        spec_decode_body(msg[0], msg.skip(5))
    }
}

/// A fully parsed field list is unchanged by appending a byte, which
/// lands in the remainder.
proof fn lemma_parse_fields_extend(b: Seq<u8>, n: int, x: u8)
    requires
        spec_parse_fields(b, n) is Ok,
    ensures
        ({
            let (fs, rest) = spec_parse_fields(b, n)->Ok_0;
            spec_parse_fields(b.push(x), n) == Ok::<
                (Seq<SpecFieldDescription>, Seq<u8>),
                ProtocolError,
            >((fs, rest.push(x)))
        }),
    decreases n,
{
    if n > 0 {
        let (f, r) = spec_take_field(b)->Ok_0;
        crate::wire::lemma_take_cstring_fixed_extend(b, 18, x);
        lemma_parse_fields_extend(r, n - 1, x);
    }
}

/// A field list that consumed its input exactly cannot be parsed from the
/// input less its final byte.
proof fn lemma_parse_fields_shrink(b: Seq<u8>, n: int)
    requires
        n > 0,
        spec_parse_fields(b, n) is Ok,
        spec_parse_fields(b, n)->Ok_0.1.len() == 0,
    ensures
        spec_parse_fields(b.drop_last(), n) == Err::<
            (Seq<SpecFieldDescription>, Seq<u8>),
            ProtocolError,
        >(ProtocolError::Invalid(ID_ROW_DESCRIPTION)),
    decreases n,
{
    let (f, r) = spec_take_field(b)->Ok_0;
    crate::wire::lemma_take_cstring_fixed_shrink(b, 18);
    if n == 1 {
        assert(r.len() == 0);
    } else {
        assert(spec_parse_fields(r, n - 1) is Ok);
        assert(spec_take_field(r) is Ok);
        crate::wire::lemma_find_nul_props(r);
        assert(r.len() > 0);
        lemma_parse_fields_shrink(r, n - 1);
    }
}

/// A fully parsed column list is unchanged by appending a byte, which
/// lands in the remainder.
proof fn lemma_parse_cols_extend(b: Seq<u8>, n: int, x: u8)
    requires
        spec_parse_cols(b, n) is Ok,
    ensures
        ({
            let (vs, rest) = spec_parse_cols(b, n)->Ok_0;
            spec_parse_cols(b.push(x), n) == Ok::<
                (Seq<Option<Seq<u8>>>, Seq<u8>),
                ProtocolError,
            >((vs, rest.push(x)))
        }),
    decreases n,
{
    if n > 0 {
        let (v, r) = spec_take_sized(b)->Some_0;
        crate::wire::lemma_take_sized_extend(b, x);
        lemma_parse_cols_extend(r, n - 1, x);
    }
}

/// A column list that consumed its input exactly cannot be parsed from
/// the input less its final byte.
proof fn lemma_parse_cols_shrink(b: Seq<u8>, n: int)
    requires
        n > 0,
        spec_parse_cols(b, n) is Ok,
        spec_parse_cols(b, n)->Ok_0.1.len() == 0,
    ensures
        spec_parse_cols(b.drop_last(), n) == Err::<
            (Seq<Option<Seq<u8>>>, Seq<u8>),
            ProtocolError,
        >(ProtocolError::Invalid(ID_DATA_ROW)),
    decreases n,
{
    let (v, r) = spec_take_sized(b)->Some_0;
    crate::wire::lemma_take_sized_shrink(b);
    if n == 1 {
        assert(r.len() == 0);
    } else {
        assert(spec_parse_cols(r, n - 1) is Ok);
        assert(spec_take_sized(r) is Some);
        assert(r.len() >= 4);
        lemma_parse_cols_shrink(r, n - 1);
    }
}

/// True of the messages whose body length is pinned down exactly by their
/// content: every known kind except the authentication sub-kinds with an
/// opaque trailer, and unknown identifiers, which are accepted whole.
pub open spec fn spec_exact_length_msg(m: &SpecServerMsg) -> bool {
    match m {
        SpecServerMsg::Unknown(_, _) => false,
        SpecServerMsg::Auth(SpecAuthMsg::GssContinue(_)) => false,
        SpecServerMsg::Auth(SpecAuthMsg::Unknown(_)) => false,
        _ => true,
    }
}

/// Decoder exhaustiveness: a body that decodes to an exact-length message
/// never decodes after its length is changed by one byte in either
/// direction; the decoder reports the identifier as invalid instead.
pub proof fn lemma_decoder_exhaustive(id: u8, body: Seq<u8>, x: u8)
    requires
        spec_decode_body(id, body) is Ok,
        spec_exact_length_msg(&spec_decode_body(id, body)->Ok_0),
    ensures
        spec_decode_body(id, body.push(x)) == Err::<SpecServerMsg, ProtocolError>(
            ProtocolError::Invalid(id),
        ),
        body.len() > 0 ==> spec_decode_body(id, body.drop_last()) == Err::<
            SpecServerMsg,
            ProtocolError,
        >(ProtocolError::Invalid(id)),
{
    let bx = body.push(x);
    if id == ID_AUTH {
        assert(bx.take(4) =~= body.take(4));
        if body.len() > 4 {
            assert(body.drop_last().take(4) =~= body.take(4));
        }
    } else if id == ID_PARAM_STATUS {
        let (nb, r1) = spec_take_cstring(body)->Some_0;
        let (vb, r2) = spec_take_cstring(r1)->Some_0;
        crate::wire::lemma_take_cstring_fixed_extend(body, 0, x);
        crate::wire::lemma_take_cstring_fixed_extend(r1, 0, x);
        crate::wire::lemma_find_nul_props(body);
        crate::wire::lemma_find_nul_props(r1);
        assert(r1.len() > 0);
        crate::wire::lemma_take_cstring_fixed_shrink(body, 0);
        crate::wire::lemma_take_cstring_fixed_shrink(r1, 0);
    } else if id == ID_BACKEND_KEY {
        assert(body.len() == 8);
    } else if id == ID_ROW_DESCRIPTION || id == ID_DATA_ROW {
        assert(bx.take(2) =~= body.take(2));
        assert(bx.skip(2) =~= body.skip(2).push(x));
        let n = be_u16(body.take(2));
        if id == ID_ROW_DESCRIPTION {
            lemma_parse_fields_extend(body.skip(2), n, x);
        } else {
            lemma_parse_cols_extend(body.skip(2), n, x);
        }
        if body.len() > 2 {
            assert(body.drop_last().take(2) =~= body.take(2));
            assert(body.drop_last().skip(2) =~= body.skip(2).drop_last());
            assert(n > 0) by {
                if n <= 0 {
                    assert(body.skip(2).len() == 0);
                }
            }
            if id == ID_ROW_DESCRIPTION {
                lemma_parse_fields_shrink(body.skip(2), n);
            } else {
                lemma_parse_cols_shrink(body.skip(2), n);
            }
        } else {
            assert(body.len() == 2);
            assert(body.drop_last().len() < 2);
        }
    } else if id == ID_COMMAND_COMPLETE {
        let (tb, rest) = spec_take_cstring(body)->Some_0;
        crate::wire::lemma_take_cstring_fixed_extend(body, 0, x);
        crate::wire::lemma_take_cstring_fixed_shrink(body, 0);
        crate::wire::lemma_find_nul_props(body);
    } else if id == ID_READY_FOR_QUERY {
        assert(body.len() == 1);
    } else if id == ID_ERROR_RESPONSE || id == ID_NOTICE_RESPONSE {
        assert(crate::notice::spec_notice_fields(body, id) is Ok);
        crate::notice::lemma_notice_fields_extend(body, id, x);
        crate::notice::lemma_notice_fields_shrink(body, id);
        crate::wire::lemma_find_nul_props(body);
        assert(body.len() > 0);
    } else {
        // the six bodiless kinds: the body must be empty, so only the
        // appended byte matters
        assert(body.len() == 0);
        assert(bx.len() == 1);
    }
}

impl AuthMsg {
    /// Decodes the body of an authentication request. The first four bytes
    /// select the sub-kind; known fixed-size sub-kinds must have exact
    /// bodies, while unknown codes are kept for forward compatibility.
    pub fn from_slice(extra: &[u8]) -> (r: Result<AuthMsg, ProtocolError>)
        ensures
            match r {
                Ok(m) => spec_decode_auth(extra@) == Ok::<SpecAuthMsg, ProtocolError>(m@),
                Err(e) => spec_decode_auth(extra@) == Err::<SpecAuthMsg, ProtocolError>(e),
            },
    {
        if extra.len() < 4 {
            return Err(ProtocolError::Invalid(ID_AUTH));
        }
        let code_bytes = slice_subrange(extra, 0, 4);
        proof {
            assert(code_bytes@ == extra@.take(4));
        }
        let code = slice_to_u32(code_bytes);
        if code == 0 || code == 2 || code == 3 || code == 6 || code == 7 || code == 9 {
            if extra.len() != 4 {
                return Err(ProtocolError::Invalid(ID_AUTH));
            }
            if code == 0 {
                Ok(AuthMsg::AuthOk)
            } else if code == 2 {
                Ok(AuthMsg::Kerberos)
            } else if code == 3 {
                Ok(AuthMsg::Cleartext)
            } else if code == 6 {
                Ok(AuthMsg::ScmCredential)
            } else if code == 7 {
                Ok(AuthMsg::Gss)
            } else {
                Ok(AuthMsg::Sspi)
            }
        } else if code == 5 {
            if extra.len() != 8 {
                return Err(ProtocolError::Invalid(ID_AUTH));
            }
            let salt: [u8; 4] = [extra[4], extra[5], extra[6], extra[7]];
            proof {
                assert(salt@ =~= extra@.skip(4));
            }
            Ok(AuthMsg::Md5(salt))
        } else if code == 8 {
            let data = slice_subrange(extra, 4, extra.len());
            let data_vec = slice_to_vec(data);
            proof {
                assert(data_vec@ =~= extra@.skip(4));
            }
            Ok(AuthMsg::GssContinue(data_vec))
        } else if code == 1 || code == 4 || code <= 255 {
            Ok(AuthMsg::Unknown(code))
        } else {
            Err(ProtocolError::Invalid(ID_AUTH))
        }
    }
}

impl FieldDescription {
    /// Splits one field description into its name, its 18 fixed bytes, and
    /// the remainder of the input.
    pub fn take_field<'a>(input: &'a [u8]) -> (r: Result<
        (&'a str, &'a [u8], &'a [u8]),
        ProtocolError,
    >)
        ensures
            match r {
                Ok((s, f, rest)) => {
                    &&& spec_take_cstring_plus_fixed(input@, 18) == Some(
                        (s.spec_bytes(), f@, rest@),
                    )
                    &&& valid_utf8(s.spec_bytes())
                    &&& s@ == decode_utf8(s.spec_bytes())
                    &&& f@.len() == 18
                },
                Err(ProtocolError::Truncated) => spec_take_cstring_plus_fixed(input@, 18)
                    is None,
                Err(ProtocolError::Utf8) => {
                    &&& spec_take_cstring_plus_fixed(input@, 18) matches Some((sb, _, _))
                        && !valid_utf8(sb)
                },
                Err(_) => false,
            },
    {
        let r = take_cstring_plus_fixed(input, 18);
        proof {
            crate::wire::lemma_find_nul_props(input@);
        }
        r
    }

    /// Builds one field description from a name and its fixed bytes.
    pub fn new(name: &str, fixed_data: &[u8]) -> (r: Result<FieldDescription, ProtocolError>)
        requires
            fixed_data@.len() == 18,
        ensures
            match r {
                Ok(fd) => spec_field_of(name@, fixed_data@) == Ok::<
                    SpecFieldDescription,
                    ProtocolError,
                >(fd@),
                Err(e) => spec_field_of(name@, fixed_data@) == Err::<
                    SpecFieldDescription,
                    ProtocolError,
                >(e),
            },
    {
        let fmt_bytes = slice_subrange(fixed_data, 16, 18);
        let fmt = slice_to_u16(fmt_bytes);
        if fmt != 0 && fmt != 1 {
            return Err(ProtocolError::Invalid(ID_ROW_DESCRIPTION));
        }
        let oid_bytes = slice_subrange(fixed_data, 0, 4);
        let attr_bytes = slice_subrange(fixed_data, 4, 6);
        let type_bytes = slice_subrange(fixed_data, 6, 10);
        let size_bytes = slice_subrange(fixed_data, 10, 12);
        let modifier_bytes = slice_subrange(fixed_data, 12, 16);
        Ok(
            FieldDescription {
                field_name: name.to_owned(),
                table_oid: slice_to_u32(oid_bytes),
                column_attr: slice_to_u16(attr_bytes),
                type_oid: slice_to_u32(type_bytes),
                type_size: crate::wire::slice_to_i16(size_bytes),
                type_modifier: crate::wire::slice_to_i32(modifier_bytes),
                format: if fmt == 0 {
                    FieldFormat::Text
                } else {
                    FieldFormat::Binary
                },
            },
        )
    }
}

impl ServerMsg {
    /// Decodes one complete frame into a backend message. The frame's
    /// length field must agree with the slice, and each message kind's body
    /// must match its layout exactly; unrecognized identifiers are accepted
    /// as [`ServerMsg::Unknown`].
    pub fn from_slice(message: &[u8]) -> (r: Result<ServerMsg, ProtocolError>)
        ensures
            match r {
                Ok(m) => spec_decode(message@) == Ok::<SpecServerMsg, ProtocolError>(m@),
                Err(e) => spec_decode(message@) == Err::<SpecServerMsg, ProtocolError>(e),
            },
    {
        if message.len() < 5 {
            return Err(ProtocolError::Truncated);
        }
        let identifier = message[0];
        let len_bytes = slice_subrange(message, 1, 5);
        proof {
            assert(len_bytes@ == message@.subrange(1, 5));
        }
        let declared = slice_to_u32(len_bytes);
        if (declared as usize) != message.len() - 1 {
            return Err(ProtocolError::Invalid(identifier));
        }
        let extra = slice_subrange(message, 5, message.len());
        proof {
            assert(extra@ == message@.skip(5));
        }
        if identifier == ID_AUTH {
            match AuthMsg::from_slice(extra) {
                Ok(a) => Ok(ServerMsg::Auth(a)),
                Err(e) => Err(e),
            }
        } else if identifier == ID_PARAM_STATUS {
            let (name, rest) = match take_cstring(extra) {
                Ok(p) => p,
                Err(ProtocolError::Utf8) => {
                    return Err(ProtocolError::Utf8);
                },
                Err(_) => {
                    return Err(ProtocolError::Invalid(identifier));
                },
            };
            let (value, rest2) = match take_cstring(rest) {
                Ok(p) => p,
                Err(ProtocolError::Utf8) => {
                    return Err(ProtocolError::Utf8);
                },
                Err(_) => {
                    return Err(ProtocolError::Invalid(identifier));
                },
            };
            if rest2.len() != 0 {
                return Err(ProtocolError::Invalid(identifier));
            }
            Ok(ServerMsg::ParamStatus(name.to_owned(), value.to_owned()))
        } else if identifier == ID_BACKEND_KEY {
            if extra.len() != 8 {
                return Err(ProtocolError::Invalid(identifier));
            }
            let pid_bytes = slice_subrange(extra, 0, 4);
            let key_bytes = slice_subrange(extra, 4, 8);
            proof {
                assert(pid_bytes@ == extra@.take(4));
                assert(key_bytes@ =~= extra@.skip(4));
            }
            Ok(ServerMsg::BackendKeyData(slice_to_u32(pid_bytes), slice_to_u32(key_bytes)))
        } else if identifier == ID_ROW_DESCRIPTION {
            Self::decode_row_description(extra)
        } else if identifier == ID_DATA_ROW {
            Self::decode_data_row(extra)
        } else if identifier == ID_COMMAND_COMPLETE {
            let (tag, rest) = match take_cstring(extra) {
                Ok(p) => p,
                Err(ProtocolError::Utf8) => {
                    return Err(ProtocolError::Utf8);
                },
                Err(_) => {
                    return Err(ProtocolError::Invalid(identifier));
                },
            };
            if rest.len() != 0 {
                return Err(ProtocolError::Invalid(identifier));
            }
            Ok(ServerMsg::CommandComplete(tag.to_owned()))
        } else if identifier == ID_READY_FOR_QUERY {
            if extra.len() != 1 {
                return Err(ProtocolError::Invalid(identifier));
            }
            Ok(ServerMsg::ReadyForQuery(extra[0]))
        } else if identifier == ID_ERROR_RESPONSE {
            match NoticeBody::from_bytes(extra, identifier) {
                Ok(nb) => Ok(ServerMsg::ErrorResponse(nb)),
                Err(e) => Err(e),
            }
        } else if identifier == ID_NOTICE_RESPONSE {
            match NoticeBody::from_bytes(extra, identifier) {
                Ok(nb) => Ok(ServerMsg::NoticeResponse(nb)),
                Err(e) => Err(e),
            }
        } else if identifier == ID_PARSE_COMPLETE || identifier == ID_BIND_COMPLETE
            || identifier == ID_CLOSE_COMPLETE || identifier == ID_NO_DATA
            || identifier == ID_PORTAL_SUSPENDED || identifier == ID_EMPTY_QUERY {
            if extra.len() != 0 {
                return Err(ProtocolError::Invalid(identifier));
            }
            if identifier == ID_PARSE_COMPLETE {
                Ok(ServerMsg::ParseComplete)
            } else if identifier == ID_BIND_COMPLETE {
                Ok(ServerMsg::BindComplete)
            } else if identifier == ID_CLOSE_COMPLETE {
                Ok(ServerMsg::CloseComplete)
            } else if identifier == ID_NO_DATA {
                Ok(ServerMsg::NoData)
            } else if identifier == ID_PORTAL_SUSPENDED {
                Ok(ServerMsg::PortalSuspended)
            } else {
                Ok(ServerMsg::EmptyQueryResponse)
            }
        } else {
            Ok(ServerMsg::Unknown(identifier, slice_to_vec(extra)))
        }
    }

    /// Decodes a `RowDescription` body: a field count then that many field
    /// descriptions, consuming the body exactly.
    fn decode_row_description(extra: &[u8]) -> (r: Result<ServerMsg, ProtocolError>)
        ensures
            match r {
                Ok(m) => spec_decode_body(ID_ROW_DESCRIPTION, extra@) == Ok::<
                    SpecServerMsg,
                    ProtocolError,
                >(m@),
                Err(e) => spec_decode_body(ID_ROW_DESCRIPTION, extra@) == Err::<
                    SpecServerMsg,
                    ProtocolError,
                >(e),
            },
    {
        if extra.len() < 2 {
            return Err(ProtocolError::Invalid(ID_ROW_DESCRIPTION));
        }
        let count_bytes = slice_subrange(extra, 0, 2);
        proof {
            assert(count_bytes@ == extra@.take(2));
        }
        let count = slice_to_u16(count_bytes);
        let ghost body0: Seq<u8> = extra@.skip(2);
        let mut rem: &[u8] = slice_subrange(extra, 2, extra.len());
        proof {
            assert(rem@ =~= body0);
        }
        let mut fields: Vec<FieldDescription> = Vec::new();
        let mut i: u16 = 0;
        proof {
            match spec_parse_fields(body0, count as int) {
                Ok((fs, _rr)) => {
                    assert(Seq::new(fields@.len(), |j: int| fields@[j]@) + fs =~= fs);
                },
                Err(_) => {},
            }
        }
        while i < count
            invariant
                extra@.len() >= 2,
                body0 == extra@.skip(2),
                count as int == be_u16(extra@.take(2)),
                i <= count,
                fields@.len() == i as int,
                spec_parse_fields(body0, count as int) == (match spec_parse_fields(
                    rem@,
                    count as int - i as int,
                ) {
                    Ok((fs, rr)) => Ok::<(Seq<SpecFieldDescription>, Seq<u8>), ProtocolError>(
                        (Seq::new(fields@.len(), |j: int| fields@[j]@) + fs, rr),
                    ),
                    Err(e) => Err(e),
                }),
            decreases count as int - i as int,
        {
            let (name, fixed, rest) = match FieldDescription::take_field(rem) {
                Ok(p) => p,
                Err(ProtocolError::Utf8) => {
                    return Err(ProtocolError::Utf8);
                },
                Err(_) => {
                    return Err(ProtocolError::Invalid(ID_ROW_DESCRIPTION));
                },
            };
            let fd = match FieldDescription::new(name, fixed) {
                Ok(fd) => fd,
                Err(e) => {
                    return Err(e);
                },
            };
            let ghost old_views = Seq::new(fields@.len(), |j: int| fields@[j]@);
            fields.push(fd);
            proof {
                let new_views = Seq::new(fields@.len(), |j: int| fields@[j]@);
                assert(new_views =~= old_views.push(fd@));
                match spec_parse_fields(rest@, count as int - i as int - 1) {
                    Ok((fs, rr)) => {
                        assert(old_views + (seq![fd@] + fs) =~= new_views + fs);
                    },
                    Err(_) => {},
                }
            }
            rem = rest;
            i = i + 1;
        }
        if rem.len() != 0 {
            return Err(ProtocolError::Invalid(ID_ROW_DESCRIPTION));
        }
        proof {
            assert(Seq::new(fields@.len(), |j: int| fields@[j]@)
                + Seq::<SpecFieldDescription>::empty() =~= Seq::new(
                fields@.len(),
                |j: int| fields@[j]@,
            ));
        }
        Ok(ServerMsg::RowDescription(fields))
    }

    /// Decodes a `DataRow` body: a column count then that many
    /// length-prefixed columns, consuming the body exactly.
    fn decode_data_row(extra: &[u8]) -> (r: Result<ServerMsg, ProtocolError>)
        ensures
            match r {
                Ok(m) => spec_decode_body(ID_DATA_ROW, extra@) == Ok::<
                    SpecServerMsg,
                    ProtocolError,
                >(m@),
                Err(e) => spec_decode_body(ID_DATA_ROW, extra@) == Err::<
                    SpecServerMsg,
                    ProtocolError,
                >(e),
            },
    {
        if extra.len() < 2 {
            return Err(ProtocolError::Invalid(ID_DATA_ROW));
        }
        let count_bytes = slice_subrange(extra, 0, 2);
        proof {
            assert(count_bytes@ == extra@.take(2));
        }
        let count = slice_to_u16(count_bytes);
        let ghost body0: Seq<u8> = extra@.skip(2);
        let mut rem: &[u8] = slice_subrange(extra, 2, extra.len());
        proof {
            assert(rem@ =~= body0);
        }
        let mut cols: Vec<Option<Vec<u8>>> = Vec::new();
        let mut i: u16 = 0;
        proof {
            match spec_parse_cols(body0, count as int) {
                Ok((vs, _rr)) => {
                    assert(Seq::new(
                        cols@.len(),
                        |j: int| match cols@[j] {
                            Some(v) => Some(v@),
                            None => None,
                        },
                    ) + vs =~= vs);
                },
                Err(_) => {},
            }
        }
        while i < count
            invariant
                extra@.len() >= 2,
                body0 == extra@.skip(2),
                count as int == be_u16(extra@.take(2)),
                i <= count,
                cols@.len() == i as int,
                spec_parse_cols(body0, count as int) == (match spec_parse_cols(
                    rem@,
                    count as int - i as int,
                ) {
                    Ok((vs, rr)) => Ok::<(Seq<Option<Seq<u8>>>, Seq<u8>), ProtocolError>(
                        (
                            Seq::new(
                                cols@.len(),
                                |j: int| match cols@[j] {
                                    Some(v) => Some(v@),
                                    None => None,
                                },
                            ) + vs,
                            rr,
                        ),
                    ),
                    Err(e) => Err(e),
                }),
            decreases count as int - i as int,
        {
            let (value, rest) = match take_sized_string(rem) {
                Ok(p) => p,
                Err(_) => {
                    return Err(ProtocolError::Invalid(ID_DATA_ROW));
                },
            };
            let col: Option<Vec<u8>> = match value {
                Some(bytes) => Some(slice_to_vec(bytes)),
                None => None,
            };
            let ghost old_views = Seq::new(
                cols@.len(),
                |j: int| match cols@[j] {
                    Some(v) => Some(v@),
                    None => None,
                },
            );
            let ghost col_view: Option<Seq<u8>> = match col {
                Some(ref v) => Some(v@),
                None => None,
            };
            cols.push(col);
            proof {
                let new_views = Seq::new(
                    cols@.len(),
                    |j: int| match cols@[j] {
                        Some(v) => Some(v@),
                        None => None,
                    },
                );
                assert(new_views =~= old_views.push(col_view));
                match spec_parse_cols(rest@, count as int - i as int - 1) {
                    Ok((vs, rr)) => {
                        assert(old_views + (seq![col_view] + vs) =~= new_views + vs);
                    },
                    Err(_) => {},
                }
            }
            rem = rest;
            i = i + 1;
        }
        if rem.len() != 0 {
            return Err(ProtocolError::Invalid(ID_DATA_ROW));
        }
        proof {
            assert(Seq::new(
                cols@.len(),
                |j: int| match cols@[j] {
                    Some(v) => Some(v@),
                    None => None,
                },
            ) + Seq::<Option<Seq<u8>>>::empty() =~= Seq::new(
                cols@.len(),
                |j: int| match cols@[j] {
                    Some(v) => Some(v@),
                    None => None,
                },
            ));
        }
        Ok(ServerMsg::DataRow(cols))
    }
}



} // verus!
