//! Frontend messages: request encoders that emit the identifier byte
//! (where present), the 4-byte big-endian length prefix counting itself,
//! and the message body.

use vstd::prelude::*;
use vstd::utf8::encode_utf8;
use crate::wire::{u16_be, u32_be, push_u16_be, push_u32_be};

verus! {

/// Protocol version word sent in the startup message.
pub const PROTOCOL_VERSION: u32 = 0x0003_0000;

/// Identifier bytes of the frontend messages (ASCII).
pub const FRONT_PASSWORD: u8 = 112;

pub const FRONT_QUERY: u8 = 81;

pub const FRONT_PARSE: u8 = 80;

pub const FRONT_BIND: u8 = 66;

pub const FRONT_EXECUTE: u8 = 69;

pub const FRONT_SYNC: u8 = 83;

pub const FRONT_CLOSE: u8 = 67;

pub const FRONT_TERMINATE: u8 = 88;

/// A NUL-terminated text field: the UTF-8 bytes followed by one zero byte.
pub open spec fn spec_cstr(s: Seq<char>) -> Seq<u8> {
    encode_utf8(s) + seq![0u8]
}

/// A complete wire frame: optional identifier, length prefix (body plus
/// four bytes for the prefix itself), then the body.
pub open spec fn spec_frame(id: Option<u8>, body: Seq<u8>) -> Seq<u8>
    recommends
        body.len() + 4 <= u32::MAX,
{
    (match id {
        Some(i) => seq![i],
        None => Seq::empty(),
    }) + u32_be(body.len() + 4 as int) + body
}

/// A UTF-8 encoding takes at most four bytes per character.
pub proof fn lemma_encode_len_bound(s: Seq<char>)
    ensures
        encode_utf8(s).len() <= 4 * s.len(),
    decreases s.len(),
{
    if s.len() > 0 {
        lemma_encode_len_bound(s.drop_first());
        vstd::utf8::char_is_scalar(s[0]);
    }
}

/// Appends the UTF-8 bytes of `s` and a NUL terminator.
pub fn write_string(buf: &mut Vec<u8>, s: &str)
    ensures
        final(buf)@ == old(buf)@ + spec_cstr(s@),
{
    let bytes = s.as_bytes();
    buf.extend_from_slice(bytes);
    buf.push(0);
    assert(buf@ =~= old(buf)@ + spec_cstr(s@));
}

/// A frontend message: an optional identifier byte and a body, emitted as
/// one frame.
pub trait Message {
    /// The identifier byte, absent only for the startup message.
    spec fn spec_id(&self) -> Option<u8>;

    /// The body bytes this message encodes to.
    spec fn spec_body(&self) -> Seq<u8>;

    /// Machine limits the encoder relies on: every count fits its
    /// fixed-width wire field.
    spec fn wf(&self) -> bool;

    /// The identifier byte.
    fn id(&self) -> (r: Option<u8>)
        ensures
            r == self.spec_id(),
    ;

    /// Appends the body bytes.
    fn write_body(&self, buf: &mut Vec<u8>)
        requires
            self.wf(),
        ensures
            final(buf)@ == old(buf)@ + self.spec_body(),
    ;

    /// The body bytes alone.
    fn get_body(&self) -> (r: Vec<u8>)
        requires
            self.wf(),
        ensures
            r@ == self.spec_body(),
    {
        let mut buf: Vec<u8> = Vec::new();
        self.write_body(&mut buf);
        proof {
            assert(Seq::<u8>::empty() + self.spec_body() =~= self.spec_body());
        }
        buf
    }

    /// The full frame: identifier (if any), length prefix, body.
    fn to_bytes(&self) -> (r: Vec<u8>)
        requires
            self.wf(),
            self.spec_body().len() + 4 <= u32::MAX,
        ensures
            r@ == spec_frame(self.spec_id(), self.spec_body()),
    {
        let mut body = self.get_body();
        let mut bytes: Vec<u8> = Vec::new();
        match self.id() {
            Some(i) => bytes.push(i),
            None => (),
        }
        push_u32_be(&mut bytes, (body.len() + 4) as u32);
        bytes.append(&mut body);
        proof {
            assert(bytes@ =~= spec_frame(self.spec_id(), self.spec_body()));
        }
        bytes
    }
}

/// The handshake opener: protocol version, `user`, optional `database`,
/// extra parameters, and a closing NUL. It carries no identifier byte.
#[derive(Clone, Debug, PartialEq, Eq)]
pub struct StartupMessage {
    pub user: String,
    pub database: Option<String>,
    pub params: Vec<(String, String)>,
}

/// The `key\0value\0` pairs of the extra startup parameters.
pub open spec fn spec_params(ps: Seq<(String, String)>) -> Seq<u8>
    decreases ps.len(),
{
    if ps.len() == 0 {
        Seq::empty()
    } else {
        spec_cstr(ps[0].0@) + spec_cstr(ps[0].1@) + spec_params(ps.drop_first())
    }
}

/// Appends every parameter pair as `key\0value\0`.
fn write_params(buf: &mut Vec<u8>, params: &Vec<(String, String)>)
    ensures
        final(buf)@ == old(buf)@ + spec_params(params@),
{
    let len = params.len();
    let mut i: usize = 0;
    proof {
        assert(params@.skip(0) =~= params@);
    }
    while i < len
        invariant
            len == params@.len(),
            i <= len,
            buf@ + spec_params(params@.skip(i as int)) == old(buf)@ + spec_params(params@),
        decreases len - i,
    {
        let pair = &params[i];
        proof {
            assert(params@.skip(i as int)[0] == params@[i as int]);
            assert(params@.skip(i as int).drop_first() =~= params@.skip(i as int + 1));
        }
        let ghost before = buf@;
        write_string(buf, pair.0.as_str());
        write_string(buf, pair.1.as_str());
        proof {
            assert(buf@ + spec_params(params@.skip(i as int + 1)) =~= before + spec_params(
                params@.skip(i as int),
            ));
        }
        i = i + 1;
    }
    proof {
        assert(spec_params(params@.skip(len as int)) =~= Seq::<u8>::empty());
        assert(buf@ =~= old(buf)@ + spec_params(params@));
    }
}

impl Message for StartupMessage {
    open spec fn spec_id(&self) -> Option<u8> {
        None
    }

    open spec fn spec_body(&self) -> Seq<u8> {
        seq![0u8, 3u8, 0u8, 0u8] + spec_cstr("user"@) + spec_cstr(self.user@) + (match
            self.database {
            Some(ref db) => spec_cstr("database"@) + spec_cstr(db@),
            None => Seq::empty(),
        }) + spec_params(self.params@) + seq![0u8]
    }

    open spec fn wf(&self) -> bool {
        true
    }

    fn id(&self) -> (r: Option<u8>) {
        None
    }

    fn write_body(&self, buf: &mut Vec<u8>) {
        push_u32_be(buf, PROTOCOL_VERSION);
        proof {
            assert(u32_be(PROTOCOL_VERSION as int) =~= seq![0u8, 3u8, 0u8, 0u8]);
        }
        write_string(buf, "user");
        write_string(buf, self.user.as_str());
        match &self.database {
            Some(db) => {
                write_string(buf, "database");
                write_string(buf, db.as_str());
            },
            None => (),
        }
        write_params(buf, &self.params);
        buf.push(0);
        assert(buf@ =~= old(buf)@ + self.spec_body());
    }
}

/// The cleartext or MD5 password reply: the credential text and a NUL.
#[derive(Clone, Debug, PartialEq, Eq)]
pub struct PasswordMessage {
    pub hash: String,
}

impl Message for PasswordMessage {
    open spec fn spec_id(&self) -> Option<u8> {
        Some(FRONT_PASSWORD)
    }

    open spec fn spec_body(&self) -> Seq<u8> {
        spec_cstr(self.hash@)
    }

    open spec fn wf(&self) -> bool {
        true
    }

    fn id(&self) -> (r: Option<u8>) {
        Some(FRONT_PASSWORD)
    }

    fn write_body(&self, buf: &mut Vec<u8>) {
        write_string(buf, self.hash.as_str());
    }
}

/// Graceful termination; an empty body.
#[derive(Clone, Debug, PartialEq, Eq)]
pub struct Terminate;

impl Message for Terminate {
    open spec fn spec_id(&self) -> Option<u8> {
        Some(FRONT_TERMINATE)
    }

    open spec fn spec_body(&self) -> Seq<u8> {
        Seq::empty()
    }

    open spec fn wf(&self) -> bool {
        true
    }

    fn id(&self) -> (r: Option<u8>) {
        Some(FRONT_TERMINATE)
    }

    fn write_body(&self, buf: &mut Vec<u8>) {
        assert(buf@ =~= old(buf)@ + self.spec_body());
    }
}

/// One simple-query request: the SQL text and a NUL.
#[derive(Clone, Debug, PartialEq, Eq)]
pub struct Query {
    pub query: String,
}

impl Message for Query {
    open spec fn spec_id(&self) -> Option<u8> {
        Some(FRONT_QUERY)
    }

    open spec fn spec_body(&self) -> Seq<u8> {
        spec_cstr(self.query@)
    }

    open spec fn wf(&self) -> bool {
        true
    }

    fn id(&self) -> (r: Option<u8>) {
        Some(FRONT_QUERY)
    }

    fn write_body(&self, buf: &mut Vec<u8>) {
        write_string(buf, self.query.as_str());
    }
}

/// The `u32` wire encodings of a list of parameter type OIDs.
pub open spec fn spec_oids(ts: Seq<u32>) -> Seq<u8>
    decreases ts.len(),
{
    if ts.len() == 0 {
        Seq::empty()
    } else {
        u32_be(ts[0] as int) + spec_oids(ts.drop_first())
    }
}

/// Prepares a named statement: statement name, SQL text, and the declared
/// parameter type OIDs.
#[derive(Clone, Debug, PartialEq, Eq)]
pub struct ParseMessage {
    pub name: String,
    pub sql: String,
    pub param_types: Vec<u32>,
}

impl Message for ParseMessage {
    open spec fn spec_id(&self) -> Option<u8> {
        Some(FRONT_PARSE)
    }

    open spec fn spec_body(&self) -> Seq<u8> {
        spec_cstr(self.name@) + spec_cstr(self.sql@) + u16_be(self.param_types@.len() as int)
            + spec_oids(self.param_types@)
    }

    open spec fn wf(&self) -> bool {
        self.param_types@.len() <= u16::MAX
    }

    fn id(&self) -> (r: Option<u8>) {
        Some(FRONT_PARSE)
    }

    fn write_body(&self, buf: &mut Vec<u8>) {
        write_string(buf, self.name.as_str());
        write_string(buf, self.sql.as_str());
        push_u16_be(buf, self.param_types.len() as u16);
        let len = self.param_types.len();
        let mut i: usize = 0;
        proof {
            assert(self.param_types@.skip(0) =~= self.param_types@);
        }
        while i < len
            invariant
                len == self.param_types@.len(),
                i <= len,
                buf@ + spec_oids(self.param_types@.skip(i as int)) == old(buf)@
                    + self.spec_body(),
            decreases len - i,
        {
            proof {
                assert(self.param_types@.skip(i as int)[0] == self.param_types@[i as int]);
                assert(self.param_types@.skip(i as int).drop_first() =~= self.param_types@.skip(
                    i as int + 1,
                ));
            }
            let ghost before = buf@;
            push_u32_be(buf, self.param_types[i]);
            proof {
                assert(buf@ + spec_oids(self.param_types@.skip(i as int + 1)) =~= before
                    + spec_oids(self.param_types@.skip(i as int)));
            }
            i = i + 1;
        }
        proof {
            assert(spec_oids(self.param_types@.skip(len as int)) =~= Seq::<u8>::empty());
            assert(buf@ =~= old(buf)@ + self.spec_body());
        }
    }
}

/// Per-value encoding indicator on the wire: 0 is textual, 1 is binary.
#[derive(Copy, Clone, Debug, Eq, PartialEq, Structural)]
pub enum Format {
    Text,
    Binary,
}

/// The format's wire code.
pub open spec fn spec_format_code(f: Format) -> int {
    match f {
        Format::Text => 0,
        Format::Binary => 1,
    }
}

impl Format {
    /// The format's wire code.
    pub fn code(&self) -> (r: u16)
        ensures
            r as int == spec_format_code(*self),
    {
        match self {
            Format::Text => 0,
            Format::Binary => 1,
        }
    }
}

/// The `u16` wire encodings of a list of format codes.
pub open spec fn spec_format_codes(fs: Seq<Format>) -> Seq<u8>
    decreases fs.len(),
{
    if fs.len() == 0 {
        Seq::empty()
    } else {
        u16_be(spec_format_code(fs[0])) + spec_format_codes(fs.drop_first())
    }
}

/// The length-prefixed wire encodings of a list of parameter values, with
/// length `-1` marking NULL.
pub open spec fn spec_value_bytes(vs: Seq<Option<Vec<u8>>>) -> Seq<u8>
    decreases vs.len(),
{
    if vs.len() == 0 {
        Seq::empty()
    } else {
        (match vs[0] {
            Some(ref v) => u32_be(v@.len() as int) + v@,
            None => u32_be(0xFFFF_FFFF),
        }) + spec_value_bytes(vs.drop_first())
    }
}

/// Binds parameter values to a prepared statement under a portal name.
#[derive(Clone, Debug, PartialEq, Eq)]
pub struct BindMessage {
    pub portal: String,
    pub prepared_statement: String,
    pub param_format_codes: Vec<Format>,
    pub param_values: Vec<Option<Vec<u8>>>,
    pub result_format_codes: Vec<Format>,
}

impl Message for BindMessage {
    open spec fn spec_id(&self) -> Option<u8> {
        Some(FRONT_BIND)
    }

    open spec fn spec_body(&self) -> Seq<u8> {
        spec_cstr(self.portal@) + spec_cstr(self.prepared_statement@) + u16_be(
            self.param_format_codes@.len() as int,
        ) + spec_format_codes(self.param_format_codes@) + u16_be(self.param_values@.len() as int)
            + spec_value_bytes(self.param_values@) + u16_be(self.result_format_codes@.len() as int)
            + spec_format_codes(self.result_format_codes@)
    }

    open spec fn wf(&self) -> bool {
        &&& self.param_format_codes@.len() <= u16::MAX
        &&& self.param_values@.len() <= u16::MAX
        &&& self.result_format_codes@.len() <= u16::MAX
        &&& forall|i: int|
            #![trigger self.param_values@[i]]
            0 <= i < self.param_values@.len() ==> (match self.param_values@[i] {
                Some(ref v) => v@.len() <= 0x7FFF_FFFF,
                None => true,
            })
    }

    fn id(&self) -> (r: Option<u8>) {
        Some(FRONT_BIND)
    }

    fn write_body(&self, buf: &mut Vec<u8>) {
        write_string(buf, self.portal.as_str());
        write_string(buf, self.prepared_statement.as_str());
        push_u16_be(buf, self.param_format_codes.len() as u16);
        write_format_codes(buf, &self.param_format_codes);
        push_u16_be(buf, self.param_values.len() as u16);
        write_values(buf, &self.param_values);
        push_u16_be(buf, self.result_format_codes.len() as u16);
        write_format_codes(buf, &self.result_format_codes);
        assert(buf@ =~= old(buf)@ + self.spec_body());
    }
}

/// Appends the wire codes of every format in the list.
fn write_format_codes(buf: &mut Vec<u8>, fs: &Vec<Format>)
    ensures
        final(buf)@ == old(buf)@ + spec_format_codes(fs@),
{
    let len = fs.len();
    let mut i: usize = 0;
    proof {
        assert(fs@.skip(0) =~= fs@);
    }
    while i < len
        invariant
            len == fs@.len(),
            i <= len,
            buf@ + spec_format_codes(fs@.skip(i as int)) == old(buf)@ + spec_format_codes(fs@),
        decreases len - i,
    {
        proof {
            assert(fs@.skip(i as int)[0] == fs@[i as int]);
            assert(fs@.skip(i as int).drop_first() =~= fs@.skip(i as int + 1));
        }
        let ghost before = buf@;
        let code = fs[i].code();
        push_u16_be(buf, code);
        proof {
            assert(buf@ + spec_format_codes(fs@.skip(i as int + 1)) =~= before
                + spec_format_codes(fs@.skip(i as int)));
        }
        i = i + 1;
    }
    proof {
        assert(spec_format_codes(fs@.skip(len as int)) =~= Seq::<u8>::empty());
        assert(buf@ =~= old(buf)@ + spec_format_codes(fs@));
    }
}

/// Appends the length-prefixed encoding of every value, `-1` for NULL.
fn write_values(buf: &mut Vec<u8>, vs: &Vec<Option<Vec<u8>>>)
    requires
        forall|i: int|
            #![trigger vs@[i]]
            0 <= i < vs@.len() ==> (match vs@[i] {
                Some(ref v) => v@.len() <= 0x7FFF_FFFF,
                None => true,
            }),
    ensures
        final(buf)@ == old(buf)@ + spec_value_bytes(vs@),
{
    let len = vs.len();
    let mut i: usize = 0;
    proof {
        assert(vs@.skip(0) =~= vs@);
    }
    while i < len
        invariant
            len == vs@.len(),
            i <= len,
            forall|j: int|
                #![trigger vs@[j]]
                0 <= j < vs@.len() ==> (match vs@[j] {
                    Some(ref v) => v@.len() <= 0x7FFF_FFFF,
                    None => true,
                }),
            buf@ + spec_value_bytes(vs@.skip(i as int)) == old(buf)@ + spec_value_bytes(vs@),
        decreases len - i,
    {
        proof {
            assert(vs@.skip(i as int)[0] == vs@[i as int]);
            assert(vs@.skip(i as int).drop_first() =~= vs@.skip(i as int + 1));
        }
        let ghost before = buf@;
        match &vs[i] {
            Some(v) => {
                push_u32_be(buf, v.len() as u32);
                buf.extend_from_slice(v.as_slice());
            },
            None => {
                push_u32_be(buf, 0xFFFF_FFFFu32);
            },
        }
        proof {
            assert(buf@ + spec_value_bytes(vs@.skip(i as int + 1)) =~= before + spec_value_bytes(
                vs@.skip(i as int),
            ));
        }
        i = i + 1;
    }
    proof {
        assert(spec_value_bytes(vs@.skip(len as int)) =~= Seq::<u8>::empty());
        assert(buf@ =~= old(buf)@ + spec_value_bytes(vs@));
    }
}

/// Runs a bound portal, up to `max_rows` rows (0 meaning no limit).
#[derive(Clone, Debug, PartialEq, Eq)]
pub struct ExecuteMessage {
    pub portal: String,
    pub max_rows: u32,
}

impl Message for ExecuteMessage {
    open spec fn spec_id(&self) -> Option<u8> {
        Some(FRONT_EXECUTE)
    }

    open spec fn spec_body(&self) -> Seq<u8> {
        spec_cstr(self.portal@) + u32_be(self.max_rows as int)
    }

    open spec fn wf(&self) -> bool {
        true
    }

    fn id(&self) -> (r: Option<u8>) {
        Some(FRONT_EXECUTE)
    }

    fn write_body(&self, buf: &mut Vec<u8>) {
        write_string(buf, self.portal.as_str());
        push_u32_be(buf, self.max_rows);
        assert(buf@ =~= old(buf)@ + self.spec_body());
    }
}

/// Marks the synchronization point of an extended-query pipeline.
#[derive(Clone, Debug, PartialEq, Eq)]
pub struct SyncMessage;

impl Message for SyncMessage {
    open spec fn spec_id(&self) -> Option<u8> {
        Some(FRONT_SYNC)
    }

    open spec fn spec_body(&self) -> Seq<u8> {
        Seq::empty()
    }

    open spec fn wf(&self) -> bool {
        true
    }

    fn id(&self) -> (r: Option<u8>) {
        Some(FRONT_SYNC)
    }

    fn write_body(&self, buf: &mut Vec<u8>) {
        assert(buf@ =~= old(buf)@ + self.spec_body());
    }
}

/// What a `Close` request closes: a prepared statement or a portal.
#[derive(Clone, Copy, Debug, PartialEq, Eq, Structural)]
pub enum CloseType {
    PreparedStatement,
    Portal,
}

/// The close kind's wire byte (`S` or `P`).
pub open spec fn spec_close_code(t: CloseType) -> u8 {
    match t {
        CloseType::PreparedStatement => 83,
        CloseType::Portal => 80,
    }
}

impl CloseType {
    /// The close kind's wire byte.
    pub fn code(&self) -> (r: u8)
        ensures
            r == spec_close_code(*self),
    {
        match self {
            CloseType::PreparedStatement => 83,
            CloseType::Portal => 80,
        }
    }
}

/// Releases a prepared statement or portal by name.
#[derive(Clone, Debug, PartialEq, Eq)]
pub struct CloseMessage {
    pub close_type: CloseType,
    pub name: String,
}

impl Message for CloseMessage {
    open spec fn spec_id(&self) -> Option<u8> {
        Some(FRONT_CLOSE)
    }

    open spec fn spec_body(&self) -> Seq<u8> {
        seq![spec_close_code(self.close_type)] + spec_cstr(self.name@)
    }

    open spec fn wf(&self) -> bool {
        true
    }

    fn id(&self) -> (r: Option<u8>) {
        Some(FRONT_CLOSE)
    }

    fn write_body(&self, buf: &mut Vec<u8>) {
        let code = self.close_type.code();
        buf.push(code);
        write_string(buf, self.name.as_str());
        assert(buf@ =~= old(buf)@ + self.spec_body());
    }
}

} // verus!
