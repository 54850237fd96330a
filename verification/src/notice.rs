//! The field-tagged body shared by `ErrorResponse` and `NoticeResponse`:
//! a sequence of `tag value\0` fields closed by a zero tag byte.

use vstd::prelude::*;
use vstd::utf8::{valid_utf8, decode_utf8, encode_utf8, encode_utf8_decode_utf8};
use vstd::string::StringSliceAdditionalSpecFns;
use vstd::slice::slice_subrange;
use crate::error::ProtocolError;
use crate::wire::{spec_take_cstring, take_cstring, lemma_find_nul_props};

verus! {

/// Severity of a notice or error, parsed from the `V` field (preferred)
/// or else `S`; an unknown spelling yields `None`.
#[derive(Clone, Copy, Debug, PartialEq, Eq, Structural)]
pub enum Severity {
    Error,
    Fatal,
    Panic,
    Warning,
    Notice,
    Debug,
    Info,
    Log,
}

/// Cursor position reported with an error: either a position in the
/// caller's query (`P`) or in an internally generated query (`p` + `q`).
#[derive(Clone, Debug, PartialEq, Eq)]
pub enum Position {
    Public(usize),
    Internal { position: usize, query: String },
}

/// Ghost counterpart of [`Position`].
pub enum SpecPosition {
    Public(int),
    Internal { position: int, query: Seq<char> },
}

impl View for Position {
    type V = SpecPosition;

    open spec fn view(&self) -> SpecPosition {
        match self {
            Position::Public(pos) => SpecPosition::Public(*pos as int),
            Position::Internal { position, query } => SpecPosition::Internal {
                position: *position as int,
                query: query@,
            },
        }
    }
}

impl Position {
    /// The reported position, whichever query it refers to.
    pub fn position(&self) -> (r: usize)
        ensures
            r as int == match self@ {
                SpecPosition::Public(pos) => pos,
                SpecPosition::Internal { position, .. } => position,
            },
    {
        match self {
            Position::Public(pos) => *pos,
            Position::Internal { position, .. } => *position,
        }
    }

    /// The internally generated query, when the position refers to one.
    pub fn query(&self) -> (r: Option<&str>)
        ensures
            match self@ {
                SpecPosition::Internal { query, .. } => r matches Some(q) && q@ == query,
                _ => r is None,
            },
    {
        match self {
            Position::Internal { query, .. } => Some(query.as_str()),
            _ => None,
        }
    }
}


/// Field-tag bytes of the notice body (ASCII `S V C M D H P p q`).
pub const TAG_SEVERITY_LOC: u8 = 83;

pub const TAG_SEVERITY: u8 = 86;

pub const TAG_CODE: u8 = 67;

pub const TAG_MESSAGE: u8 = 77;

pub const TAG_DETAIL: u8 = 68;

pub const TAG_HINT: u8 = 72;

pub const TAG_POSITION: u8 = 80;

pub const TAG_INTERNAL_POSITION: u8 = 112;

pub const TAG_INTERNAL_QUERY: u8 = 113;

/// True of the tags with a recognized semantic slot.
pub open spec fn is_known_tag(t: u8) -> bool {
    t == TAG_SEVERITY_LOC || t == TAG_SEVERITY || t == TAG_CODE || t == TAG_MESSAGE || t == TAG_DETAIL || t == TAG_HINT || t == TAG_POSITION
        || t == TAG_INTERNAL_POSITION || t == TAG_INTERNAL_QUERY
}

/// The raw field list of a notice body: each field is `tag value\0`, the
/// list is closed by a zero tag, and nothing may follow the terminator.
/// Values must be UTF-8.
pub open spec fn spec_notice_fields(b: Seq<u8>, id: u8) -> Result<
    Seq<(u8, Seq<u8>)>,
    ProtocolError,
>
    decreases b.len(),
    via spec_notice_fields_dec
{
    if b.len() == 0 {
        Err(ProtocolError::Invalid(id))
    } else if b[0] == 0 {
        if b.len() == 1 {
            Ok(Seq::empty())
        } else {
            Err(ProtocolError::Invalid(id))
        }
    } else {
        match spec_take_cstring(b.skip(1)) {
            None => Err(ProtocolError::Invalid(id)),
            Some((vb, rest)) => if !valid_utf8(vb) {
                Err(ProtocolError::Utf8)
            } else {
                match spec_notice_fields(rest, id) {
                    Err(e) => Err(e),
                    Ok(fs) => Ok(seq![(b[0], vb)] + fs),
                }
            },
        }
    }
}

#[via_fn]
proof fn spec_notice_fields_dec(b: Seq<u8>, id: u8) {
    if b.len() > 0 && b[0] != 0 {
        lemma_find_nul_props(b.skip(1));
    }
}

/// The value of the last field carrying `tag`, if any (last write wins).
pub open spec fn spec_last_val(fs: Seq<(u8, Seq<u8>)>, tag: u8) -> Option<Seq<u8>>
    decreases fs.len(),
{
    if fs.len() == 0 {
        None
    } else if fs.last().0 == tag {
        Some(fs.last().1)
    } else {
        spec_last_val(fs.drop_last(), tag)
    }
}

/// True of an ASCII decimal digit.
pub open spec fn is_dec_digit(c: u8) -> bool {
    48 <= c <= 57
}

/// True of a nonempty, all-digit byte sequence.
pub open spec fn all_dec_digits(s: Seq<u8>) -> bool {
    s.len() > 0 && forall|i: int| 0 <= i < s.len() ==> is_dec_digit(s[i])
}

/// Value of a decimal digit string.
pub open spec fn dec_value(s: Seq<u8>) -> int
    decreases s.len(),
{
    if s.len() == 0 {
        0
    } else {
        dec_value(s.drop_last()) * 10 + (s.last() - 48)
    }
}

/// True when the bytes parse as a decimal number that fits in `usize`.
pub open spec fn spec_dec_ok(s: Seq<u8>) -> bool {
    all_dec_digits(s) && dec_value(s) <= usize::MAX
}

/// Severity parsed from one spelling.
pub open spec fn spec_severity(s: Seq<char>) -> Option<Severity> {
    if s == "ERROR"@ {
        Some(Severity::Error)
    } else if s == "FATAL"@ {
        Some(Severity::Fatal)
    } else if s == "PANIC"@ {
        Some(Severity::Panic)
    } else if s == "WARNING"@ {
        Some(Severity::Warning)
    } else if s == "NOTICE"@ {
        Some(Severity::Notice)
    } else if s == "DEBUG"@ {
        Some(Severity::Debug)
    } else if s == "INFO"@ {
        Some(Severity::Info)
    } else if s == "LOG"@ {
        Some(Severity::Log)
    } else {
        None
    }
}

/// Ghost counterpart of [`NoticeBody`].
pub struct SpecNoticeBody {
    pub severity_loc: Option<Seq<char>>,
    pub severity: Option<Severity>,
    pub code: Seq<char>,
    pub message: Seq<char>,
    pub detail: Option<Seq<char>>,
    pub hint: Option<Seq<char>>,
    pub position: Option<SpecPosition>,
    pub more: Seq<(u8, Seq<char>)>,
}

/// Position slots parsed from the field list; `Err` means a malformed
/// decimal in `P` or `p`.
pub open spec fn spec_position_of(fs: Seq<(u8, Seq<u8>)>) -> Result<Option<SpecPosition>, ()> {
    match spec_last_val(fs, TAG_POSITION) {
        Some(pb) => if spec_dec_ok(pb) {
            Ok(Some(SpecPosition::Public(dec_value(pb))))
        } else {
            Err(())
        },
        None => match spec_last_val(fs, TAG_INTERNAL_POSITION) {
            Some(pb) => if spec_dec_ok(pb) {
                Ok(
                    Some(
                        SpecPosition::Internal {
                            position: dec_value(pb),
                            query: match spec_last_val(fs, TAG_INTERNAL_QUERY) {
                                Some(qb) => decode_utf8(qb),
                                None => Seq::empty(),
                            },
                        },
                    ),
                )
            } else {
                Err(())
            },
            None => Ok(None),
        },
    }
}

/// Builds the notice body from the raw field list: `M`, `C` and one of
/// `S`/`V` must be present; `P`/`p` must be decimal.
pub open spec fn spec_notice_from_fields(fs: Seq<(u8, Seq<u8>)>, id: u8) -> Result<
    SpecNoticeBody,
    ProtocolError,
> {
    let s = spec_last_val(fs, TAG_SEVERITY_LOC);
    let v = spec_last_val(fs, TAG_SEVERITY);
    match (spec_last_val(fs, TAG_CODE), spec_last_val(fs, TAG_MESSAGE)) {
        (Some(cb), Some(mb)) => if s is None && v is None {
            Err(ProtocolError::Invalid(id))
        } else {
            match spec_position_of(fs) {
                Err(()) => Err(ProtocolError::ParseInt),
                Ok(pos) => Ok(
                    SpecNoticeBody {
                        severity_loc: match s {
                            Some(sb) => Some(decode_utf8(sb)),
                            None => None,
                        },
                        severity: match v {
                            Some(vb) => spec_severity(decode_utf8(vb)),
                            None => match s {
                                Some(sb) => spec_severity(decode_utf8(sb)),
                                None => None,
                            },
                        },
                        code: decode_utf8(cb),
                        message: decode_utf8(mb),
                        detail: match spec_last_val(fs, TAG_DETAIL) {
                            Some(db) => Some(decode_utf8(db)),
                            None => None,
                        },
                        hint: match spec_last_val(fs, TAG_HINT) {
                            Some(hb) => Some(decode_utf8(hb)),
                            None => None,
                        },
                        position: pos,
                        more: fs.filter(|f: (u8, Seq<u8>)| !is_known_tag(f.0)).map_values(
                            |f: (u8, Seq<u8>)| (f.0, decode_utf8(f.1)),
                        ),
                    },
                ),
            }
        },
        _ => Err(ProtocolError::Invalid(id)),
    }
}

/// Full parse of a notice body: fields, presence validation, slots.
pub open spec fn spec_parse_notice(b: Seq<u8>, id: u8) -> Result<SpecNoticeBody, ProtocolError> {
    match spec_notice_fields(b, id) {
        Err(e) => Err(e),
        Ok(fs) => spec_notice_from_fields(fs, id),
    }
}

/// A well-terminated notice body is rejected once a byte is appended
/// after its terminator.
pub proof fn lemma_notice_fields_extend(b: Seq<u8>, id: u8, x: u8)
    requires
        spec_notice_fields(b, id) is Ok,
    ensures
        spec_notice_fields(b.push(x), id) == Err::<Seq<(u8, Seq<u8>)>, ProtocolError>(
            ProtocolError::Invalid(id),
        ),
    decreases b.len(),
{
    let bx = b.push(x);
    assert(bx[0] == b[0]);
    if b[0] == 0 {
        assert(b.len() == 1);
        assert(bx.len() == 2);
    } else {
        let (vb, rest) = crate::wire::spec_take_cstring(b.skip(1))->Some_0;
        crate::wire::lemma_find_nul_props(b.skip(1));
        assert(spec_notice_fields(rest, id) is Ok);
        crate::wire::lemma_take_cstring_fixed_extend(b.skip(1), 0, x);
        assert(bx.skip(1) =~= b.skip(1).push(x));
        lemma_notice_fields_extend(rest, id, x);
    }
}

/// A well-terminated notice body is rejected once its final byte, the
/// terminator, is dropped.
pub proof fn lemma_notice_fields_shrink(b: Seq<u8>, id: u8)
    requires
        spec_notice_fields(b, id) is Ok,
    ensures
        spec_notice_fields(b.drop_last(), id) == Err::<Seq<(u8, Seq<u8>)>, ProtocolError>(
            ProtocolError::Invalid(id),
        ),
    decreases b.len(),
{
    if b[0] == 0 {
        assert(b.len() == 1);
        assert(b.drop_last().len() == 0);
    } else {
        let (vb, rest) = crate::wire::spec_take_cstring(b.skip(1))->Some_0;
        crate::wire::lemma_find_nul_props(b.skip(1));
        assert(spec_notice_fields(rest, id) is Ok);
        assert(rest.len() > 0);
        crate::wire::lemma_take_cstring_fixed_shrink(b.skip(1), 0);
        assert(b.drop_last().skip(1) =~= b.skip(1).drop_last());
        assert(b.drop_last()[0] == b[0]);
        lemma_notice_fields_shrink(rest, id);
    }
}

/// The presence check: a field list missing `C`, missing `M`, or missing
/// both `S` and `V` is rejected, whatever else it holds.
pub proof fn lemma_notice_requires_fields(fs: Seq<(u8, Seq<u8>)>, id: u8)
    requires
        spec_last_val(fs, TAG_CODE) is None || spec_last_val(fs, TAG_MESSAGE) is None || (
        spec_last_val(fs, TAG_SEVERITY_LOC) is None && spec_last_val(fs, TAG_SEVERITY) is None),
    ensures
        spec_notice_from_fields(fs, id) == Err::<SpecNoticeBody, ProtocolError>(
            ProtocolError::Invalid(id),
        ),
{
}

/// No field of `fs` repeats a tag.
pub open spec fn distinct_tags(fs: Seq<(u8, Seq<u8>)>) -> bool {
    forall|i: int, j: int| 0 <= i < j < fs.len() ==> (#[trigger] fs[i]).0 != (#[trigger] fs[j]).0
}

/// The last value written under a tag is an element of the list.
proof fn lemma_last_val_contains(fs: Seq<(u8, Seq<u8>)>, tag: u8)
    ensures
        match spec_last_val(fs, tag) {
            Some(v) => fs.contains((tag, v)),
            None => forall|i: int| 0 <= i < fs.len() ==> (#[trigger] fs[i]).0 != tag,
        },
    decreases fs.len(),
{
    if fs.len() > 0 {
        lemma_last_val_contains(fs.drop_last(), tag);
        assert(forall|i: int| 0 <= i < fs.len() - 1 ==> (#[trigger] fs[i]) == fs.drop_last()[i]);
        if fs.last().0 == tag {
            assert(fs[fs.len() - 1] == (tag, fs.last().1));
        } else {
            match spec_last_val(fs.drop_last(), tag) {
                Some(v) => {
                    let i = choose|i: int|
                        0 <= i < fs.drop_last().len() && fs.drop_last()[i] == (tag, v);
                    assert(fs[i] == (tag, v));
                },
                None => {
                    assert(fs[fs.len() - 1].0 != tag);
                },
            }
        }
    }
}

/// With distinct tags, membership determines the last value for a tag.
proof fn lemma_contains_last_val(fs: Seq<(u8, Seq<u8>)>, tag: u8, v: Seq<u8>)
    requires
        distinct_tags(fs),
        fs.contains((tag, v)),
    ensures
        spec_last_val(fs, tag) == Some(v),
    decreases fs.len(),
{
    let i = choose|i: int| 0 <= i < fs.len() && fs[i] == (tag, v);
    if fs.last().0 == tag {
        assert(fs[fs.len() - 1].0 == tag);
        assert(i == fs.len() - 1);
    } else {
        assert(i < fs.len() - 1);
        assert(fs.drop_last()[i] == (tag, v));
        assert(distinct_tags(fs.drop_last()));
        lemma_contains_last_val(fs.drop_last(), tag, v);
    }
}

/// With distinct tags, two orderings of the same fields agree on the last
/// value of every tag.
proof fn lemma_permutation_last_val(
    fs1: Seq<(u8, Seq<u8>)>,
    fs2: Seq<(u8, Seq<u8>)>,
    tag: u8,
)
    requires
        fs1.to_multiset() == fs2.to_multiset(),
        distinct_tags(fs1),
        distinct_tags(fs2),
    ensures
        spec_last_val(fs1, tag) == spec_last_val(fs2, tag),
{
    broadcast use vstd::seq_lib::group_to_multiset_ensures;

    lemma_last_val_contains(fs1, tag);
    lemma_last_val_contains(fs2, tag);
    match spec_last_val(fs1, tag) {
        Some(v) => {
            assert(fs1.to_multiset().count((tag, v)) > 0);
            assert(fs2.contains((tag, v)));
            lemma_contains_last_val(fs2, tag, v);
        },
        None => {
            match spec_last_val(fs2, tag) {
                Some(v) => {
                    assert(fs2.to_multiset().count((tag, v)) > 0);
                    assert(fs1.contains((tag, v)));
                    let i = choose|i: int| 0 <= i < fs1.len() && fs1[i] == (tag, v);
                    assert(fs1[i].0 == tag);
                },
                None => {},
            }
        },
    }
}

/// Acceptance of a notice body does not depend on the order of its fields:
/// two orderings of the same distinct-tagged fields are either both
/// accepted or both rejected.
pub proof fn lemma_notice_acceptance_order_independent(
    fs1: Seq<(u8, Seq<u8>)>,
    fs2: Seq<(u8, Seq<u8>)>,
    id: u8,
)
    requires
        fs1.to_multiset() == fs2.to_multiset(),
        distinct_tags(fs1),
        distinct_tags(fs2),
    ensures
        spec_notice_from_fields(fs1, id) is Ok <==> spec_notice_from_fields(fs2, id) is Ok,
{
    lemma_permutation_last_val(fs1, fs2, TAG_SEVERITY_LOC);
    lemma_permutation_last_val(fs1, fs2, TAG_SEVERITY);
    lemma_permutation_last_val(fs1, fs2, TAG_CODE);
    lemma_permutation_last_val(fs1, fs2, TAG_MESSAGE);
    lemma_permutation_last_val(fs1, fs2, TAG_POSITION);
    lemma_permutation_last_val(fs1, fs2, TAG_INTERNAL_POSITION);
    lemma_permutation_last_val(fs1, fs2, TAG_INTERNAL_QUERY);
}

/// The parsed body of an `ErrorResponse` or `NoticeResponse`.
#[derive(Clone, Debug, PartialEq, Eq)]
pub struct NoticeBody {
    /// Localized severity, from the `S` field.
    pub severity_loc: Option<String>,
    /// Non-localized severity, parsed from `V` (preferred) else `S`.
    pub severity: Option<Severity>,
    /// SQLSTATE code, from the `C` field.
    pub code: String,
    /// Primary message, from the `M` field.
    pub message: String,
    /// Detail, from the `D` field.
    pub detail: Option<String>,
    /// Hint, from the `H` field.
    pub hint: Option<String>,
    /// Cursor position, from `P`, or `p` with optional `q`.
    pub position: Option<Position>,
    /// Unrecognized fields, in order of appearance.
    pub more: Vec<(u8, String)>,
}

impl View for NoticeBody {
    type V = SpecNoticeBody;

    open spec fn view(&self) -> SpecNoticeBody {
        SpecNoticeBody {
            severity_loc: match &self.severity_loc {
                Some(s) => Some(s@),
                None => None,
            },
            severity: self.severity,
            code: self.code@,
            message: self.message@,
            detail: match &self.detail {
                Some(s) => Some(s@),
                None => None,
            },
            hint: match &self.hint {
                Some(s) => Some(s@),
                None => None,
            },
            position: match &self.position {
                Some(p) => Some(p@),
                None => None,
            },
            more: Seq::new(self.more@.len(), |i: int| (self.more@[i].0, self.more@[i].1@)),
        }
    }
}

impl NoticeBody {
    /// The primary message.
    pub fn message(&self) -> (r: &str)
        ensures
            r@ == self@.message,
    {
        self.message.as_str()
    }

    /// Parses one notice body: tagged fields up to a zero tag, presence
    /// validation, and decimal decoding of the position fields. `id` is the
    /// identifier of the enclosing message, used to attribute errors.
    pub fn from_bytes(input: &[u8], id: u8) -> (r: Result<NoticeBody, ProtocolError>)
        ensures
            match r {
                Ok(nb) => spec_parse_notice(input@, id) == Ok::<SpecNoticeBody, ProtocolError>(
                    nb@,
                ),
                Err(e) => spec_parse_notice(input@, id) == Err::<SpecNoticeBody, ProtocolError>(
                    e,
                ),
            },
    {
        let mut s_slot: Option<String> = None;
        let mut v_slot: Option<String> = None;
        let mut c_slot: Option<String> = None;
        let mut m_slot: Option<String> = None;
        let mut d_slot: Option<String> = None;
        let mut h_slot: Option<String> = None;
        let mut p_slot: Option<String> = None;
        let mut pp_slot: Option<String> = None;
        let mut q_slot: Option<String> = None;
        let mut more: Vec<(u8, String)> = Vec::new();
        let mut rem: &[u8] = input;
        let ghost mut done: Seq<(u8, Seq<u8>)> = Seq::empty();
        proof {
            assert(done.filter(|f: (u8, Seq<u8>)| !is_known_tag(f.0)) =~= done);
        }
        loop
            invariant
                spec_notice_fields(input@, id) == (match spec_notice_fields(rem@, id) {
                    Ok(fs) => Ok::<Seq<(u8, Seq<u8>)>, ProtocolError>(done + fs),
                    Err(e) => Err(e),
                }),
                slot_matches(&s_slot, done, TAG_SEVERITY_LOC),
                slot_matches(&v_slot, done, TAG_SEVERITY),
                slot_matches(&c_slot, done, TAG_CODE),
                slot_matches(&m_slot, done, TAG_MESSAGE),
                slot_matches(&d_slot, done, TAG_DETAIL),
                slot_matches(&h_slot, done, TAG_HINT),
                slot_matches(&p_slot, done, TAG_POSITION),
                slot_matches(&pp_slot, done, TAG_INTERNAL_POSITION),
                slot_matches(&q_slot, done, TAG_INTERNAL_QUERY),
                more_matches(more@, done),
            ensures
                spec_notice_fields(input@, id) == Ok::<Seq<(u8, Seq<u8>)>, ProtocolError>(done),
                slot_matches(&s_slot, done, TAG_SEVERITY_LOC),
                slot_matches(&v_slot, done, TAG_SEVERITY),
                slot_matches(&c_slot, done, TAG_CODE),
                slot_matches(&m_slot, done, TAG_MESSAGE),
                slot_matches(&d_slot, done, TAG_DETAIL),
                slot_matches(&h_slot, done, TAG_HINT),
                slot_matches(&p_slot, done, TAG_POSITION),
                slot_matches(&pp_slot, done, TAG_INTERNAL_POSITION),
                slot_matches(&q_slot, done, TAG_INTERNAL_QUERY),
                more_matches(more@, done),
            decreases rem@.len(),
        {
            if rem.len() == 0 {
                return Err(ProtocolError::Invalid(id));
            }
            let tag = rem[0];
            if tag == 0 {
                if rem.len() == 1 {
                    proof {
                        assert(done + Seq::<(u8, Seq<u8>)>::empty() =~= done);
                    }
                    break;
                }
                return Err(ProtocolError::Invalid(id));
            }
            let rest0 = slice_subrange(rem, 1, rem.len());
            proof {
                assert(rest0@ =~= rem@.skip(1));
            }
            match take_cstring(rest0) {
                Err(e) => {
                    match e {
                        ProtocolError::Utf8 => {
                            return Err(ProtocolError::Utf8);
                        },
                        _ => {
                            return Err(ProtocolError::Invalid(id));
                        },
                    }
                },
                Ok((v_str, rest)) => {
                    let ghost vb = v_str.spec_bytes();
                    let ghost f = (tag, vb);
                    proof {
                        lemma_find_nul_props(rem@.skip(1));
                    }
                    if tag == TAG_SEVERITY_LOC {
                        s_slot = Some(v_str.to_owned());
                    } else if tag == TAG_SEVERITY {
                        v_slot = Some(v_str.to_owned());
                    } else if tag == TAG_CODE {
                        c_slot = Some(v_str.to_owned());
                    } else if tag == TAG_MESSAGE {
                        m_slot = Some(v_str.to_owned());
                    } else if tag == TAG_DETAIL {
                        d_slot = Some(v_str.to_owned());
                    } else if tag == TAG_HINT {
                        h_slot = Some(v_str.to_owned());
                    } else if tag == TAG_POSITION {
                        p_slot = Some(v_str.to_owned());
                    } else if tag == TAG_INTERNAL_POSITION {
                        pp_slot = Some(v_str.to_owned());
                    } else if tag == TAG_INTERNAL_QUERY {
                        q_slot = Some(v_str.to_owned());
                    } else {
                        more.push((tag, v_str.to_owned()));
                    }
                    proof {
                        lemma_last_val_push(done, f, TAG_SEVERITY_LOC);
                        lemma_last_val_push(done, f, TAG_SEVERITY);
                        lemma_last_val_push(done, f, TAG_CODE);
                        lemma_last_val_push(done, f, TAG_MESSAGE);
                        lemma_last_val_push(done, f, TAG_DETAIL);
                        lemma_last_val_push(done, f, TAG_HINT);
                        lemma_last_val_push(done, f, TAG_POSITION);
                        lemma_last_val_push(done, f, TAG_INTERNAL_POSITION);
                        lemma_last_val_push(done, f, TAG_INTERNAL_QUERY);
                        lemma_filter_push(done, f, |ff: (u8, Seq<u8>)| !is_known_tag(ff.0));
                        let old_done = done;
                        done = done.push(f);
                        match spec_notice_fields(rest@, id) {
                            Ok(fs) => {
                                assert(old_done + (seq![f] + fs) =~= done + fs);
                            },
                            Err(_) => {},
                        }
                    }
                    rem = rest;
                },
            }
        }
        let code = match c_slot {
            Some(c) => c,
            None => {
                return Err(ProtocolError::Invalid(id));
            },
        };
        let message = match m_slot {
            Some(m) => m,
            None => {
                return Err(ProtocolError::Invalid(id));
            },
        };
        if s_slot.is_none() && v_slot.is_none() {
            return Err(ProtocolError::Invalid(id));
        }
        let position: Option<Position> = match &p_slot {
            Some(p) => {
                match parse_decimal(p.as_str().as_bytes()) {
                    None => {
                        return Err(ProtocolError::ParseInt);
                    },
                    Some(n) => Some(Position::Public(n)),
                }
            },
            None => {
                match &pp_slot {
                    Some(p) => {
                        match parse_decimal(p.as_str().as_bytes()) {
                            None => {
                                return Err(ProtocolError::ParseInt);
                            },
                            Some(n) => {
                                let q = match q_slot {
                                    Some(q) => q,
                                    None => String::new(),
                                };
                                proof {
                                    if q_slot is Some {
                                        lemma_str_view_roundtrip(q@);
                                    }
                                }
                                Some(Position::Internal { position: n, query: q })
                            },
                        }
                    },
                    None => None,
                }
            },
        };
        let severity = match &v_slot {
            Some(v) => {
                proof {
                    lemma_str_view_roundtrip(v@);
                }
                Severity::new(v.as_str())
            },
            None => {
                match &s_slot {
                    Some(s) => {
                        proof {
                            lemma_str_view_roundtrip(s@);
                        }
                        Severity::new(s.as_str())
                    },
                    None => None,
                }
            },
        };
        proof {
            lemma_str_view_roundtrip(code@);
            lemma_str_view_roundtrip(message@);
            match s_slot {
                Some(ref s) => lemma_str_view_roundtrip(s@),
                None => (),
            }
            match d_slot {
                Some(ref d) => lemma_str_view_roundtrip(d@),
                None => (),
            }
            match h_slot {
                Some(ref h) => lemma_str_view_roundtrip(h@),
                None => (),
            }
        }
        let nb = NoticeBody {
            severity_loc: s_slot,
            severity,
            code,
            message,
            detail: d_slot,
            hint: h_slot,
            position,
            more,
        };
        proof {
            let unk = done.filter(|ff: (u8, Seq<u8>)| !is_known_tag(ff.0));
            let mapped = unk.map_values(|ff: (u8, Seq<u8>)| (ff.0, decode_utf8(ff.1)));
            assert forall|i: int| 0 <= i < unk.len() implies nb@.more[i] == mapped[i] by {
                lemma_str_view_roundtrip(nb.more@[i].1@);
            }
            assert(nb@.more =~= mapped);
        }
        Ok(nb)
    }
}

/// The slot for `tag` holds exactly the last value written under that tag.
pub open spec fn slot_matches(slot: &Option<String>, fs: Seq<(u8, Seq<u8>)>, tag: u8) -> bool {
    match slot {
        Some(s) => spec_last_val(fs, tag) == Some(encode_utf8(s@)),
        None => spec_last_val(fs, tag) is None,
    }
}

/// The overflow list holds exactly the unknown-tag fields, in order.
pub open spec fn more_matches(more: Seq<(u8, String)>, fs: Seq<(u8, Seq<u8>)>) -> bool {
    let unk = fs.filter(|f: (u8, Seq<u8>)| !is_known_tag(f.0));
    &&& more.len() == unk.len()
    &&& forall|i: int|
        0 <= i < unk.len() ==> (#[trigger] more[i]).0 == unk[i].0 && encode_utf8(more[i].1@)
            == unk[i].1
}

/// Appending a field moves the last-written value for its tag.
proof fn lemma_last_val_push(fs: Seq<(u8, Seq<u8>)>, f: (u8, Seq<u8>), tag: u8)
    ensures
        spec_last_val(fs.push(f), tag) == if f.0 == tag {
            Some(f.1)
        } else {
            spec_last_val(fs, tag)
        },
{
    assert(fs.push(f).drop_last() =~= fs);
    assert(fs.push(f).last() == f);
}

/// Appending a field extends the filtered view by at most that field.
proof fn lemma_filter_push(fs: Seq<(u8, Seq<u8>)>, f: (u8, Seq<u8>), p: spec_fn((u8, Seq<u8>)) -> bool)
    ensures
        fs.push(f).filter(p) == if p(f) {
            fs.filter(p).push(f)
        } else {
            fs.filter(p)
        },
{
    assert(fs.push(f).drop_last() =~= fs);
    assert(fs.push(f).last() == f);
    reveal(Seq::filter);
}

/// A string's view is recovered by decoding its UTF-8 bytes.
proof fn lemma_str_view_roundtrip(s: Seq<char>)
    ensures
        decode_utf8(encode_utf8(s)) == s,
{
    encode_utf8_decode_utf8(s);
}

/// Equality of byte slices.
pub fn bytes_eq(a: &[u8], b: &[u8]) -> (r: bool)
    ensures
        r == (a@ == b@),
{
    if a.len() != b.len() {
        proof {
            assert(a@ != b@);
        }
        return false;
    }
    let len = a.len();
    let mut i: usize = 0;
    while i < len
        invariant
            len == a@.len() && len == b@.len(),
            i <= len,
            forall|j: int| 0 <= j < i ==> a@[j] == b@[j],
        decreases len - i,
    {
        if a[i] != b[i] {
            proof {
                assert(a@[i as int] != b@[i as int]);
            }
            return false;
        }
        i = i + 1;
    }
    proof {
        assert(a@ =~= b@);
    }
    true
}

/// Equality of string slices, decided on their UTF-8 bytes.
pub fn str_eq(a: &str, b: &str) -> (r: bool)
    ensures
        r == (a@ == b@),
{
    let r = bytes_eq(a.as_bytes(), b.as_bytes());
    proof {
        if a.spec_bytes() == b.spec_bytes() {
            encode_utf8_decode_utf8(a@);
            encode_utf8_decode_utf8(b@);
        }
    }
    r
}

impl Severity {
    /// Parses one severity spelling.
    pub fn new(s: &str) -> (r: Option<Severity>)
        ensures
            r == spec_severity(s@),
    {
        if str_eq(s, "ERROR") {
            Some(Severity::Error)
        } else if str_eq(s, "FATAL") {
            Some(Severity::Fatal)
        } else if str_eq(s, "PANIC") {
            Some(Severity::Panic)
        } else if str_eq(s, "WARNING") {
            Some(Severity::Warning)
        } else if str_eq(s, "NOTICE") {
            Some(Severity::Notice)
        } else if str_eq(s, "DEBUG") {
            Some(Severity::Debug)
        } else if str_eq(s, "INFO") {
            Some(Severity::Info)
        } else if str_eq(s, "LOG") {
            Some(Severity::Log)
        } else {
            None
        }
    }
}

/// The value once a digit-string prefix has been read never decreases as
/// the string extends.
proof fn lemma_dec_value_nonneg(s: Seq<u8>)
    requires
        forall|i: int| 0 <= i < s.len() ==> is_dec_digit(s[i]),
    ensures
        dec_value(s) >= 0,
    decreases s.len(),
{
    if s.len() > 0 {
        lemma_dec_value_nonneg(s.drop_last());
    }
}

/// The value of a prefix of a digit string bounds the whole string's value.
proof fn lemma_dec_value_prefix(s: Seq<u8>, i: int)
    requires
        0 <= i <= s.len(),
        forall|j: int| 0 <= j < s.len() ==> is_dec_digit(s[j]),
    ensures
        dec_value(s.take(i)) <= dec_value(s),
    decreases s.len() - i,
{
    if i < s.len() {
        lemma_dec_value_prefix(s, i + 1);
        assert(s.take(i + 1).drop_last() =~= s.take(i));
        assert(s.take(i + 1).last() == s[i]);
        lemma_dec_value_nonneg(s.take(i));
        assert(dec_value(s.take(i)) <= dec_value(s.take(i)) * 10 + (s[i] - 48)) by (nonlinear_arith)
            requires dec_value(s.take(i)) >= 0 && 48 <= s[i] <= 57;
    } else {
        assert(s.take(i) =~= s);
    }
}

/// Parses a nonempty all-digit byte string as a decimal number.
pub fn parse_decimal(v: &[u8]) -> (r: Option<usize>)
    ensures
        match r {
            Some(n) => spec_dec_ok(v@) && n == dec_value(v@),
            None => !spec_dec_ok(v@),
        },
{
    let len = v.len();
    if len == 0 {
        return None;
    }
    let mut i: usize = 0;
    while i < len
        invariant
            len == v@.len(),
            i <= len,
            forall|j: int| 0 <= j < i ==> is_dec_digit(v@[j]),
        decreases len - i,
    {
        let c = v[i];
        if c < 48 || c > 57 {
            return None;
        }
        i = i + 1;
    }
    let mut acc: usize = 0;
    let mut k: usize = 0;
    proof {
        assert(v@.take(0) =~= Seq::<u8>::empty());
    }
    while k < len
        invariant
            len == v@.len(),
            k <= len,
            forall|j: int| 0 <= j < len ==> is_dec_digit(v@[j]),
            acc == dec_value(v@.take(k as int)),
        decreases len - k,
    {
        let c = v[k];
        let d = (c - 48) as usize;
        if acc > (usize::MAX - d) / 10 {
            proof {
                assert(acc * 10 + d > usize::MAX) by (nonlinear_arith)
                    requires acc > (usize::MAX - d) / 10 && 0 <= d <= 9 && acc >= 0;
                assert(v@.take(k as int + 1).drop_last() =~= v@.take(k as int));
                assert(v@.take(k as int + 1).last() == v@[k as int]);
                lemma_dec_value_prefix(v@, k as int + 1);
            }
            return None;
        }
        proof {
            assert(acc * 10 + d <= usize::MAX) by (nonlinear_arith)
                requires acc <= (usize::MAX - d) / 10 && 0 <= d <= 9 && acc >= 0;
            assert(v@.take(k as int + 1).drop_last() =~= v@.take(k as int));
            assert(v@.take(k as int + 1).last() == v@[k as int]);
        }
        acc = acc * 10 + d;
        k = k + 1;
    }
    proof {
        assert(v@.take(len as int) =~= v@);
    }
    Some(acc)
}

} // verus!
