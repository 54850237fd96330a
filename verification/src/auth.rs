//! MD5 challenge-response authentication: the password hash is
//! `md5` followed by the lowercase hex digest of
//! `md5(password || user)` re-hashed with the server's 4-byte salt.

use vstd::prelude::*;
use vstd::utf8::encode_utf8;
use vstd::string::StringSliceAdditionalSpecFns;
use crate::wire::ascii_bytes_to_string;
use crypto::digest::Digest;

verus! {

/// The 16-byte MD5 digest (RFC 1321) of a byte string; a function of the
/// input alone.
pub uninterp spec fn md5_of(b: Seq<u8>) -> Seq<u8>;

/// Relies on `crypto::md5::Md5` with `crypto::digest::Digest`: the RFC 1321
/// digest, 16 bytes, determined by the input alone.
#[verifier::external_body]
fn md5_digest(input: &[u8]) -> (r: Vec<u8>)
    ensures
        r@ == md5_of(input@),
        r@.len() == 16,
{
    let mut h = crypto::md5::Md5::new();
    h.input(input);
    let mut out = [0u8; 16];
    h.result(&mut out);
    out.to_vec()
}

/// The lowercase hex digit for a value below 16, as an ASCII byte.
pub open spec fn spec_hex_digit(d: int) -> u8
    recommends
        0 <= d < 16,
{
    if d < 10 {
        (48 + d) as u8
    } else {
        (87 + d) as u8
    }
}

/// The lowercase hex encoding of a byte string: two digits per byte.
pub open spec fn spec_hex_bytes(b: Seq<u8>) -> Seq<u8>
    decreases b.len(),
{
    if b.len() == 0 {
        Seq::empty()
    } else {
        spec_hex_bytes(b.drop_last()) + seq![
            spec_hex_digit((b.last() / 16) as int),
            spec_hex_digit((b.last() % 16) as int),
        ]
    }
}

/// Hex digits are ASCII, and two are produced for each input byte.
pub proof fn lemma_hex_bytes_props(b: Seq<u8>)
    ensures
        spec_hex_bytes(b).len() == 2 * b.len(),
        forall|i: int| 0 <= i < spec_hex_bytes(b).len() ==> spec_hex_bytes(b)[i] < 0x80,
    decreases b.len(),
{
    if b.len() > 0 {
        lemma_hex_bytes_props(b.drop_last());
    }
}

/// Encodes a byte string as lowercase hex.
pub fn hex_lower(input: &[u8]) -> (r: Vec<u8>)
    ensures
        r@ == spec_hex_bytes(input@),
{
    let len = input.len();
    let mut out: Vec<u8> = Vec::new();
    let mut i: usize = 0;
    proof {
        assert(input@.take(0) =~= Seq::<u8>::empty());
    }
    while i < len
        invariant
            len == input@.len(),
            i <= len,
            out@ == spec_hex_bytes(input@.take(i as int)),
        decreases len - i,
    {
        let b = input[i];
        let hi = b / 16;
        let lo = b % 16;
        out.push(if hi < 10 { 48 + hi } else { 87 + hi });
        out.push(if lo < 10 { 48 + lo } else { 87 + lo });
        proof {
            assert(input@.take(i as int + 1).drop_last() =~= input@.take(i as int));
            assert(input@.take(i as int + 1).last() == input@[i as int]);
            assert(out@ =~= spec_hex_bytes(input@.take(i as int + 1)));
        }
        i = i + 1;
    }
    proof {
        assert(input@.take(len as int) =~= input@);
    }
    out
}

/// The password hash bytes: ASCII `md5` followed by the hex digest of the
/// inner digest (of `password || user`) concatenated with the salt.
pub open spec fn spec_md5_hash_bytes(user: Seq<u8>, password: Seq<u8>, salt: Seq<u8>) -> Seq<
    u8,
> {
    seq![109u8, 100u8, 53u8] + spec_hex_bytes(
        md5_of(spec_hex_bytes(md5_of(password + user)) + salt),
    )
}

/// Builds the MD5 challenge response for the given credentials and salt:
/// a 35-character ASCII string.
pub fn build_md5_hash(user: &str, password: &str, salt: &[u8]) -> (r: String)
    requires
        salt@.len() == 4,
    ensures
        encode_utf8(r@) == spec_md5_hash_bytes(user.spec_bytes(), password.spec_bytes(), salt@),
        encode_utf8(r@).len() == 35,
        r@.len() == 35,
{
    let mut inner_input: Vec<u8> = Vec::new();
    inner_input.extend_from_slice(password.as_bytes());
    inner_input.extend_from_slice(user.as_bytes());
    let inner = md5_digest(inner_input.as_slice());
    let hex1 = hex_lower(inner.as_slice());
    let mut outer_input: Vec<u8> = Vec::new();
    outer_input.extend_from_slice(hex1.as_slice());
    outer_input.extend_from_slice(salt);
    let outer = md5_digest(outer_input.as_slice());
    let hex2 = hex_lower(outer.as_slice());
    let mut out: Vec<u8> = Vec::new();
    out.push(109);
    out.push(100);
    out.push(53);
    out.extend_from_slice(hex2.as_slice());
    proof {
        lemma_hex_bytes_props(outer@);
        assert(inner_input@ =~= password.spec_bytes() + user.spec_bytes());
        assert(outer_input@ =~= spec_hex_bytes(md5_of(password.spec_bytes() + user.spec_bytes()))
            + salt@);
        assert(out@ =~= spec_md5_hash_bytes(user.spec_bytes(), password.spec_bytes(), salt@));
    }
    ascii_bytes_to_string(&out)
}

} // verus!
