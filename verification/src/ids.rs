//! Deterministic id derivation.
//!
//! Space, proposal and value ids are derived by hashing canonical seed
//! strings, so that independent services agree on every id. Addresses
//! are first normalised by the mixed-case checksum encoding; the hash
//! digests come from outside crates through trusted wrappers, and the
//! seed construction around them is verified.

use vstd::prelude::*;
use crate::uid::{uid_of_bytes, uid_bytes, Uid};
use vstd::string::StrSliceExecFns;
use vstd::string::StringExecFns;
use md5::Digest;
use md5::Md5;
use alloy::primitives::keccak256;

verus! {

/// The MD5 digest (sixteen bytes) of a byte sequence.
pub uninterp spec fn md5_of(data: Seq<u8>) -> Seq<u8>;

/// The Keccak-256 digest (thirty-two bytes) of a byte sequence.
pub uninterp spec fn keccak_of(data: Seq<u8>) -> Seq<u8>;

/// Relies on the `md5` crate: the digest is a pure function of the
/// input and is sixteen bytes long.
#[verifier::external_body]
fn md5_digest(data: &[u8]) -> (r: Vec<u8>)
    ensures
        r@ == md5_of(data@),
        r@.len() == 16,
{
    let mut hasher = Md5::new();
    hasher.update(data);
    hasher.finalize().to_vec()
}

/// Relies on `alloy::primitives::keccak256`: the digest is a pure
/// function of the input and is thirty-two bytes long.
#[verifier::external_body]
fn keccak_digest(data: &[u8]) -> (r: Vec<u8>)
    ensures
        r@ == keccak_of(data@),
        r@.len() == 32,
{
    keccak256(data).to_vec()
}

/// Relies on `uuid::Uuid::new_v4`: sixteen bytes drawn from the
/// process's random source; nothing is promised of their value.
#[verifier::external_body]
pub(crate) fn random_bytes16() -> (r: Vec<u8>)
    ensures
        r@.len() == 16,
{
    uuid::Uuid::new_v4().into_bytes().to_vec()
}

/// Relies on `str::from_utf8`: bytes below 128 are valid UTF-8 and
/// decode to the characters with the same code points.
#[verifier::external_body]
fn ascii_string_from_bytes(v: Vec<u8>) -> (r: String)
    requires
        forall|i: int| 0 <= i < v@.len() ==> v@[i] < 128,
    ensures
        r@.len() == v@.len(),
        forall|i: int| 0 <= i < v@.len() ==> r@[i] == #[trigger] v@[i] as char,
{
    core::str::from_utf8(v.as_slice()).expect("ascii bytes are valid utf-8").to_string()
}

/// The network tag under which every space id is derived.
pub fn geo_network() -> (r: &'static str)
    ensures
        r@ == "geo"@,
{
    "geo"
}

/// `s` begins with the prefix `0x`, in either case.
pub open spec fn has_hex_prefix(s: Seq<char>) -> bool {
    s.len() >= 2 && s[0] == '0' && (s[1] == 'x' || s[1] == 'X')
}

/// ASCII lowercase of one character.
pub open spec fn lower_char(c: char) -> char {
    if 'A' <= c && c <= 'Z' {
        ((c as u8) + 32) as char
    } else {
        c
    }
}

/// ASCII lowercase, character by character.
pub open spec fn lower_chars(s: Seq<char>) -> Seq<char> {
    Seq::new(s.len(), |i: int| lower_char(s[i]))
}

/// The bytes of an ASCII character sequence.
pub open spec fn ascii_bytes(s: Seq<char>) -> Seq<u8> {
    Seq::new(s.len(), |i: int| s[i] as u8)
}

/// Nibble `i` of a digest: the high half of byte `i/2` for even `i`,
/// the low half for odd `i`.
pub open spec fn nibble(h: Seq<u8>, i: int) -> u8
    recommends 0 <= i, i / 2 < h.len(),
{
    if i % 2 == 0 {
        (h[i / 2] >> 4) as u8
    } else {
        (h[i / 2] & 0x0f) as u8
    }
}

/// One output character of the checksum form: a lowercase hex letter is
/// raised to uppercase exactly when `up` holds.
pub open spec fn cased_char(c: char, up: bool) -> char {
    if 'a' <= c && c <= 'f' && up {
        ((c as u8) - 32) as char
    } else {
        c
    }
}

/// The mixed-case checksum body for a lowercased address: character `i`
/// is uppercased when nibble `i` of the Keccak digest of the lowercase
/// body is eight or more.
pub open spec fn cased_chars(lower: Seq<char>, h: Seq<u8>) -> Seq<char> {
    Seq::new(lower.len(), |i: int| cased_char(lower[i], i < 64 && nibble(h, i) >= 8))
}

/// What [`checksum_address`] returns. A non-ASCII input is returned
/// unchanged; otherwise the `0x` prefix (if any) is dropped, the body is
/// lowercased, and letters are re-cased from the Keccak digest of the
/// lowercase body, behind a fresh `0x` prefix.
pub open spec fn checksum_chars(s: Seq<char>) -> Seq<char> {
    if !vstd::utf8::is_ascii_chars(s) {
        s
    } else {
        let body = if has_hex_prefix(s) { s.skip(2) } else { s };
        let lower = lower_chars(body);
        seq!['0', 'x'] + cased_chars(lower, keccak_of(ascii_bytes(lower)))
    }
}

/// Mixed-case checksum encoding of an address. The result depends only
/// on the input up to ASCII case (and an optional `0x` prefix), which
/// makes every id derived from it case-insensitive in the address.
pub fn checksum_address(addr: &str) -> (r: String)
    ensures
        r@ == checksum_chars(addr@),
{
    if !addr.is_ascii() {
        return addr.to_owned();
    }
    let n = addr.unicode_len();
    let second = if n >= 2 { addr.get_char(1) } else { '0' };
    let body: &str = if n >= 2 && addr.get_char(0) == '0' && (second == 'x' || second == 'X') {
        let b = addr.substring_ascii(2, n);
        proof {
            assert(b@ =~= addr@.skip(2));
        }
        b
    } else {
        proof {
            assert(addr@ =~= addr@.skip(0));
        }
        addr
    };
    let ghost lower = lower_chars(body@);
    let m = body.unicode_len();
    let mut lower_b: Vec<u8> = Vec::new();
    let mut i: usize = 0;
    while i < m
        invariant
            i <= m,
            m == body@.len(),
            body.is_ascii(),
            lower == lower_chars(body@),
            lower_b@.len() == i,
            forall|k: int| 0 <= k < i ==> lower_b@[k] == #[trigger] lower[k] as u8,
            forall|k: int| 0 <= k < i ==> lower_b@[k] < 128,
        decreases m - i,
    {
        let b = body.get_ascii(i);
        let lb: u8 = if 65 <= b && b <= 90 { b + 32 } else { b };
        proof {
            let c = body@[i as int];
            assert(c as u8 == b);
            assert(c <= '\u{7f}');
            assert(lower[i as int] == lower_char(c));
        }
        lower_b.push(lb);
        i = i + 1;
    }
    proof {
        assert forall|k: int| 0 <= k < m implies lower[k] <= '\u{7f}' by {
            assert(body@[k] <= '\u{7f}');
            assert(lower[k] == lower_char(body@[k]));
        }
        assert(ascii_bytes(lower) =~= lower_b@);
    }
    let hash = keccak_digest(lower_b.as_slice());
    let ghost h = keccak_of(ascii_bytes(lower));
    let mut out: Vec<u8> = Vec::new();
    out.push(48);
    out.push(120);
    let mut i: usize = 0;
    while i < m
        invariant
            i <= m,
            m == lower.len(),
            lower_b@.len() == m,
            forall|k: int| 0 <= k < m ==> lower_b@[k] == #[trigger] lower[k] as u8,
            forall|k: int| 0 <= k < m ==> #[trigger] lower[k] <= '\u{7f}',
            hash@ == h,
            hash@.len() == 32,
            out@.len() == i + 2,
            out@[0] == 48u8 && out@[1] == 120u8,
            forall|k: int| 0 <= k < i ==> out@[k + 2] == #[trigger] cased_chars(lower, h)[k] as u8,
            forall|k: int| 0 <= k < out@.len() ==> out@[k] < 128,
        decreases m - i,
    {
        let b = lower_b[i];
        let up: bool = if i < 64 {
            let hb = hash[i / 2];
            let nib: u8 = if i % 2 == 0 { hb >> 4 } else { hb & 0x0f };
            nib >= 8
        } else {
            false
        };
        let ob: u8 = if 97 <= b && b <= 102 && up { b - 32 } else { b };
        proof {
            let c = lower[i as int];
            assert(c as u8 == b);
            assert(c <= '\u{7f}');
            let ups = i < 64 && nibble(h, i as int) >= 8;
            assert(up == ups);
            assert(cased_chars(lower, h)[i as int] == cased_char(c, ups));
        }
        out.push(ob);
        i = i + 1;
    }
    let r = ascii_string_from_bytes(out);
    proof {
        let cs = checksum_chars(addr@);
        assert(cs =~= seq!['0', 'x'] + cased_chars(lower, h));
        assert(r@[0] == '0' && r@[1] == 'x');
        assert forall|k: int| 0 <= k < m implies r@[k + 2] == cased_chars(lower, h)[k] by {
            let c = lower[k];
            assert(c <= '\u{7f}');
            assert(cased_chars(lower, h)[k] == cased_char(c, k < 64 && nibble(h, k) >= 8));
            assert(out@[k + 2] == cased_chars(lower, h)[k] as u8);
        }
        assert(r@ =~= cs);
    }
    r
}

/// The id built from a sixteen-byte digest with the version and variant
/// bits of a version-4 UUID stamped in.
pub open spec fn uid_v4_from(d: Seq<u8>) -> Uid
    recommends d.len() == 16,
{
    uid_of_bytes(
        d.update(6, ((d[6] & 0x0f) | 0x40) as u8).update(8, ((d[8] & 0x3f) | 0x80) as u8),
    )
}

/// Stamp the version-4 bits into a sixteen-byte digest and read it as an id.
fn uid_from_digest(d: Vec<u8>) -> (r: Uid)
    requires
        d@.len() == 16,
    ensures
        r == uid_v4_from(d@),
{
    let ghost d0 = d@;
    let mut v = d;
    let b6 = v[6];
    v.set(6, (b6 & 0x0f) | 0x40);
    let b8 = v[8];
    v.set(8, (b8 & 0x3f) | 0x80);
    proof {
        assert(v@ =~= d0.update(6, ((d0[6] & 0x0f) | 0x40) as u8).update(
            8,
            ((d0[8] & 0x3f) | 0x80) as u8,
        ));
    }
    Uid::from_byte_vec(&v)
}

/// The space id derived for a DAO address on a network.
pub open spec fn spec_space_id(network: Seq<char>, dao: Seq<char>) -> Uid {
    uid_v4_from(md5_of(vstd::utf8::encode_utf8(space_seed(network, dao))))
}

/// The proposal id derived for a `(dao, proposal_id, plugin)` triple.
pub open spec fn spec_proposal_id(dao: Seq<char>, proposal_id: Seq<char>, plugin: Seq<char>) -> Uid {
    uid_v4_from(md5_of(vstd::utf8::encode_utf8(proposal_seed(dao, proposal_id, plugin))))
}

/// The seed string a space id is hashed from.
pub open spec fn space_seed(network: Seq<char>, dao: Seq<char>) -> Seq<char> {
    network + seq![':'] + checksum_chars(dao)
}

/// A space id: the MD5 of `<network>:<checksum(dao_address)>` read as a
/// version-4 UUID. Deterministic, and case-insensitive in the address.
pub fn derive_space_id(network: &str, dao_address: &str) -> (r: Uid)
    ensures
        r == uid_v4_from(md5_of(vstd::utf8::encode_utf8(space_seed(network@, dao_address@)))),
{
    let ck = checksum_address(dao_address);
    let mut seed = String::from_str(network);
    seed.append(":");
    seed.append(ck.as_str());
    proof {
        reveal_strlit(":");
        assert(":"@ =~= seq![':']);
        assert(seed@ =~= space_seed(network@, dao_address@));
    }
    let d = md5_digest(seed.as_str().as_bytes());
    uid_from_digest(d)
}

/// The seed string a derived proposal id is hashed from.
pub open spec fn proposal_seed(dao: Seq<char>, proposal_id: Seq<char>, plugin: Seq<char>) -> Seq<
    char,
> {
    checksum_chars(dao) + seq![':'] + proposal_id + seq![':'] + checksum_chars(plugin)
}

/// A derived proposal id: the MD5 of
/// `<checksum(dao)>:<proposal_id>:<checksum(plugin)>` read as a
/// version-4 UUID.
pub fn derive_proposal_id(dao_address: &str, proposal_id: &str, plugin_address: &str) -> (r: Uid)
    ensures
        r == uid_v4_from(
            md5_of(
                vstd::utf8::encode_utf8(
                    proposal_seed(dao_address@, proposal_id@, plugin_address@),
                ),
            ),
        ),
{
    let ck_dao = checksum_address(dao_address);
    let ck_plugin = checksum_address(plugin_address);
    let mut seed = ck_dao;
    seed.append(":");
    seed.append(proposal_id);
    seed.append(":");
    seed.append(ck_plugin.as_str());
    proof {
        reveal_strlit(":");
        assert(":"@ =~= seq![':']);
        assert(seed@ =~= proposal_seed(dao_address@, proposal_id@, plugin_address@));
    }
    let d = md5_digest(seed.as_str().as_bytes());
    uid_from_digest(d)
}

/// The seed bytes a value id is hashed from: the raw bytes of the
/// entity, property and space ids, in that order.
pub open spec fn value_seed(entity: Uid, property: Uid, space: Uid) -> Seq<u8> {
    uid_bytes(entity) + uid_bytes(property) + uid_bytes(space)
}

/// A value id: the MD5 of the entity, property and space id bytes read
/// as a version-4 UUID. A pure function of the triple; the value's
/// content plays no part.
pub fn derive_value_id(entity: &Uid, property: &Uid, space: &Uid) -> (r: Uid)
    ensures
        r == uid_v4_from(md5_of(value_seed(*entity, *property, *space))),
{
    let mut data = entity.to_bytes();
    let mut pb = property.to_bytes();
    let mut sb = space.to_bytes();
    data.append(&mut pb);
    data.append(&mut sb);
    proof {
        assert(data@ =~= value_seed(*entity, *property, *space));
    }
    let d = md5_digest(data.as_slice());
    uid_from_digest(d)
}

} // verus!
