//! 128-bit identifiers.
//!
//! Every row the indexer writes is keyed by a 128-bit id. The type here
//! holds the sixteen bytes as two 64-bit halves, big-endian, and offers
//! the conversions the pipeline needs: from raw bytes, to and from the
//! canonical lowercase hyphenated text form.

use vstd::prelude::*;

verus! {

/// A 128-bit identifier, stored as two big-endian 64-bit halves.
#[derive(Clone, Copy, Debug, PartialEq, Eq, Structural, Hash)]
pub struct Uid {
    pub hi: u64,
    pub lo: u64,
}

/// Error for id material that cannot be turned into a [`Uid`].
#[derive(Clone, Debug, PartialEq, Eq, Structural)]
pub enum IdError {
    DecodeError,
}

/// The big-endian 64-bit value assembled from eight bytes.
pub open spec fn u64_from_bytes(b0: u8, b1: u8, b2: u8, b3: u8, b4: u8, b5: u8, b6: u8, b7: u8) -> u64 {
    ((b0 as u64) << 56) | ((b1 as u64) << 48) | ((b2 as u64) << 40) | ((b3 as u64) << 32)
        | ((b4 as u64) << 24) | ((b5 as u64) << 16) | ((b6 as u64) << 8) | (b7 as u64)
}

/// Byte `j` (0 = most significant) of a 64-bit value.
pub open spec fn byte_of_u64(v: u64, j: u64) -> u8
    recommends j < 8,
{
    ((v >> ((7 - j) * 8)) & 0xff) as u8
}

/// The sixteen bytes of a [`Uid`], most significant first.
pub open spec fn uid_bytes(u: Uid) -> Seq<u8> {
    Seq::new(16, |i: int| if i < 8 { byte_of_u64(u.hi, i as u64) } else { byte_of_u64(u.lo, (i - 8) as u64) })
}

/// The [`Uid`] assembled from sixteen bytes, most significant first.
pub open spec fn uid_of_bytes(s: Seq<u8>) -> Uid
    recommends s.len() == 16,
{
    Uid {
        hi: u64_from_bytes(s[0], s[1], s[2], s[3], s[4], s[5], s[6], s[7]),
        lo: u64_from_bytes(s[8], s[9], s[10], s[11], s[12], s[13], s[14], s[15]),
    }
}

proof fn lemma_u64_bytes_roundtrip(b0: u8, b1: u8, b2: u8, b3: u8, b4: u8, b5: u8, b6: u8, b7: u8)
    ensures
        byte_of_u64(u64_from_bytes(b0, b1, b2, b3, b4, b5, b6, b7), 0) == b0,
        byte_of_u64(u64_from_bytes(b0, b1, b2, b3, b4, b5, b6, b7), 1) == b1,
        byte_of_u64(u64_from_bytes(b0, b1, b2, b3, b4, b5, b6, b7), 2) == b2,
        byte_of_u64(u64_from_bytes(b0, b1, b2, b3, b4, b5, b6, b7), 3) == b3,
        byte_of_u64(u64_from_bytes(b0, b1, b2, b3, b4, b5, b6, b7), 4) == b4,
        byte_of_u64(u64_from_bytes(b0, b1, b2, b3, b4, b5, b6, b7), 5) == b5,
        byte_of_u64(u64_from_bytes(b0, b1, b2, b3, b4, b5, b6, b7), 6) == b6,
        byte_of_u64(u64_from_bytes(b0, b1, b2, b3, b4, b5, b6, b7), 7) == b7,
{
    assert({
        let v = ((b0 as u64) << 56) | ((b1 as u64) << 48) | ((b2 as u64) << 40) | ((b3 as u64) << 32)
            | ((b4 as u64) << 24) | ((b5 as u64) << 16) | ((b6 as u64) << 8) | (b7 as u64);
        ((v >> 56) & 0xff) == b0 && ((v >> 48) & 0xff) == b1 && ((v >> 40) & 0xff) == b2
            && ((v >> 32) & 0xff) == b3 && ((v >> 24) & 0xff) == b4 && ((v >> 16) & 0xff) == b5
            && ((v >> 8) & 0xff) == b6 && ((v >> 0) & 0xff) == b7
    }) by (bit_vector);
}

/// The sixteen bytes of a [`Uid`] round-trip: reading the bytes of the
/// id built from a sixteen-byte sequence gives that sequence back.
pub proof fn lemma_uid_bytes_roundtrip(s: Seq<u8>)
    requires
        s.len() == 16,
    ensures
        uid_bytes(uid_of_bytes(s)) =~= s,
{
    lemma_u64_bytes_roundtrip(s[0], s[1], s[2], s[3], s[4], s[5], s[6], s[7]);
    lemma_u64_bytes_roundtrip(s[8], s[9], s[10], s[11], s[12], s[13], s[14], s[15]);
}

impl Uid {
    /// Build an id from exactly sixteen bytes, most significant first.
    pub fn from_bytes(bytes: &[u8; 16]) -> (r: Uid)
        ensures
            r == uid_of_bytes(bytes@),
            uid_bytes(r) =~= bytes@,
    {
        let hi: u64 = ((bytes[0] as u64) << 56) | ((bytes[1] as u64) << 48)
            | ((bytes[2] as u64) << 40) | ((bytes[3] as u64) << 32)
            | ((bytes[4] as u64) << 24) | ((bytes[5] as u64) << 16)
            | ((bytes[6] as u64) << 8) | (bytes[7] as u64);
        let lo: u64 = ((bytes[8] as u64) << 56) | ((bytes[9] as u64) << 48)
            | ((bytes[10] as u64) << 40) | ((bytes[11] as u64) << 32)
            | ((bytes[12] as u64) << 24) | ((bytes[13] as u64) << 16)
            | ((bytes[14] as u64) << 8) | (bytes[15] as u64);
        proof {
            lemma_uid_bytes_roundtrip(bytes@);
        }
        Uid { hi, lo }
    }

    /// The sixteen bytes of this id, most significant first.
    pub fn to_bytes(&self) -> (r: Vec<u8>)
        ensures
            r@ =~= uid_bytes(*self),
    {
        let mut r: Vec<u8> = Vec::new();
        r.push(((self.hi >> 56) & 0xff) as u8);
        r.push(((self.hi >> 48) & 0xff) as u8);
        r.push(((self.hi >> 40) & 0xff) as u8);
        r.push(((self.hi >> 32) & 0xff) as u8);
        r.push(((self.hi >> 24) & 0xff) as u8);
        r.push(((self.hi >> 16) & 0xff) as u8);
        r.push(((self.hi >> 8) & 0xff) as u8);
        r.push((self.hi & 0xff) as u8);
        r.push(((self.lo >> 56) & 0xff) as u8);
        r.push(((self.lo >> 48) & 0xff) as u8);
        r.push(((self.lo >> 40) & 0xff) as u8);
        r.push(((self.lo >> 32) & 0xff) as u8);
        r.push(((self.lo >> 24) & 0xff) as u8);
        r.push(((self.lo >> 16) & 0xff) as u8);
        r.push(((self.lo >> 8) & 0xff) as u8);
        r.push((self.lo & 0xff) as u8);
        proof {
            assert(forall|v: u64| #![auto] ((v >> 0) & 0xff) == (v & 0xff)) by (bit_vector);
        }
        r
    }

    /// The all-zero id.
    pub fn nil() -> (r: Uid)
        ensures
            r.hi == 0 && r.lo == 0,
    {
        Uid { hi: 0, lo: 0 }
    }
}

/// True for the characters `0-9`, `a-f` and `A-F`.
pub open spec fn is_hex(c: char) -> bool {
    ('0' <= c && c <= '9') || ('a' <= c && c <= 'f') || ('A' <= c && c <= 'F')
}

/// The numeric value of a hex digit.
pub open spec fn hex_v(c: char) -> u8
    recommends is_hex(c),
{
    if c <= '9' {
        (c as u8 - 48) as u8
    } else if c <= 'F' {
        (c as u8 - 55) as u8
    } else {
        (c as u8 - 87) as u8
    }
}

/// True when `h` is exactly thirty-two hex digits.
pub open spec fn hex32_ok(h: Seq<char>) -> bool {
    h.len() == 32 && forall|i: int| 0 <= i < 32 ==> is_hex(#[trigger] h[i])
}

/// The id spelled by thirty-two hex digits, most significant first.
pub open spec fn uid_from_hex32(h: Seq<char>) -> Uid
    recommends hex32_ok(h),
{
    uid_of_bytes(Seq::new(16, |i: int| (hex_v(h[2 * i]) * 16 + hex_v(h[2 * i + 1])) as u8))
}

/// The thirty-two digits of the canonical hyphenated form, hyphens removed.
pub open spec fn strip_hyphens36(s: Seq<char>) -> Seq<char>
    recommends s.len() == 36,
{
    s.subrange(0, 8) + s.subrange(9, 13) + s.subrange(14, 18) + s.subrange(19, 23)
        + s.subrange(24, 36)
}

/// The hyphenated `8-4-4-4-12` layout, hex digits in either case.
pub open spec fn parse_hyphenated_chars(s: Seq<char>) -> Option<Uid>
    recommends s.len() == 36,
{
    if s[8] == '-' && s[13] == '-' && s[18] == '-' && s[23] == '-' && hex32_ok(
        strip_hyphens36(s),
    ) {
        Some(uid_from_hex32(strip_hyphens36(s)))
    } else {
        None
    }
}

/// `s` begins with the prefix `urn:uuid:`, letters in either case.
pub open spec fn urn_prefix_ok(s: Seq<char>) -> bool {
    &&& s.len() >= 9
    &&& (s[0] == 'u' || s[0] == 'U')
    &&& (s[1] == 'r' || s[1] == 'R')
    &&& (s[2] == 'n' || s[2] == 'N')
    &&& s[3] == ':'
    &&& (s[4] == 'u' || s[4] == 'U')
    &&& (s[5] == 'u' || s[5] == 'U')
    &&& (s[6] == 'i' || s[6] == 'I')
    &&& (s[7] == 'd' || s[7] == 'D')
    &&& s[8] == ':'
}

/// What [`Uid::parse_str`] accepts: the plain thirty-two-digit form,
/// the hyphenated `8-4-4-4-12` form, the hyphenated form in braces, or
/// the hyphenated form behind a `urn:uuid:` prefix — hex digits and the
/// prefix letters in either case.
pub open spec fn parse_uuid_chars(s: Seq<char>) -> Option<Uid> {
    if s.len() == 32 && hex32_ok(s) {
        Some(uid_from_hex32(s))
    } else if s.len() == 36 {
        parse_hyphenated_chars(s)
    } else if s.len() == 38 && s[0] == '{' && s[37] == '}' {
        parse_hyphenated_chars(s.subrange(1, 37))
    } else if s.len() == 45 && urn_prefix_ok(s) {
        parse_hyphenated_chars(s.skip(9))
    } else {
        None
    }
}

fn is_hex_digit(c: char) -> (b: bool)
    ensures
        b == is_hex(c),
{
    ('0' <= c && c <= '9') || ('a' <= c && c <= 'f') || ('A' <= c && c <= 'F')
}

fn hex_digit_value(c: char) -> (v: u8)
    requires
        is_hex(c),
    ensures
        v == hex_v(c),
{
    if c <= '9' {
        c as u8 - 48
    } else if c <= 'F' {
        c as u8 - 55
    } else {
        c as u8 - 87
    }
}

impl Uid {
    /// Parse the text form of an id: thirty-two hex digits, plain or in
    /// the hyphenated `8-4-4-4-12` layout, the latter also in braces or
    /// behind a `urn:uuid:` prefix. Anything else gives `None`.
    pub fn parse_str(s: &str) -> (r: Option<Uid>)
        ensures
            r == parse_uuid_chars(s@),
    {
        let n = s.unicode_len();
        if n == 32 {
            match Self::hex_chars_to_uid(s, false) {
                Some(u) => Some(u),
                None => {
                    proof {
                        let h = s@;
                        assert(!hex32_ok(h));
                    }
                    None
                },
            }
        } else if n == 36 {
            Self::parse_hyphenated(s)
        } else if n == 38 {
            if s.get_char(0) != '{' || s.get_char(37) != '}' {
                return None;
            }
            let inner = s.substring_char(1, 37);
            proof {
                assert(inner@ =~= s@.subrange(1, 37));
            }
            Self::parse_hyphenated(inner)
        } else if n == 45 {
            let p0 = s.get_char(0);
            let p1 = s.get_char(1);
            let p2 = s.get_char(2);
            let p4 = s.get_char(4);
            let p5 = s.get_char(5);
            let p6 = s.get_char(6);
            let p7 = s.get_char(7);
            let prefix_ok = (p0 == 'u' || p0 == 'U') && (p1 == 'r' || p1 == 'R') && (p2 == 'n'
                || p2 == 'N') && s.get_char(3) == ':' && (p4 == 'u' || p4 == 'U') && (p5 == 'u'
                || p5 == 'U') && (p6 == 'i' || p6 == 'I') && (p7 == 'd' || p7 == 'D')
                && s.get_char(8) == ':';
            if !prefix_ok {
                return None;
            }
            let inner = s.substring_char(9, 45);
            proof {
                assert(inner@ =~= s@.skip(9));
            }
            Self::parse_hyphenated(inner)
        } else {
            None
        }
    }

    /// Parse the hyphenated `8-4-4-4-12` layout.
    fn parse_hyphenated(s: &str) -> (r: Option<Uid>)
        requires
            s@.len() == 36,
        ensures
            r == parse_hyphenated_chars(s@),
    {
        if s.get_char(8) != '-' || s.get_char(13) != '-' || s.get_char(18) != '-'
            || s.get_char(23) != '-' {
            return None;
        }
        Self::hex_chars_to_uid(s, true)
    }

    /// Read thirty-two hex digits out of `s`; with `hyphenated` the four
    /// hyphen positions of the canonical layout are skipped.
    fn hex_chars_to_uid(s: &str, hyphenated: bool) -> (r: Option<Uid>)
        requires
            !hyphenated ==> s@.len() == 32,
            hyphenated ==> s@.len() == 36,
        ensures
            ({
                let h = if hyphenated { strip_hyphens36(s@) } else { s@ };
                match r {
                    Some(u) => hex32_ok(h) && u == uid_from_hex32(h),
                    None => !hex32_ok(h),
                }
            }),
    {
        proof {
            if hyphenated {
                assert(strip_hyphens36(s@).len() == 32);
            }
        }
        let ghost h = if hyphenated { strip_hyphens36(s@) } else { s@ };
        let mut bytes: Vec<u8> = Vec::new();
        let mut j: usize = 0;
        while j < 16
            invariant
                j <= 16,
                bytes@.len() == j,
                !hyphenated ==> s@.len() == 32,
                hyphenated ==> s@.len() == 36,
                h == if hyphenated { strip_hyphens36(s@) } else { s@ },
                h.len() == 32,
                forall|k: int| 0 <= k < 2 * j ==> is_hex(#[trigger] h[k]),
                forall|k: int| 0 <= k < j ==> bytes@[k] == (hex_v(h[2 * k]) * 16 + hex_v(
                    h[2 * k + 1],
                )) as u8,
            decreases 16 - j,
        {
            let i0 = Self::digit_position(2 * j, hyphenated);
            let i1 = Self::digit_position(2 * j + 1, hyphenated);
            proof {
                Self::lemma_digit_position(2 * (j as int), hyphenated, s@);
                Self::lemma_digit_position(2 * (j as int) + 1, hyphenated, s@);
            }
            let c0 = s.get_char(i0);
            let c1 = s.get_char(i1);
            if !is_hex_digit(c0) || !is_hex_digit(c1) {
                return None;
            }
            let b: u8 = hex_digit_value(c0) * 16 + hex_digit_value(c1);
            bytes.push(b);
            j = j + 1;
        }
        proof {
            assert(hex32_ok(h));
            assert(bytes@ =~= Seq::new(16, |i: int| (hex_v(h[2 * i]) * 16 + hex_v(
                h[2 * i + 1],
            )) as u8));
        }
        Some(Self::from_byte_vec(&bytes))
    }

    /// Where the `k`-th hex digit stands in the text: in the hyphenated
    /// layout the four hyphens shift the later groups right.
    fn digit_position(k: usize, hyphenated: bool) -> (r: usize)
        requires
            k < 32,
        ensures
            r == Self::spec_digit_position(k as int, hyphenated),
    {
        if !hyphenated {
            k
        } else if k < 8 {
            k
        } else if k < 12 {
            k + 1
        } else if k < 16 {
            k + 2
        } else if k < 20 {
            k + 3
        } else {
            k + 4
        }
    }

    pub open spec fn spec_digit_position(k: int, hyphenated: bool) -> int {
        if !hyphenated {
            k
        } else if k < 8 {
            k
        } else if k < 12 {
            k + 1
        } else if k < 16 {
            k + 2
        } else if k < 20 {
            k + 3
        } else {
            k + 4
        }
    }

    proof fn lemma_digit_position(k: int, hyphenated: bool, s: Seq<char>)
        requires
            0 <= k < 32,
            !hyphenated ==> s.len() == 32,
            hyphenated ==> s.len() == 36,
        ensures
            0 <= Self::spec_digit_position(k, hyphenated) < s.len(),
            (if hyphenated { strip_hyphens36(s) } else { s })[k] == s[Self::spec_digit_position(
                k,
                hyphenated,
            )],
    {
    }

    /// Build an id from a vector holding exactly sixteen bytes.
    pub fn from_byte_vec(bytes: &Vec<u8>) -> (r: Uid)
        requires
            bytes@.len() == 16,
        ensures
            r == uid_of_bytes(bytes@),
            uid_bytes(r) =~= bytes@,
    {
        let hi: u64 = ((bytes[0] as u64) << 56) | ((bytes[1] as u64) << 48)
            | ((bytes[2] as u64) << 40) | ((bytes[3] as u64) << 32)
            | ((bytes[4] as u64) << 24) | ((bytes[5] as u64) << 16)
            | ((bytes[6] as u64) << 8) | (bytes[7] as u64);
        let lo: u64 = ((bytes[8] as u64) << 56) | ((bytes[9] as u64) << 48)
            | ((bytes[10] as u64) << 40) | ((bytes[11] as u64) << 32)
            | ((bytes[12] as u64) << 24) | ((bytes[13] as u64) << 16)
            | ((bytes[14] as u64) << 8) | (bytes[15] as u64);
        proof {
            lemma_uid_bytes_roundtrip(bytes@);
        }
        Uid { hi, lo }
    }
}

/// Turn raw id material into the sixteen-byte form used everywhere.
/// Succeeds exactly on input of length sixteen, returning those bytes.
pub fn transform_id_bytes(bytes: Vec<u8>) -> (r: Result<[u8; 16], IdError>)
    ensures
        r is Ok <==> bytes@.len() == 16,
        r is Ok ==> r->Ok_0@ =~= bytes@,
{
    if bytes.len() != 16 {
        return Err(IdError::DecodeError);
    }
    let a: [u8; 16] = [
        bytes[0], bytes[1], bytes[2], bytes[3], bytes[4], bytes[5], bytes[6], bytes[7],
        bytes[8], bytes[9], bytes[10], bytes[11], bytes[12], bytes[13], bytes[14], bytes[15],
    ];
    Ok(a)
}

} // verus!
