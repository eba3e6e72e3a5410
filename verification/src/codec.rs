//! The edit payload's wire schema: a protobuf encoding, decoded by a
//! verified parser.
//!
//! The layout, field by field (all ids are `bytes`, all text `string`):
//!
//! - `Edit`: 1 `id`, 2 `name`, 3 repeated `ops`, 4 repeated `authors`,
//!   5 optional `language`.
//! - `Op`: a payload of exactly one of 1 `update_entity`, 2
//!   `unset_entity_values`, 3 `create_property`, 4 `create_relation`,
//!   5 `update_relation`, 6 `delete_relation` (bytes).
//! - `Entity`: 1 `id`, 2 repeated `values`.
//! - `Value`: 1 `property`, 2 `value`, 3 `options`.
//! - `ValueOptions`: 1 `language`, 2 `unit`.
//! - `Property`: 1 `id`, 2 `data_type` (1 text, 2 number, 3 checkbox,
//!   4 time, 5 point, 6 relation; anything else is malformed).
//! - `Relation`: 1 `id`, 2 `type`, 3 `entity`, 4 `from_entity`,
//!   5 `from_space`, 6 `from_version`, 7 `to_entity`, 8 `to_space`,
//!   9 `to_version`, 10 `position`, 11 `verified` (varint bool).
//! - `RelationUpdate`: 1 `id`, 2 `from_space`, 3 `from_version`,
//!   4 `to_space`, 5 `to_version`, 6 `position`, 7 `verified`.
//!
//! Decoding follows the usual wire rules: within a message the last
//! occurrence of a scalar field wins, repeated fields accumulate in
//! order, unknown fields are skipped by their wire type, and text must
//! be valid UTF-8. The parser is specified by the `sp_*` functions and
//! the executable decoder is proved to return exactly what they say.

use vstd::prelude::*;
use vstd::slice::slice_subrange;
use crate::edit::{
    Edit, Entity, Op, Payload, PbDataType, Property, Relation, RelationUpdate, UnsetEntityValues,
    Value, ValueOptions,
};
use crate::wire::utf8_chars;

verus! {

// ---------------------------------------------------------------------
// The decoded tree, at specification level.
// ---------------------------------------------------------------------

pub struct ValueOptionsV {
    pub language: Option<Seq<char>>,
    pub unit: Option<Seq<char>>,
}

pub struct ValueV {
    pub property: Seq<u8>,
    pub value: Seq<char>,
    pub options: Option<ValueOptionsV>,
}

pub struct EntityV {
    pub id: Seq<u8>,
    pub values: Seq<ValueV>,
}

pub struct UnsetEntityValuesV {
    pub id: Seq<u8>,
    pub properties: Seq<Seq<u8>>,
}

pub struct PropertyV {
    pub id: Seq<u8>,
    pub data_type: PbDataType,
}

pub struct RelationV {
    pub id: Seq<u8>,
    pub type_id: Seq<u8>,
    pub entity: Seq<u8>,
    pub from_entity: Seq<u8>,
    pub from_space: Option<Seq<u8>>,
    pub from_version: Option<Seq<u8>>,
    pub to_entity: Seq<u8>,
    pub to_space: Option<Seq<u8>>,
    pub to_version: Option<Seq<u8>>,
    pub position: Option<Seq<char>>,
    pub verified: Option<bool>,
}

pub struct RelationUpdateV {
    pub id: Seq<u8>,
    pub from_space: Option<Seq<u8>>,
    pub from_version: Option<Seq<u8>>,
    pub to_space: Option<Seq<u8>>,
    pub to_version: Option<Seq<u8>>,
    pub position: Option<Seq<char>>,
    pub verified: Option<bool>,
}

pub enum PayloadV {
    UpdateEntity(EntityV),
    UnsetEntityValues(UnsetEntityValuesV),
    CreateProperty(PropertyV),
    CreateRelation(RelationV),
    UpdateRelation(RelationUpdateV),
    DeleteRelation(Seq<u8>),
}

pub struct OpV {
    pub payload: Option<PayloadV>,
}

pub struct EditV {
    pub id: Seq<u8>,
    pub name: Seq<char>,
    pub ops: Seq<OpV>,
    pub authors: Seq<Seq<u8>>,
    pub language: Option<Seq<char>>,
}

/// The view of an optional string.
pub open spec fn opt_text_view(o: Option<String>) -> Option<Seq<char>> {
    match o {
        Some(s) => Some(s@),
        None => None,
    }
}

/// The view of an optional byte field.
pub open spec fn opt_bytes_view(o: Option<Vec<u8>>) -> Option<Seq<u8>> {
    match o {
        Some(b) => Some(b@),
        None => None,
    }
}

pub open spec fn options_view(o: ValueOptions) -> ValueOptionsV {
    ValueOptionsV { language: opt_text_view(o.language), unit: opt_text_view(o.unit) }
}

pub open spec fn value_view(v: Value) -> ValueV {
    ValueV {
        property: v.property@,
        value: v.value@,
        options: match v.options {
            Some(o) => Some(options_view(o)),
            None => None,
        },
    }
}

pub open spec fn values_view(s: Seq<Value>) -> Seq<ValueV> {
    Seq::new(s.len(), |i: int| value_view(s[i]))
}

pub open spec fn entity_view(e: Entity) -> EntityV {
    EntityV { id: e.id@, values: values_view(e.values@) }
}

pub open spec fn bytes_seq_view(s: Seq<Vec<u8>>) -> Seq<Seq<u8>> {
    Seq::new(s.len(), |i: int| s[i]@)
}

pub open spec fn unset_view(u: UnsetEntityValues) -> UnsetEntityValuesV {
    UnsetEntityValuesV { id: u.id@, properties: bytes_seq_view(u.properties@) }
}

pub open spec fn property_view(p: Property) -> PropertyV {
    PropertyV { id: p.id@, data_type: p.data_type }
}

pub open spec fn relation_view(r: Relation) -> RelationV {
    RelationV {
        id: r.id@,
        type_id: r.type_id@,
        entity: r.entity@,
        from_entity: r.from_entity@,
        from_space: opt_bytes_view(r.from_space),
        from_version: opt_bytes_view(r.from_version),
        to_entity: r.to_entity@,
        to_space: opt_bytes_view(r.to_space),
        to_version: opt_bytes_view(r.to_version),
        position: opt_text_view(r.position),
        verified: r.verified,
    }
}

pub open spec fn relation_update_view(u: RelationUpdate) -> RelationUpdateV {
    RelationUpdateV {
        id: u.id@,
        from_space: opt_bytes_view(u.from_space),
        from_version: opt_bytes_view(u.from_version),
        to_space: opt_bytes_view(u.to_space),
        to_version: opt_bytes_view(u.to_version),
        position: opt_text_view(u.position),
        verified: u.verified,
    }
}

pub open spec fn payload_view(p: Payload) -> PayloadV {
    match p {
        Payload::UpdateEntity(e) => PayloadV::UpdateEntity(entity_view(e)),
        Payload::UnsetEntityValues(u) => PayloadV::UnsetEntityValues(unset_view(u)),
        Payload::CreateProperty(pr) => PayloadV::CreateProperty(property_view(pr)),
        Payload::CreateRelation(r) => PayloadV::CreateRelation(relation_view(r)),
        Payload::UpdateRelation(u) => PayloadV::UpdateRelation(relation_update_view(u)),
        Payload::DeleteRelation(b) => PayloadV::DeleteRelation(b@),
    }
}

pub open spec fn op_view(op: Op) -> OpV {
    OpV {
        payload: match op.payload {
            Some(p) => Some(payload_view(p)),
            None => None,
        },
    }
}

pub open spec fn ops_view(s: Seq<Op>) -> Seq<OpV> {
    Seq::new(s.len(), |i: int| op_view(s[i]))
}

/// What a decoded edit denotes.
pub open spec fn edit_view(e: Edit) -> EditV {
    EditV {
        id: e.id@,
        name: e.name@,
        ops: ops_view(e.ops@),
        authors: bytes_seq_view(e.authors@),
        language: opt_text_view(e.language),
    }
}

// ---------------------------------------------------------------------
// Varints.
// ---------------------------------------------------------------------

/// The number a varint's bytes denote: seven payload bits per byte,
/// least significant group first.
pub open spec fn vi_val(s: Seq<u8>) -> nat
    decreases s.len(),
{
    if s.len() == 0 {
        0
    } else {
        (s[0] & 0x7f) as nat + 128 * vi_val(s.skip(1))
    }
}

/// How many bytes the varint starting at `pos` spans: up to the first
/// byte with a clear continuation bit, at most ten bytes, and not past
/// the end.
pub open spec fn vi_len_at(s: Seq<u8>, pos: int) -> Option<int>
    decreases s.len() - pos,
{
    if pos < 0 || pos >= s.len() {
        None
    } else if s[pos] < 0x80 {
        Some(1)
    } else {
        match vi_len_at(s, pos + 1) {
            Some(n) => if n + 1 <= 10 {
                Some(n + 1)
            } else {
                None
            },
            None => None,
        }
    }
}

/// The varint at `pos`: its value and the position after it, or nothing
/// where the bytes are not a varint that fits sixty-four bits.
pub open spec fn sp_varint(s: Seq<u8>, pos: int) -> Option<(u64, int)> {
    match vi_len_at(s, pos) {
        Some(n) => {
            let v = vi_val(s.subrange(pos, pos + n));
            if v < 0x10000000000000000 {
                Some(((v as u64), pos + n))
            } else {
                None
            }
        },
        None => None,
    }
}

/// One hundred twenty-eight to the `n`.
pub open spec fn pow128(n: nat) -> nat
    decreases n,
{
    if n == 0 {
        1
    } else {
        128 * pow128((n - 1) as nat)
    }
}

/// The low seven bits of a byte are below one hundred twenty-eight.
proof fn lemma_low7(b: u8)
    ensures
        (b & 0x7f) < 128,
{
    assert((b & 0x7f) < 128) by (bit_vector);
}

/// A varint value is bounded by the capacity of its byte count.
proof fn lemma_vi_val_bound(s: Seq<u8>)
    ensures
        vi_val(s) < pow128(s.len()),
    decreases s.len(),
{
    if s.len() > 0 {
        lemma_vi_val_bound(s.skip(1));
        let c = (s[0] & 0x7f) as nat;
        let rest = vi_val(s.skip(1));
        let cap = pow128((s.len() - 1) as nat);
        lemma_low7(s[0]);
        assert(c + 128 * rest < 128 * cap) by (nonlinear_arith)
            requires
                c < 128,
                rest < cap,
        ;
    }
}

/// Appending one more byte adds its payload bits at the next position.
proof fn lemma_vi_val_push(s: Seq<u8>, b: u8)
    ensures
        vi_val(s.push(b)) == vi_val(s) + (b & 0x7f) * pow128(s.len()),
    decreases s.len(),
{
    let c = (b & 0x7f) as nat;
    if s.len() == 0 {
        let t = s.push(b);
        assert(t[0] == b);
        assert(t.skip(1) =~= Seq::<u8>::empty());
        assert(vi_val(t) == (t[0] & 0x7f) as nat + 128 * vi_val(t.skip(1)));
        assert(vi_val(t.skip(1)) == 0);
        assert(c * pow128(0) == c) by (nonlinear_arith);
    } else {
        assert(s.push(b).skip(1) =~= s.skip(1).push(b));
        lemma_vi_val_push(s.skip(1), b);
        assert(s.push(b)[0] == s[0]);
        let c0 = (s[0] & 0x7f) as nat;
        let rest = vi_val(s.skip(1));
        let p = pow128((s.len() - 1) as nat);
        assert(vi_val(s.push(b)) == c0 + 128 * (rest + c * p));
        assert(c0 + 128 * (rest + c * p) == (c0 + 128 * rest) + c * (128 * p))
            by (nonlinear_arith);
        assert(pow128(s.len()) == 128 * p);
        assert(c * (128 * p) == c * pow128(s.len()));
    }
}

/// Where the continuation bits run for `k` bytes and then stop, the
/// varint spans exactly `k + 1` bytes.
proof fn lemma_vi_len_found(s: Seq<u8>, pos: int, k: int)
    requires
        0 <= pos,
        0 <= k <= 9,
        pos + k < s.len(),
        forall|j: int| pos <= j < pos + k ==> #[trigger] s[j] >= 0x80,
        s[pos + k] < 0x80,
    ensures
        vi_len_at(s, pos) == Some(k + 1),
    decreases k,
{
    if k == 0 {
    } else {
        assert(s[pos] >= 0x80);
        lemma_vi_len_found(s, pos + 1, k - 1);
    }
}

/// Where the continuation bits run unbroken for `k` bytes, any varint
/// at `pos` spans more than `k` bytes.
proof fn lemma_vi_len_none(s: Seq<u8>, pos: int, k: int)
    requires
        0 <= pos,
        0 <= k,
        forall|j: int| pos <= j < pos + k ==> #[trigger] s[j] >= 0x80,
    ensures
        vi_len_at(s, pos) is None || vi_len_at(s, pos)->Some_0 > k,
    decreases k,
{
    if pos >= s.len() {
    } else if k == 0 {
        if vi_len_at(s, pos) is Some {
            lemma_vi_len_within(s, pos);
        }
    } else {
        assert(s[pos] >= 0x80);
        lemma_vi_len_none(s, pos + 1, k - 1);
    }
}

/// Read the varint at `pos`.
fn read_varint(s: &[u8], pos: usize) -> (r: Option<(u64, usize)>)
    requires
        pos <= s@.len(),
        s@.len() < 0x10000000000000,
    ensures
        match r {
            Some((v, next)) => sp_varint(s@, pos as int) == Some((v, next as int)),
            None => sp_varint(s@, pos as int) is None,
        },
{
    let n = s.len();
    let mut k: usize = 0;
    let mut acc: u128 = 0;
    let mut mult: u128 = 1;
    loop
        invariant
            0 <= k <= 10,
            pos <= n == s@.len(),
            n < 0x10000000000000,
            mult == pow128(k as nat),
            acc == vi_val(s@.subrange(pos as int, pos + k)),
            acc < mult,
            forall|j: int| pos <= j < pos + k ==> #[trigger] s@[j] >= 0x80,
        decreases 10 - k,
    {
        proof {
            lemma_pow128_bound(k as nat);
        }
        if k == 10 || n - pos <= k {
            proof {
                lemma_vi_len_none(s@, pos as int, k as int);
                if vi_len_at(s@, pos as int) is Some {
                    let m = vi_len_at(s@, pos as int)->Some_0;
                    assert(m > k as int);
                    if (k as int) < 10 {
                        lemma_vi_len_within(s@, pos as int);
                    } else {
                        lemma_vi_len_cap(s@, pos as int);
                    }
                }
            }
            return None;
        }
        let b = *vstd::slice::slice_index_get(s, pos + k);
        let chunk: u128 = (b & 0x7f) as u128;
        proof {
            lemma_pow128_mono(k as nat, 10);
            lemma_pow128_value();
            assert(mult <= pow128(10));
            lemma_low7(b);
            assert(chunk < 128);
            assert(acc + chunk * mult < 128 * mult) by (nonlinear_arith)
                requires
                    chunk < 128,
                    acc < mult,
                    mult >= 1,
            ;
            assert(128 * mult == pow128(k as nat + 1));
            lemma_pow128_mono(k as nat + 1, 11);
            assert(acc + chunk * mult < pow128(11));
            lemma_vi_val_push(s@.subrange(pos as int, pos + k), b);
            assert(s@.subrange(pos as int, pos + k + 1) =~= s@.subrange(
                pos as int,
                pos + k,
            ).push(b));
            assert(s@.subrange(pos as int, pos + k).len() == k as int);
            assert(chunk == (b & 0x7f) as nat);
        }
        let acc2: u128 = acc + chunk * mult;
        if b < 0x80 {
            proof {
                lemma_vi_len_found(s@, pos as int, k as int);
            }
            if acc2 < 0x10000000000000000 {
                return Some((acc2 as u64, pos + k + 1));
            } else {
                return None;
            }
        }
        acc = acc2;
        mult = mult * 128;
        k = k + 1;
    }
}

/// Powers of one hundred twenty-eight grow with the exponent.
proof fn lemma_pow128_mono(a: nat, b: nat)
    requires
        a <= b,
    ensures
        pow128(a) <= pow128(b),
    decreases b,
{
    if a < b {
        lemma_pow128_mono(a, (b - 1) as nat);
    }
}

/// The capacity of ten varint bytes fits comfortably in 128 bits.
proof fn lemma_pow128_value()
    ensures
        pow128(10) == 0x400000000000000000,
        pow128(11) == 0x20000000000000000000,
{
    assert(pow128(0) == 1);
    assert(pow128(1) == 128);
    assert(pow128(2) == 0x4000);
    assert(pow128(3) == 0x200000);
    assert(pow128(4) == 0x10000000);
    assert(pow128(5) == 0x800000000);
    assert(pow128(6) == 0x40000000000);
    assert(pow128(7) == 0x2000000000000);
    assert(pow128(8) == 0x100000000000000);
    assert(pow128(9) == 0x8000000000000000);
    assert(pow128(10) == 0x400000000000000000);
    assert(pow128(11) == 0x20000000000000000000);
}

proof fn lemma_pow128_bound(k: nat)
    requires
        k <= 10,
    ensures
        pow128(k) <= 0x400000000000000000,
{
    lemma_pow128_mono(k, 10);
    lemma_pow128_value();
}

/// A varint spans at most ten bytes.
proof fn lemma_vi_len_cap(s: Seq<u8>, pos: int)
    requires
        vi_len_at(s, pos) is Some,
    ensures
        vi_len_at(s, pos)->Some_0 <= 10,
    decreases s.len() - pos,
{
    if pos < s.len() && s[pos] >= 0x80 {
        lemma_vi_len_cap(s, pos + 1);
    }
}

/// A varint never spans past the end of the input.
proof fn lemma_vi_len_within(s: Seq<u8>, pos: int)
    requires
        vi_len_at(s, pos) is Some,
    ensures
        0 <= pos,
        pos + vi_len_at(s, pos)->Some_0 <= s.len(),
        vi_len_at(s, pos)->Some_0 >= 1,
    decreases s.len() - pos,
{
    if pos < s.len() && s[pos] >= 0x80 {
        lemma_vi_len_within(s, pos + 1);
    }
}

} // verus!

verus! {

// ---------------------------------------------------------------------
// Length-delimited payloads and field skipping.
// ---------------------------------------------------------------------

/// The payload bounds of a length-delimited field at `pos`: the range
/// of its bytes, which is also where reading continues.
pub open spec fn sp_len_payload(s: Seq<u8>, pos: int) -> Option<(int, int)> {
    match sp_varint(s, pos) {
        Some((len, p2)) => if p2 + len <= s.len() {
            Some((p2, p2 + len))
        } else {
            None
        },
        None => None,
    }
}

/// The position after skipping one field body of the given wire type.
pub open spec fn sp_skip(s: Seq<u8>, pos: int, wire_type: u64) -> Option<int> {
    if wire_type == 0 {
        match sp_varint(s, pos) {
            Some((_v, p2)) => Some(p2),
            None => None,
        }
    } else if wire_type == 1 {
        if pos + 8 <= s.len() {
            Some(pos + 8)
        } else {
            None
        }
    } else if wire_type == 5 {
        if pos + 4 <= s.len() {
            Some(pos + 4)
        } else {
            None
        }
    } else if wire_type == 2 {
        match sp_len_payload(s, pos) {
            Some((_a, b)) => Some(b),
            None => None,
        }
    } else {
        None
    }
}

/// A parsed varint sits inside the input and past its start.
pub proof fn lemma_sp_varint_advances(s: Seq<u8>, pos: int)
    requires
        sp_varint(s, pos) is Some,
    ensures
        pos < sp_varint(s, pos)->Some_0.1 <= s.len(),
{
    lemma_vi_len_within(s, pos);
}

/// A length-delimited payload sits inside the input and past the tag.
pub proof fn lemma_sp_len_payload_bounds(s: Seq<u8>, pos: int)
    requires
        sp_len_payload(s, pos) is Some,
    ensures
        pos < sp_len_payload(s, pos)->Some_0.0,
        sp_len_payload(s, pos)->Some_0.0 <= sp_len_payload(s, pos)->Some_0.1,
        sp_len_payload(s, pos)->Some_0.1 <= s.len(),
{
    lemma_sp_varint_advances(s, pos);
}

/// Skipping a field body moves strictly forward and stays inside.
pub proof fn lemma_sp_skip_advances(s: Seq<u8>, pos: int, wire_type: u64)
    requires
        0 <= pos,
        sp_skip(s, pos, wire_type) is Some,
    ensures
        pos < sp_skip(s, pos, wire_type)->Some_0 <= s.len(),
{
    if wire_type == 0 {
        lemma_sp_varint_advances(s, pos);
    } else if wire_type == 2 {
        lemma_sp_len_payload_bounds(s, pos);
    }
}

// ---------------------------------------------------------------------
// The message grammar, at specification level. Within each message the
// fields are folded left to right into an accumulator: the last scalar
// occurrence wins, repeated fields append, unknown fields are skipped.
// ---------------------------------------------------------------------

/// One field step shared by every message: the positions after the tag.
pub open spec fn sp_tag(s: Seq<u8>, pos: int) -> Option<(u64, u64, int)> {
    match sp_varint(s, pos) {
        Some((tag, p2)) => Some((tag >> 3, tag & 7, p2)),
        None => None,
    }
}

pub proof fn lemma_sp_tag_advances(s: Seq<u8>, pos: int)
    requires
        sp_tag(s, pos) is Some,
    ensures
        pos < sp_tag(s, pos)->Some_0.2 <= s.len(),
{
    lemma_sp_varint_advances(s, pos);
}

pub open spec fn sp_options_fields(s: Seq<u8>, pos: int, acc: ValueOptionsV) -> Option<
    ValueOptionsV,
>
    decreases s.len(), 0int, s.len() - pos,
    when 0 <= pos <= s.len()
{
    if pos == s.len() {
        Some(acc)
    } else {
        proof {
            field_step_facts(s, pos);
        }
        match sp_tag(s, pos) {
            Some((field, wt, p2)) => {
                if field == 1 && wt == 2 {
                    match sp_len_payload(s, p2) {
                        Some((a, b)) => match utf8_chars(s.subrange(a, b)) {
                            Some(t) => sp_options_fields(
                                s,
                                b,
                                ValueOptionsV { language: Some(t), ..acc },
                            ),
                            None => None,
                        },
                        None => None,
                    }
                } else if field == 2 && wt == 2 {
                    match sp_len_payload(s, p2) {
                        Some((a, b)) => match utf8_chars(s.subrange(a, b)) {
                            Some(t) => sp_options_fields(
                                s,
                                b,
                                ValueOptionsV { unit: Some(t), ..acc },
                            ),
                            None => None,
                        },
                        None => None,
                    }
                } else {
                    match sp_skip(s, p2, wt) {
                        Some(p3) => sp_options_fields(s, p3, acc),
                        None => None,
                    }
                }
            },
            None => None,
        }
    }
}

/// The advancement facts every message's field loop steps on: the tag,
/// a length-delimited payload, a varint and any skip all move strictly
/// forward and stay inside the input.
pub proof fn field_step_facts(s: Seq<u8>, pos: int)
    requires
        0 <= pos <= s.len(),
    ensures
        sp_tag(s, pos) is Some ==> {
            let p2 = sp_tag(s, pos)->Some_0.2;
            &&& pos < p2 <= s.len()
            &&& (sp_len_payload(s, p2) is Some ==> p2 < sp_len_payload(s, p2)->Some_0.0
                <= sp_len_payload(s, p2)->Some_0.1 <= s.len())
            &&& (sp_varint(s, p2) is Some ==> p2 < sp_varint(s, p2)->Some_0.1 <= s.len())
            &&& (forall|wt: u64|
                #[trigger] sp_skip(s, p2, wt) is Some ==> p2 < sp_skip(s, p2, wt)->Some_0
                    <= s.len())
        },
{
    if sp_tag(s, pos) is Some {
        lemma_sp_tag_advances(s, pos);
        let p2 = sp_tag(s, pos)->Some_0.2;
        if sp_len_payload(s, p2) is Some {
            lemma_sp_len_payload_bounds(s, p2);
        }
        if sp_varint(s, p2) is Some {
            lemma_sp_varint_advances(s, p2);
        }
        assert forall|wt: u64| #[trigger] sp_skip(s, p2, wt) is Some implies p2 < sp_skip(
            s,
            p2,
            wt,
        )->Some_0 <= s.len() by {
            lemma_sp_skip_advances(s, p2, wt);
        }
    }
}

/// The whole options message.
pub open spec fn sp_options(s: Seq<u8>) -> Option<ValueOptionsV> {
    sp_options_fields(s, 0, ValueOptionsV { language: None, unit: None })
}

} // verus!

verus! {

pub open spec fn sp_value_fields(s: Seq<u8>, pos: int, acc: ValueV) -> Option<ValueV>
    decreases s.len() - pos,
    when 0 <= pos <= s.len()
{
    if pos == s.len() {
        Some(acc)
    } else {
        proof {
            field_step_facts(s, pos);
        }
        match sp_tag(s, pos) {
            Some((field, wt, p2)) => {
                if field == 1 && wt == 2 {
                    match sp_len_payload(s, p2) {
                        Some((a, b)) => sp_value_fields(
                            s,
                            b,
                            ValueV { property: s.subrange(a, b), ..acc },
                        ),
                        None => None,
                    }
                } else if field == 2 && wt == 2 {
                    match sp_len_payload(s, p2) {
                        Some((a, b)) => match utf8_chars(s.subrange(a, b)) {
                            Some(t) => sp_value_fields(s, b, ValueV { value: t, ..acc }),
                            None => None,
                        },
                        None => None,
                    }
                } else if field == 3 && wt == 2 {
                    match sp_len_payload(s, p2) {
                        Some((a, b)) => match sp_options(s.subrange(a, b)) {
                            Some(o) => sp_value_fields(s, b, ValueV { options: Some(o), ..acc }),
                            None => None,
                        },
                        None => None,
                    }
                } else {
                    match sp_skip(s, p2, wt) {
                        Some(p3) => sp_value_fields(s, p3, acc),
                        None => None,
                    }
                }
            },
            None => None,
        }
    }
}

pub open spec fn sp_value(s: Seq<u8>) -> Option<ValueV> {
    sp_value_fields(
        s,
        0,
        ValueV { property: Seq::empty(), value: Seq::empty(), options: None },
    )
}

pub open spec fn sp_entity_fields(s: Seq<u8>, pos: int, acc: EntityV) -> Option<EntityV>
    decreases s.len() - pos,
    when 0 <= pos <= s.len()
{
    if pos == s.len() {
        Some(acc)
    } else {
        proof {
            field_step_facts(s, pos);
        }
        match sp_tag(s, pos) {
            Some((field, wt, p2)) => {
                if field == 1 && wt == 2 {
                    match sp_len_payload(s, p2) {
                        Some((a, b)) => sp_entity_fields(
                            s,
                            b,
                            EntityV { id: s.subrange(a, b), ..acc },
                        ),
                        None => None,
                    }
                } else if field == 2 && wt == 2 {
                    match sp_len_payload(s, p2) {
                        Some((a, b)) => match sp_value(s.subrange(a, b)) {
                            Some(v) => sp_entity_fields(
                                s,
                                b,
                                EntityV { values: acc.values.push(v), ..acc },
                            ),
                            None => None,
                        },
                        None => None,
                    }
                } else {
                    match sp_skip(s, p2, wt) {
                        Some(p3) => sp_entity_fields(s, p3, acc),
                        None => None,
                    }
                }
            },
            None => None,
        }
    }
}

pub open spec fn sp_entity(s: Seq<u8>) -> Option<EntityV> {
    sp_entity_fields(s, 0, EntityV { id: Seq::empty(), values: Seq::empty() })
}

pub open spec fn sp_unset_fields(s: Seq<u8>, pos: int, acc: UnsetEntityValuesV) -> Option<
    UnsetEntityValuesV,
>
    decreases s.len() - pos,
    when 0 <= pos <= s.len()
{
    if pos == s.len() {
        Some(acc)
    } else {
        proof {
            field_step_facts(s, pos);
        }
        match sp_tag(s, pos) {
            Some((field, wt, p2)) => {
                if field == 1 && wt == 2 {
                    match sp_len_payload(s, p2) {
                        Some((a, b)) => sp_unset_fields(
                            s,
                            b,
                            UnsetEntityValuesV { id: s.subrange(a, b), ..acc },
                        ),
                        None => None,
                    }
                } else if field == 2 && wt == 2 {
                    match sp_len_payload(s, p2) {
                        Some((a, b)) => sp_unset_fields(
                            s,
                            b,
                            UnsetEntityValuesV {
                                properties: acc.properties.push(s.subrange(a, b)),
                                ..acc
                            },
                        ),
                        None => None,
                    }
                } else {
                    match sp_skip(s, p2, wt) {
                        Some(p3) => sp_unset_fields(s, p3, acc),
                        None => None,
                    }
                }
            },
            None => None,
        }
    }
}

pub open spec fn sp_unset(s: Seq<u8>) -> Option<UnsetEntityValuesV> {
    sp_unset_fields(s, 0, UnsetEntityValuesV { id: Seq::empty(), properties: Seq::empty() })
}

/// The data type an enum value denotes, or nothing for any other value.
pub open spec fn sp_data_type(v: u64) -> Option<PbDataType> {
    if v == 1 {
        Some(PbDataType::Text)
    } else if v == 2 {
        Some(PbDataType::Number)
    } else if v == 3 {
        Some(PbDataType::Checkbox)
    } else if v == 4 {
        Some(PbDataType::Time)
    } else if v == 5 {
        Some(PbDataType::Point)
    } else if v == 6 {
        Some(PbDataType::Relation)
    } else {
        None
    }
}

pub open spec fn sp_property_fields(s: Seq<u8>, pos: int, acc: PropertyV) -> Option<PropertyV>
    decreases s.len() - pos,
    when 0 <= pos <= s.len()
{
    if pos == s.len() {
        Some(acc)
    } else {
        proof {
            field_step_facts(s, pos);
        }
        match sp_tag(s, pos) {
            Some((field, wt, p2)) => {
                if field == 1 && wt == 2 {
                    match sp_len_payload(s, p2) {
                        Some((a, b)) => sp_property_fields(
                            s,
                            b,
                            PropertyV { id: s.subrange(a, b), ..acc },
                        ),
                        None => None,
                    }
                } else if field == 2 && wt == 0 {
                    match sp_varint(s, p2) {
                        Some((v, p3)) => match sp_data_type(v) {
                            Some(dt) => sp_property_fields(
                                s,
                                p3,
                                PropertyV { data_type: dt, ..acc },
                            ),
                            None => None,
                        },
                        None => None,
                    }
                } else {
                    match sp_skip(s, p2, wt) {
                        Some(p3) => sp_property_fields(s, p3, acc),
                        None => None,
                    }
                }
            },
            None => None,
        }
    }
}

pub open spec fn sp_property(s: Seq<u8>) -> Option<PropertyV> {
    sp_property_fields(s, 0, PropertyV { id: Seq::empty(), data_type: PbDataType::Text })
}

pub open spec fn sp_relation_fields(s: Seq<u8>, pos: int, acc: RelationV) -> Option<RelationV>
    decreases s.len() - pos,
    when 0 <= pos <= s.len()
{
    if pos == s.len() {
        Some(acc)
    } else {
        proof {
            field_step_facts(s, pos);
        }
        match sp_tag(s, pos) {
            Some((field, wt, p2)) => {
                if 1 <= field <= 9 && wt == 2 {
                    match sp_len_payload(s, p2) {
                        Some((a, b)) => {
                            let payload = s.subrange(a, b);
                            let acc2 = if field == 1 {
                                RelationV { id: payload, ..acc }
                            } else if field == 2 {
                                RelationV { type_id: payload, ..acc }
                            } else if field == 3 {
                                RelationV { entity: payload, ..acc }
                            } else if field == 4 {
                                RelationV { from_entity: payload, ..acc }
                            } else if field == 5 {
                                RelationV { from_space: Some(payload), ..acc }
                            } else if field == 6 {
                                RelationV { from_version: Some(payload), ..acc }
                            } else if field == 7 {
                                RelationV { to_entity: payload, ..acc }
                            } else if field == 8 {
                                RelationV { to_space: Some(payload), ..acc }
                            } else {
                                RelationV { to_version: Some(payload), ..acc }
                            };
                            sp_relation_fields(s, b, acc2)
                        },
                        None => None,
                    }
                } else if field == 10 && wt == 2 {
                    match sp_len_payload(s, p2) {
                        Some((a, b)) => match utf8_chars(s.subrange(a, b)) {
                            Some(t) => sp_relation_fields(
                                s,
                                b,
                                RelationV { position: Some(t), ..acc },
                            ),
                            None => None,
                        },
                        None => None,
                    }
                } else if field == 11 && wt == 0 {
                    match sp_varint(s, p2) {
                        Some((v, p3)) => sp_relation_fields(
                            s,
                            p3,
                            RelationV { verified: Some(v != 0), ..acc },
                        ),
                        None => None,
                    }
                } else {
                    match sp_skip(s, p2, wt) {
                        Some(p3) => sp_relation_fields(s, p3, acc),
                        None => None,
                    }
                }
            },
            None => None,
        }
    }
}

pub open spec fn sp_relation(s: Seq<u8>) -> Option<RelationV> {
    sp_relation_fields(
        s,
        0,
        RelationV {
            id: Seq::empty(),
            type_id: Seq::empty(),
            entity: Seq::empty(),
            from_entity: Seq::empty(),
            from_space: None,
            from_version: None,
            to_entity: Seq::empty(),
            to_space: None,
            to_version: None,
            position: None,
            verified: None,
        },
    )
}

pub open spec fn sp_relation_update_fields(s: Seq<u8>, pos: int, acc: RelationUpdateV) -> Option<
    RelationUpdateV,
>
    decreases s.len() - pos,
    when 0 <= pos <= s.len()
{
    if pos == s.len() {
        Some(acc)
    } else {
        proof {
            field_step_facts(s, pos);
        }
        match sp_tag(s, pos) {
            Some((field, wt, p2)) => {
                if 1 <= field <= 5 && wt == 2 {
                    match sp_len_payload(s, p2) {
                        Some((a, b)) => {
                            let payload = s.subrange(a, b);
                            let acc2 = if field == 1 {
                                RelationUpdateV { id: payload, ..acc }
                            } else if field == 2 {
                                RelationUpdateV { from_space: Some(payload), ..acc }
                            } else if field == 3 {
                                RelationUpdateV { from_version: Some(payload), ..acc }
                            } else if field == 4 {
                                RelationUpdateV { to_space: Some(payload), ..acc }
                            } else {
                                RelationUpdateV { to_version: Some(payload), ..acc }
                            };
                            sp_relation_update_fields(s, b, acc2)
                        },
                        None => None,
                    }
                } else if field == 6 && wt == 2 {
                    match sp_len_payload(s, p2) {
                        Some((a, b)) => match utf8_chars(s.subrange(a, b)) {
                            Some(t) => sp_relation_update_fields(
                                s,
                                b,
                                RelationUpdateV { position: Some(t), ..acc },
                            ),
                            None => None,
                        },
                        None => None,
                    }
                } else if field == 7 && wt == 0 {
                    match sp_varint(s, p2) {
                        Some((v, p3)) => sp_relation_update_fields(
                            s,
                            p3,
                            RelationUpdateV { verified: Some(v != 0), ..acc },
                        ),
                        None => None,
                    }
                } else {
                    match sp_skip(s, p2, wt) {
                        Some(p3) => sp_relation_update_fields(s, p3, acc),
                        None => None,
                    }
                }
            },
            None => None,
        }
    }
}

pub open spec fn sp_relation_update(s: Seq<u8>) -> Option<RelationUpdateV> {
    sp_relation_update_fields(
        s,
        0,
        RelationUpdateV {
            id: Seq::empty(),
            from_space: None,
            from_version: None,
            to_space: None,
            to_version: None,
            position: None,
            verified: None,
        },
    )
}

pub open spec fn sp_op_fields(s: Seq<u8>, pos: int, acc: OpV) -> Option<OpV>
    decreases s.len() - pos,
    when 0 <= pos <= s.len()
{
    if pos == s.len() {
        Some(acc)
    } else {
        proof {
            field_step_facts(s, pos);
        }
        match sp_tag(s, pos) {
            Some((field, wt, p2)) => {
                if field == 1 && wt == 2 {
                    match sp_len_payload(s, p2) {
                        Some((a, b)) => match sp_entity(s.subrange(a, b)) {
                            Some(e) => sp_op_fields(
                                s,
                                b,
                                OpV { payload: Some(PayloadV::UpdateEntity(e)) },
                            ),
                            None => None,
                        },
                        None => None,
                    }
                } else if field == 2 && wt == 2 {
                    match sp_len_payload(s, p2) {
                        Some((a, b)) => match sp_unset(s.subrange(a, b)) {
                            Some(u) => sp_op_fields(
                                s,
                                b,
                                OpV { payload: Some(PayloadV::UnsetEntityValues(u)) },
                            ),
                            None => None,
                        },
                        None => None,
                    }
                } else if field == 3 && wt == 2 {
                    match sp_len_payload(s, p2) {
                        Some((a, b)) => match sp_property(s.subrange(a, b)) {
                            Some(p) => sp_op_fields(
                                s,
                                b,
                                OpV { payload: Some(PayloadV::CreateProperty(p)) },
                            ),
                            None => None,
                        },
                        None => None,
                    }
                } else if field == 4 && wt == 2 {
                    match sp_len_payload(s, p2) {
                        Some((a, b)) => match sp_relation(s.subrange(a, b)) {
                            Some(r) => sp_op_fields(
                                s,
                                b,
                                OpV { payload: Some(PayloadV::CreateRelation(r)) },
                            ),
                            None => None,
                        },
                        None => None,
                    }
                } else if field == 5 && wt == 2 {
                    match sp_len_payload(s, p2) {
                        Some((a, b)) => match sp_relation_update(s.subrange(a, b)) {
                            Some(u) => sp_op_fields(
                                s,
                                b,
                                OpV { payload: Some(PayloadV::UpdateRelation(u)) },
                            ),
                            None => None,
                        },
                        None => None,
                    }
                } else if field == 6 && wt == 2 {
                    match sp_len_payload(s, p2) {
                        Some((a, b)) => sp_op_fields(
                            s,
                            b,
                            OpV { payload: Some(PayloadV::DeleteRelation(s.subrange(a, b))) },
                        ),
                        None => None,
                    }
                } else {
                    match sp_skip(s, p2, wt) {
                        Some(p3) => sp_op_fields(s, p3, acc),
                        None => None,
                    }
                }
            },
            None => None,
        }
    }
}

pub open spec fn sp_op(s: Seq<u8>) -> Option<OpV> {
    sp_op_fields(s, 0, OpV { payload: None })
}

pub open spec fn sp_edit_fields(s: Seq<u8>, pos: int, acc: EditV) -> Option<EditV>
    decreases s.len() - pos,
    when 0 <= pos <= s.len()
{
    if pos == s.len() {
        Some(acc)
    } else {
        proof {
            field_step_facts(s, pos);
        }
        match sp_tag(s, pos) {
            Some((field, wt, p2)) => {
                if field == 1 && wt == 2 {
                    match sp_len_payload(s, p2) {
                        Some((a, b)) => sp_edit_fields(
                            s,
                            b,
                            EditV { id: s.subrange(a, b), ..acc },
                        ),
                        None => None,
                    }
                } else if field == 2 && wt == 2 {
                    match sp_len_payload(s, p2) {
                        Some((a, b)) => match utf8_chars(s.subrange(a, b)) {
                            Some(t) => sp_edit_fields(s, b, EditV { name: t, ..acc }),
                            None => None,
                        },
                        None => None,
                    }
                } else if field == 3 && wt == 2 {
                    match sp_len_payload(s, p2) {
                        Some((a, b)) => match sp_op(s.subrange(a, b)) {
                            Some(op) => sp_edit_fields(
                                s,
                                b,
                                EditV { ops: acc.ops.push(op), ..acc },
                            ),
                            None => None,
                        },
                        None => None,
                    }
                } else if field == 4 && wt == 2 {
                    match sp_len_payload(s, p2) {
                        Some((a, b)) => sp_edit_fields(
                            s,
                            b,
                            EditV { authors: acc.authors.push(s.subrange(a, b)), ..acc },
                        ),
                        None => None,
                    }
                } else if field == 5 && wt == 2 {
                    match sp_len_payload(s, p2) {
                        Some((a, b)) => match utf8_chars(s.subrange(a, b)) {
                            Some(t) => sp_edit_fields(
                                s,
                                b,
                                EditV { language: Some(t), ..acc },
                            ),
                            None => None,
                        },
                        None => None,
                    }
                } else {
                    match sp_skip(s, p2, wt) {
                        Some(p3) => sp_edit_fields(s, p3, acc),
                        None => None,
                    }
                }
            },
            None => None,
        }
    }
}

/// The whole edit payload: what [`crate::wire::deserialize`] decodes.
pub open spec fn sp_edit(s: Seq<u8>) -> Option<EditV> {
    sp_edit_fields(
        s,
        0,
        EditV {
            id: Seq::empty(),
            name: Seq::empty(),
            ops: Seq::empty(),
            authors: Seq::empty(),
            language: None,
        },
    )
}

} // verus!

verus! {

// ---------------------------------------------------------------------
// The executable decoder, proved equal to the grammar above.
// ---------------------------------------------------------------------

/// Read the payload bounds of a length-delimited field.
fn read_len_payload(s: &[u8], pos: usize) -> (r: Option<(usize, usize)>)
    requires
        pos <= s@.len(),
        s@.len() < 0x10000000000000,
    ensures
        match r {
            Some((a, b)) => sp_len_payload(s@, pos as int) == Some((a as int, b as int)) && pos
                < a <= b <= s@.len(),
            None => sp_len_payload(s@, pos as int) is None,
        },
{
    match read_varint(s, pos) {
        Some((len, p2)) => {
            proof {
                lemma_sp_varint_advances(s@, pos as int);
            }
            let n = s.len();
            if len <= (n - p2) as u64 {
                let l = len as usize;
                proof {
                    lemma_sp_len_payload_bounds(s@, pos as int);
                }
                Some((p2, p2 + l))
            } else {
                None
            }
        },
        None => None,
    }
}

/// Read a field tag: its field number, wire type, and what follows.
fn read_tag(s: &[u8], pos: usize) -> (r: Option<(u64, u64, usize)>)
    requires
        pos <= s@.len(),
        s@.len() < 0x10000000000000,
    ensures
        match r {
            Some((field, wt, p2)) => sp_tag(s@, pos as int) == Some((field, wt, p2 as int)) && pos
                < p2 <= s@.len(),
            None => sp_tag(s@, pos as int) is None,
        },
{
    match read_varint(s, pos) {
        Some((tag, p2)) => {
            proof {
                lemma_sp_varint_advances(s@, pos as int);
            }
            Some((tag >> 3, tag & 7, p2))
        },
        None => None,
    }
}

/// Skip one field body of the given wire type.
fn read_skip(s: &[u8], pos: usize, wire_type: u64) -> (r: Option<usize>)
    requires
        pos <= s@.len(),
        s@.len() < 0x10000000000000,
    ensures
        match r {
            Some(p3) => sp_skip(s@, pos as int, wire_type) == Some(p3 as int) && pos < p3
                <= s@.len(),
            None => sp_skip(s@, pos as int, wire_type) is None,
        },
{
    let n = s.len();
    if wire_type == 0 {
        match read_varint(s, pos) {
            Some((_v, p2)) => {
                proof {
                    lemma_sp_varint_advances(s@, pos as int);
                }
                Some(p2)
            },
            None => None,
        }
    } else if wire_type == 1 {
        if n - pos >= 8 {
            Some(pos + 8)
        } else {
            None
        }
    } else if wire_type == 5 {
        if n - pos >= 4 {
            Some(pos + 4)
        } else {
            None
        }
    } else if wire_type == 2 {
        match read_len_payload(s, pos) {
            Some((_a, b)) => Some(b),
            None => None,
        }
    } else {
        None
    }
}

/// Copy a payload range out as bytes.
fn read_bytes(s: &[u8], a: usize, b: usize) -> (r: Vec<u8>)
    requires
        a <= b <= s@.len(),
    ensures
        r@ == s@.subrange(a as int, b as int),
{
    vstd::slice::slice_to_vec(slice_subrange(s, a, b))
}

/// Decode a payload range as text.
fn read_string(s: &[u8], a: usize, b: usize) -> (r: Option<String>)
    requires
        a <= b <= s@.len(),
    ensures
        match r {
            Some(t) => utf8_chars(s@.subrange(a as int, b as int)) == Some(t@),
            None => utf8_chars(s@.subrange(a as int, b as int)) is None,
        },
{
    match crate::wire::string_from_utf8(read_bytes(s, a, b)) {
        Ok(t) => Some(t),
        Err(_) => None,
    }
}

/// The data type an enum value denotes.
fn read_data_type(v: u64) -> (r: Option<PbDataType>)
    ensures
        r == sp_data_type(v),
{
    if v == 1 {
        Some(PbDataType::Text)
    } else if v == 2 {
        Some(PbDataType::Number)
    } else if v == 3 {
        Some(PbDataType::Checkbox)
    } else if v == 4 {
        Some(PbDataType::Time)
    } else if v == 5 {
        Some(PbDataType::Point)
    } else if v == 6 {
        Some(PbDataType::Relation)
    } else {
        None
    }
}

fn decode_options(s: &[u8]) -> (r: Option<ValueOptions>)
    requires
        s@.len() < 0x10000000000000,
    ensures
        match r {
            Some(o) => sp_options(s@) == Some(options_view(o)),
            None => sp_options(s@) is None,
        },
{
    let n = s.len();
    let mut acc = ValueOptions { language: None, unit: None };
    let mut pos: usize = 0;
    loop
        invariant
            pos <= n == s@.len(),
            n < 0x10000000000000,
            sp_options(s@) == sp_options_fields(s@, pos as int, options_view(acc)),
        decreases n - pos,
    {
        if pos == n {
            return Some(acc);
        }
        let (field, wt, p2) = match read_tag(s, pos) {
            Some(t) => t,
            None => {
                return None;
            },
        };
        if field == 1 && wt == 2 {
            let (a, b) = match read_len_payload(s, p2) {
                Some(p) => p,
                None => {
                    return None;
                },
            };
            let t = match read_string(s, a, b) {
                Some(t) => t,
                None => {
                    return None;
                },
            };
            acc.language = Some(t);
            pos = b;
        } else if field == 2 && wt == 2 {
            let (a, b) = match read_len_payload(s, p2) {
                Some(p) => p,
                None => {
                    return None;
                },
            };
            let t = match read_string(s, a, b) {
                Some(t) => t,
                None => {
                    return None;
                },
            };
            acc.unit = Some(t);
            pos = b;
        } else {
            let p3 = match read_skip(s, p2, wt) {
                Some(p) => p,
                None => {
                    return None;
                },
            };
            pos = p3;
        }
    }
}

fn decode_value(s: &[u8]) -> (r: Option<Value>)
    requires
        s@.len() < 0x10000000000000,
    ensures
        match r {
            Some(v) => sp_value(s@) == Some(value_view(v)),
            None => sp_value(s@) is None,
        },
{
    let n = s.len();
    let mut acc = Value { property: Vec::new(), value: String::new(), options: None };
    let mut pos: usize = 0;
    loop
        invariant
            pos <= n == s@.len(),
            n < 0x10000000000000,
            sp_value(s@) == sp_value_fields(s@, pos as int, value_view(acc)),
        decreases n - pos,
    {
        if pos == n {
            return Some(acc);
        }
        let (field, wt, p2) = match read_tag(s, pos) {
            Some(t) => t,
            None => {
                return None;
            },
        };
        if field == 1 && wt == 2 {
            let (a, b) = match read_len_payload(s, p2) {
                Some(p) => p,
                None => {
                    return None;
                },
            };
            acc.property = read_bytes(s, a, b);
            pos = b;
        } else if field == 2 && wt == 2 {
            let (a, b) = match read_len_payload(s, p2) {
                Some(p) => p,
                None => {
                    return None;
                },
            };
            let t = match read_string(s, a, b) {
                Some(t) => t,
                None => {
                    return None;
                },
            };
            acc.value = t;
            pos = b;
        } else if field == 3 && wt == 2 {
            let (a, b) = match read_len_payload(s, p2) {
                Some(p) => p,
                None => {
                    return None;
                },
            };
            let sub = slice_subrange(s, a, b);
            let o = match decode_options(sub) {
                Some(o) => o,
                None => {
                    return None;
                },
            };
            acc.options = Some(o);
            pos = b;
        } else {
            let p3 = match read_skip(s, p2, wt) {
                Some(p) => p,
                None => {
                    return None;
                },
            };
            pos = p3;
        }
    }
}

fn decode_entity(s: &[u8]) -> (r: Option<Entity>)
    requires
        s@.len() < 0x10000000000000,
    ensures
        match r {
            Some(e) => sp_entity(s@) == Some(entity_view(e)),
            None => sp_entity(s@) is None,
        },
{
    let n = s.len();
    let mut acc = Entity { id: Vec::new(), values: Vec::new() };
    let mut pos: usize = 0;
    proof {
        assert(values_view(acc.values@) =~= Seq::<ValueV>::empty());
    }
    loop
        invariant
            pos <= n == s@.len(),
            n < 0x10000000000000,
            sp_entity(s@) == sp_entity_fields(s@, pos as int, entity_view(acc)),
        decreases n - pos,
    {
        if pos == n {
            return Some(acc);
        }
        let (field, wt, p2) = match read_tag(s, pos) {
            Some(t) => t,
            None => {
                return None;
            },
        };
        if field == 1 && wt == 2 {
            let (a, b) = match read_len_payload(s, p2) {
                Some(p) => p,
                None => {
                    return None;
                },
            };
            acc.id = read_bytes(s, a, b);
            pos = b;
        } else if field == 2 && wt == 2 {
            let (a, b) = match read_len_payload(s, p2) {
                Some(p) => p,
                None => {
                    return None;
                },
            };
            let sub = slice_subrange(s, a, b);
            let v = match decode_value(sub) {
                Some(v) => v,
                None => {
                    return None;
                },
            };
            let ghost before = acc.values@;
            acc.values.push(v);
            proof {
                assert(values_view(acc.values@) =~= values_view(before).push(value_view(v)));
            }
            pos = b;
        } else {
            let p3 = match read_skip(s, p2, wt) {
                Some(p) => p,
                None => {
                    return None;
                },
            };
            pos = p3;
        }
    }
}

fn decode_unset(s: &[u8]) -> (r: Option<UnsetEntityValues>)
    requires
        s@.len() < 0x10000000000000,
    ensures
        match r {
            Some(u) => sp_unset(s@) == Some(unset_view(u)),
            None => sp_unset(s@) is None,
        },
{
    let n = s.len();
    let mut acc = UnsetEntityValues { id: Vec::new(), properties: Vec::new() };
    let mut pos: usize = 0;
    proof {
        assert(bytes_seq_view(acc.properties@) =~= Seq::<Seq<u8>>::empty());
    }
    loop
        invariant
            pos <= n == s@.len(),
            n < 0x10000000000000,
            sp_unset(s@) == sp_unset_fields(s@, pos as int, unset_view(acc)),
        decreases n - pos,
    {
        if pos == n {
            return Some(acc);
        }
        let (field, wt, p2) = match read_tag(s, pos) {
            Some(t) => t,
            None => {
                return None;
            },
        };
        if field == 1 && wt == 2 {
            let (a, b) = match read_len_payload(s, p2) {
                Some(p) => p,
                None => {
                    return None;
                },
            };
            acc.id = read_bytes(s, a, b);
            pos = b;
        } else if field == 2 && wt == 2 {
            let (a, b) = match read_len_payload(s, p2) {
                Some(p) => p,
                None => {
                    return None;
                },
            };
            let bs = read_bytes(s, a, b);
            let ghost before = acc.properties@;
            acc.properties.push(bs);
            proof {
                assert(bytes_seq_view(acc.properties@) =~= bytes_seq_view(before).push(
                    s@.subrange(a as int, b as int),
                ));
            }
            pos = b;
        } else {
            let p3 = match read_skip(s, p2, wt) {
                Some(p) => p,
                None => {
                    return None;
                },
            };
            pos = p3;
        }
    }
}

fn decode_property(s: &[u8]) -> (r: Option<Property>)
    requires
        s@.len() < 0x10000000000000,
    ensures
        match r {
            Some(p) => sp_property(s@) == Some(property_view(p)),
            None => sp_property(s@) is None,
        },
{
    let n = s.len();
    let mut acc = Property { id: Vec::new(), data_type: PbDataType::Text };
    let mut pos: usize = 0;
    loop
        invariant
            pos <= n == s@.len(),
            n < 0x10000000000000,
            sp_property(s@) == sp_property_fields(s@, pos as int, property_view(acc)),
        decreases n - pos,
    {
        if pos == n {
            return Some(acc);
        }
        let (field, wt, p2) = match read_tag(s, pos) {
            Some(t) => t,
            None => {
                return None;
            },
        };
        if field == 1 && wt == 2 {
            let (a, b) = match read_len_payload(s, p2) {
                Some(p) => p,
                None => {
                    return None;
                },
            };
            acc.id = read_bytes(s, a, b);
            pos = b;
        } else if field == 2 && wt == 0 {
            let (v, p3) = match read_varint(s, p2) {
                Some(v) => v,
                None => {
                    return None;
                },
            };
            let dt = match read_data_type(v) {
                Some(dt) => dt,
                None => {
                    return None;
                },
            };
            proof {
                lemma_sp_varint_advances(s@, p2 as int);
            }
            acc.data_type = dt;
            pos = p3;
        } else {
            let p3 = match read_skip(s, p2, wt) {
                Some(p) => p,
                None => {
                    return None;
                },
            };
            pos = p3;
        }
    }
}

} // verus!

verus! {

fn decode_relation(s: &[u8]) -> (r: Option<Relation>)
    requires
        s@.len() < 0x10000000000000,
    ensures
        match r {
            Some(rel) => sp_relation(s@) == Some(relation_view(rel)),
            None => sp_relation(s@) is None,
        },
{
    let n = s.len();
    let mut acc = Relation {
        id: Vec::new(),
        type_id: Vec::new(),
        entity: Vec::new(),
        from_entity: Vec::new(),
        from_space: None,
        from_version: None,
        to_entity: Vec::new(),
        to_space: None,
        to_version: None,
        position: None,
        verified: None,
    };
    let mut pos: usize = 0;
    loop
        invariant
            pos <= n == s@.len(),
            n < 0x10000000000000,
            sp_relation(s@) == sp_relation_fields(s@, pos as int, relation_view(acc)),
        decreases n - pos,
    {
        if pos == n {
            return Some(acc);
        }
        let (field, wt, p2) = match read_tag(s, pos) {
            Some(t) => t,
            None => {
                return None;
            },
        };
        if 1 <= field && field <= 9 && wt == 2 {
            let (a, b) = match read_len_payload(s, p2) {
                Some(p) => p,
                None => {
                    return None;
                },
            };
            let payload = read_bytes(s, a, b);
            if field == 1 {
                acc.id = payload;
            } else if field == 2 {
                acc.type_id = payload;
            } else if field == 3 {
                acc.entity = payload;
            } else if field == 4 {
                acc.from_entity = payload;
            } else if field == 5 {
                acc.from_space = Some(payload);
            } else if field == 6 {
                acc.from_version = Some(payload);
            } else if field == 7 {
                acc.to_entity = payload;
            } else if field == 8 {
                acc.to_space = Some(payload);
            } else {
                acc.to_version = Some(payload);
            }
            pos = b;
        } else if field == 10 && wt == 2 {
            let (a, b) = match read_len_payload(s, p2) {
                Some(p) => p,
                None => {
                    return None;
                },
            };
            let t = match read_string(s, a, b) {
                Some(t) => t,
                None => {
                    return None;
                },
            };
            acc.position = Some(t);
            pos = b;
        } else if field == 11 && wt == 0 {
            let (v, p3) = match read_varint(s, p2) {
                Some(v) => v,
                None => {
                    return None;
                },
            };
            proof {
                lemma_sp_varint_advances(s@, p2 as int);
            }
            acc.verified = Some(v != 0);
            pos = p3;
        } else {
            let p3 = match read_skip(s, p2, wt) {
                Some(p) => p,
                None => {
                    return None;
                },
            };
            pos = p3;
        }
    }
}

fn decode_relation_update(s: &[u8]) -> (r: Option<RelationUpdate>)
    requires
        s@.len() < 0x10000000000000,
    ensures
        match r {
            Some(u) => sp_relation_update(s@) == Some(relation_update_view(u)),
            None => sp_relation_update(s@) is None,
        },
{
    let n = s.len();
    let mut acc = RelationUpdate {
        id: Vec::new(),
        from_space: None,
        from_version: None,
        to_space: None,
        to_version: None,
        position: None,
        verified: None,
    };
    let mut pos: usize = 0;
    loop
        invariant
            pos <= n == s@.len(),
            n < 0x10000000000000,
            sp_relation_update(s@) == sp_relation_update_fields(
                s@,
                pos as int,
                relation_update_view(acc),
            ),
        decreases n - pos,
    {
        if pos == n {
            return Some(acc);
        }
        let (field, wt, p2) = match read_tag(s, pos) {
            Some(t) => t,
            None => {
                return None;
            },
        };
        if 1 <= field && field <= 5 && wt == 2 {
            let (a, b) = match read_len_payload(s, p2) {
                Some(p) => p,
                None => {
                    return None;
                },
            };
            let payload = read_bytes(s, a, b);
            if field == 1 {
                acc.id = payload;
            } else if field == 2 {
                acc.from_space = Some(payload);
            } else if field == 3 {
                acc.from_version = Some(payload);
            } else if field == 4 {
                acc.to_space = Some(payload);
            } else {
                acc.to_version = Some(payload);
            }
            pos = b;
        } else if field == 6 && wt == 2 {
            let (a, b) = match read_len_payload(s, p2) {
                Some(p) => p,
                None => {
                    return None;
                },
            };
            let t = match read_string(s, a, b) {
                Some(t) => t,
                None => {
                    return None;
                },
            };
            acc.position = Some(t);
            pos = b;
        } else if field == 7 && wt == 0 {
            let (v, p3) = match read_varint(s, p2) {
                Some(v) => v,
                None => {
                    return None;
                },
            };
            proof {
                lemma_sp_varint_advances(s@, p2 as int);
            }
            acc.verified = Some(v != 0);
            pos = p3;
        } else {
            let p3 = match read_skip(s, p2, wt) {
                Some(p) => p,
                None => {
                    return None;
                },
            };
            pos = p3;
        }
    }
}

fn decode_op(s: &[u8]) -> (r: Option<Op>)
    requires
        s@.len() < 0x10000000000000,
    ensures
        match r {
            Some(op) => sp_op(s@) == Some(op_view(op)),
            None => sp_op(s@) is None,
        },
{
    let n = s.len();
    let mut acc = Op { payload: None };
    let mut pos: usize = 0;
    loop
        invariant
            pos <= n == s@.len(),
            n < 0x10000000000000,
            sp_op(s@) == sp_op_fields(s@, pos as int, op_view(acc)),
        decreases n - pos,
    {
        if pos == n {
            return Some(acc);
        }
        let (field, wt, p2) = match read_tag(s, pos) {
            Some(t) => t,
            None => {
                return None;
            },
        };
        if 1 <= field && field <= 6 && wt == 2 {
            let (a, b) = match read_len_payload(s, p2) {
                Some(p) => p,
                None => {
                    return None;
                },
            };
            let sub = slice_subrange(s, a, b);
            if field == 1 {
                let e = match decode_entity(sub) {
                    Some(e) => e,
                    None => {
                        return None;
                    },
                };
                acc.payload = Some(Payload::UpdateEntity(e));
            } else if field == 2 {
                let u = match decode_unset(sub) {
                    Some(u) => u,
                    None => {
                        return None;
                    },
                };
                acc.payload = Some(Payload::UnsetEntityValues(u));
            } else if field == 3 {
                let p = match decode_property(sub) {
                    Some(p) => p,
                    None => {
                        return None;
                    },
                };
                acc.payload = Some(Payload::CreateProperty(p));
            } else if field == 4 {
                let rel = match decode_relation(sub) {
                    Some(rel) => rel,
                    None => {
                        return None;
                    },
                };
                acc.payload = Some(Payload::CreateRelation(rel));
            } else if field == 5 {
                let u = match decode_relation_update(sub) {
                    Some(u) => u,
                    None => {
                        return None;
                    },
                };
                acc.payload = Some(Payload::UpdateRelation(u));
            } else {
                acc.payload = Some(Payload::DeleteRelation(read_bytes(s, a, b)));
            }
            pos = b;
        } else {
            let p3 = match read_skip(s, p2, wt) {
                Some(p) => p,
                None => {
                    return None;
                },
            };
            pos = p3;
        }
    }
}

/// Decode a whole edit payload. Returns exactly what the grammar
/// denotes for the bytes: `Some` with the decoded edit's view, or
/// `None` where the bytes are malformed.
pub fn decode_edit(s: &[u8]) -> (r: Option<Edit>)
    requires
        s@.len() < 0x10000000000000,
    ensures
        match r {
            Some(e) => sp_edit(s@) == Some(edit_view(e)),
            None => sp_edit(s@) is None,
        },
{
    let n = s.len();
    let mut acc = Edit {
        id: Vec::new(),
        name: String::new(),
        ops: Vec::new(),
        authors: Vec::new(),
        language: None,
    };
    let mut pos: usize = 0;
    proof {
        assert(ops_view(acc.ops@) =~= Seq::<OpV>::empty());
        assert(bytes_seq_view(acc.authors@) =~= Seq::<Seq<u8>>::empty());
    }
    loop
        invariant
            pos <= n == s@.len(),
            n < 0x10000000000000,
            sp_edit(s@) == sp_edit_fields(s@, pos as int, edit_view(acc)),
        decreases n - pos,
    {
        if pos == n {
            return Some(acc);
        }
        let (field, wt, p2) = match read_tag(s, pos) {
            Some(t) => t,
            None => {
                return None;
            },
        };
        if field == 1 && wt == 2 {
            let (a, b) = match read_len_payload(s, p2) {
                Some(p) => p,
                None => {
                    return None;
                },
            };
            acc.id = read_bytes(s, a, b);
            pos = b;
        } else if field == 2 && wt == 2 {
            let (a, b) = match read_len_payload(s, p2) {
                Some(p) => p,
                None => {
                    return None;
                },
            };
            let t = match read_string(s, a, b) {
                Some(t) => t,
                None => {
                    return None;
                },
            };
            acc.name = t;
            pos = b;
        } else if field == 3 && wt == 2 {
            let (a, b) = match read_len_payload(s, p2) {
                Some(p) => p,
                None => {
                    return None;
                },
            };
            let sub = slice_subrange(s, a, b);
            let op = match decode_op(sub) {
                Some(op) => op,
                None => {
                    return None;
                },
            };
            let ghost before = acc.ops@;
            acc.ops.push(op);
            proof {
                assert(ops_view(acc.ops@) =~= ops_view(before).push(op_view(op)));
            }
            pos = b;
        } else if field == 4 && wt == 2 {
            let (a, b) = match read_len_payload(s, p2) {
                Some(p) => p,
                None => {
                    return None;
                },
            };
            let bs = read_bytes(s, a, b);
            let ghost before = acc.authors@;
            acc.authors.push(bs);
            proof {
                assert(bytes_seq_view(acc.authors@) =~= bytes_seq_view(before).push(
                    s@.subrange(a as int, b as int),
                ));
            }
            pos = b;
        } else if field == 5 && wt == 2 {
            let (a, b) = match read_len_payload(s, p2) {
                Some(p) => p,
                None => {
                    return None;
                },
            };
            let t = match read_string(s, a, b) {
                Some(t) => t,
                None => {
                    return None;
                },
            };
            acc.language = Some(t);
            pos = b;
        } else {
            let p3 = match read_skip(s, p2, wt) {
                Some(p) => p,
                None => {
                    return None;
                },
            };
            pos = p3;
        }
    }
}

} // verus!
