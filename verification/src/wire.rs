//! The wire format, as mathematics.
//!
//! Two message shapes cross the boundary: a parameter set and a row. Both
//! are built from one scalar encoding. The format follows the usual
//! tag-length-value layout: a one-byte field key (field number shifted left
//! three times, plus the wire kind), base-128 varints for integers and
//! lengths, and eight little-endian bytes for a real's bit pattern.
//!
//! `..._bytes` functions give the one canonical encoding of a message;
//! `..._parse` functions give the meaning of a buffer, accepting exactly
//! the canonical encodings. The lemmas at the end state the round-trip
//! laws: parsing an encoding yields the message back, and re-encoding a
//! parsed buffer reproduces the identical byte sequence.

use vstd::prelude::*;

use crate::values::{ParamSetModel, ScalarModel};

verus! {

/// Field key for an integer scalar: field 1, varint wire kind.
pub const KEY_INTEGER: u8 = 0x08;

/// Field key for a real scalar: field 2, 64-bit wire kind.
pub const KEY_REAL: u8 = 0x11;

/// Field key for a text scalar: field 3, length-delimited wire kind.
pub const KEY_TEXT: u8 = 0x1A;

/// Field key for a blob scalar: field 4, length-delimited wire kind.
pub const KEY_BLOB: u8 = 0x22;

/// Field key for a null scalar: field 5, an empty nested message.
pub const KEY_NULL: u8 = 0x2A;

/// Field key of every element of a repeated list (field 1, length-delimited):
/// a row's values, a named entry list, a positional value list, and a named
/// entry's key.
pub const KEY_ELEM: u8 = 0x0A;

/// Field key for the value inside a named entry, and for the positional
/// list inside a parameter set (field 2, length-delimited).
pub const KEY_SECOND: u8 = 0x12;

/// The least integer that does not fit in an unsigned 64-bit word.
pub open spec fn u64_bound() -> nat {
    0x1_0000_0000_0000_0000
}

/// Base-128 varint encoding, least significant group first; every byte but
/// the last carries a continuation bit.
pub open spec fn varint(n: nat) -> Seq<u8>
    decreases n,
{
    if n < 0x80 {
        seq![n as u8]
    } else {
        seq![(0x80 + n % 0x80) as u8] + varint(n / 0x80)
    }
}

/// Parse one varint off the front of `s`: the value and the remainder.
/// Rejects over-long encodings (a continuation into a zero group) and
/// values that do not fit in 64 bits, so exactly the encodings `varint`
/// produces for 64-bit values are accepted.
pub open spec fn varint_parse(s: Seq<u8>) -> Option<(nat, Seq<u8>)>
    decreases s.len(),
{
    if s.len() == 0 {
        None
    } else if s[0] < 0x80 {
        Some(((s[0] as nat), s.drop_first()))
    } else {
        match varint_parse(s.drop_first()) {
            Some((hi, rest)) => {
                let n = hi * 0x80 + (s[0] - 0x80);
                if hi == 0 || n >= u64_bound() {
                    None
                } else {
                    Some(((n as nat), rest))
                }
            },
            None => None,
        }
    }
}

/// `k` little-endian bytes of `n`.
pub open spec fn le_bytes(n: nat, k: nat) -> Seq<u8>
    decreases k,
{
    if k == 0 {
        Seq::empty()
    } else {
        seq![(n % 0x100) as u8] + le_bytes(n / 0x100, (k - 1) as nat)
    }
}

/// The integer read from a little-endian byte sequence.
pub open spec fn le_val(b: Seq<u8>) -> nat
    decreases b.len(),
{
    if b.len() == 0 {
        0
    } else {
        (b[0] + 0x100 * le_val(b.drop_first())) as nat
    }
}

/// A length-delimited field: key, length varint, body.
pub open spec fn field_msg(key: u8, body: Seq<u8>) -> Seq<u8> {
    seq![key] + varint(body.len()) + body
}

/// The canonical encoding of one scalar message.
pub open spec fn scalar_bytes(v: ScalarModel) -> Seq<u8> {
    match v {
        ScalarModel::Null => seq![KEY_NULL, 0u8],
        ScalarModel::Integer(i) => seq![KEY_INTEGER] + varint((i as u64) as nat),
        ScalarModel::Real(bits) => seq![KEY_REAL] + le_bytes(bits as nat, 8),
        ScalarModel::Text(t) => seq![KEY_TEXT] + varint(t.len()) + t,
        ScalarModel::Blob(b) => seq![KEY_BLOB] + varint(b.len()) + b,
    }
}

/// Whether a scalar is small enough to survive a round trip: its payload
/// length fits in 64 bits. Every scalar held in memory satisfies this.
pub open spec fn scalar_wf(v: ScalarModel) -> bool {
    match v {
        ScalarModel::Text(t) => t.len() < u64_bound(),
        ScalarModel::Blob(b) => b.len() < u64_bound(),
        _ => true,
    }
}

/// The meaning of a whole buffer as one scalar message: exactly the
/// canonical encodings are accepted, anything else is rejected.
pub open spec fn scalar_parse(s: Seq<u8>) -> Option<ScalarModel> {
    if s.len() == 0 {
        None
    } else if s[0] == KEY_INTEGER {
        match varint_parse(s.drop_first()) {
            Some((n, rest)) => if rest.len() == 0 {
                Some(ScalarModel::Integer(n as u64 as i64))
            } else {
                None
            },
            None => None,
        }
    } else if s[0] == KEY_REAL {
        if s.len() == 9 {
            Some(ScalarModel::Real(le_val(s.drop_first()) as u64))
        } else {
            None
        }
    } else if s[0] == KEY_TEXT {
        match varint_parse(s.drop_first()) {
            Some((n, rest)) => if rest.len() == n {
                Some(ScalarModel::Text(rest))
            } else {
                None
            },
            None => None,
        }
    } else if s[0] == KEY_BLOB {
        match varint_parse(s.drop_first()) {
            Some((n, rest)) => if rest.len() == n {
                Some(ScalarModel::Blob(rest))
            } else {
                None
            },
            None => None,
        }
    } else if s[0] == KEY_NULL {
        if s.len() == 2 && s[1] == 0 {
            Some(ScalarModel::Null)
        } else {
            None
        }
    } else {
        None
    }
}

/// Parsing a varint consumes at least one byte.
pub proof fn lemma_varint_parse_suffix(s: Seq<u8>)
    ensures
        match varint_parse(s) {
            Some(p) => p.1.len() < s.len(),
            None => true,
        },
    decreases s.len(),
{
    if s.len() > 0 && s[0] >= 0x80 {
        lemma_varint_parse_suffix(s.drop_first());
    }
}

/// The canonical encoding of a list of scalars, each wrapped as a
/// length-delimited element field. A row message is exactly this, and so
/// is the positional list inside a parameter set.
pub open spec fn row_bytes(vs: Seq<ScalarModel>) -> Seq<u8>
    decreases vs.len(),
{
    if vs.len() == 0 {
        Seq::empty()
    } else {
        field_msg(KEY_ELEM, scalar_bytes(vs[0])) + row_bytes(vs.drop_first())
    }
}

/// Every scalar of the list is well-formed and each element field fits in
/// 64 bits.
pub open spec fn row_wf(vs: Seq<ScalarModel>) -> bool {
    forall|i: int| 0 <= i < vs.len() ==> scalar_wf(#[trigger] vs[i])
        && scalar_bytes(vs[i]).len() < u64_bound()
}

/// The meaning of a whole buffer as a list of scalar elements.
pub open spec fn row_parse(s: Seq<u8>) -> Option<Seq<ScalarModel>>
    decreases s.len(),
    via row_parse_decreases
{
    if s.len() == 0 {
        Some(Seq::empty())
    } else if s[0] != KEY_ELEM {
        None
    } else {
        match varint_parse(s.drop_first()) {
            Some((n, rest)) => if n <= rest.len() {
                match scalar_parse(rest.take(n as int)) {
                    Some(v) => match row_parse(rest.skip(n as int)) {
                        Some(tail) => Some(seq![v] + tail),
                        None => None,
                    },
                    None => None,
                }
            } else {
                None
            },
            None => None,
        }
    }
}

#[via_fn]
proof fn row_parse_decreases(s: Seq<u8>) {
    if s.len() > 0 {
        lemma_varint_parse_suffix(s.drop_first());
    }
}

/// The canonical encoding of one named entry's body: the key bytes as
/// field 1, the scalar as field 2.
pub open spec fn entry_bytes(k: Seq<u8>, v: ScalarModel) -> Seq<u8> {
    field_msg(KEY_ELEM, k) + field_msg(KEY_SECOND, scalar_bytes(v))
}

/// The meaning of a whole buffer as one named entry.
pub open spec fn entry_parse(s: Seq<u8>) -> Option<(Seq<u8>, ScalarModel)> {
    if s.len() == 0 || s[0] != KEY_ELEM {
        None
    } else {
        match varint_parse(s.drop_first()) {
            Some((klen, rest)) => if klen <= rest.len() {
                let k = rest.take(klen as int);
                let after = rest.skip(klen as int);
                if after.len() == 0 || after[0] != KEY_SECOND {
                    None
                } else {
                    match varint_parse(after.drop_first()) {
                        Some((vlen, vrest)) => if vrest.len() == vlen {
                            match scalar_parse(vrest) {
                                Some(v) => Some((k, v)),
                                None => None,
                            }
                        } else {
                            None
                        },
                        None => None,
                    }
                }
            } else {
                None
            },
            None => None,
        }
    }
}

/// The canonical encoding of a named entry list, each entry wrapped as a
/// length-delimited element field.
pub open spec fn named_bytes(entries: Seq<(Seq<u8>, ScalarModel)>) -> Seq<u8>
    decreases entries.len(),
{
    if entries.len() == 0 {
        Seq::empty()
    } else {
        field_msg(KEY_ELEM, entry_bytes(entries[0].0, entries[0].1))
            + named_bytes(entries.drop_first())
    }
}

/// The meaning of a whole buffer as a named entry list.
pub open spec fn named_parse(s: Seq<u8>) -> Option<Seq<(Seq<u8>, ScalarModel)>>
    decreases s.len(),
    via named_parse_decreases
{
    if s.len() == 0 {
        Some(Seq::empty())
    } else if s[0] != KEY_ELEM {
        None
    } else {
        match varint_parse(s.drop_first()) {
            Some((n, rest)) => if n <= rest.len() {
                match entry_parse(rest.take(n as int)) {
                    Some(e) => match named_parse(rest.skip(n as int)) {
                        Some(tail) => Some(seq![e] + tail),
                        None => None,
                    },
                    None => None,
                }
            } else {
                None
            },
            None => None,
        }
    }
}

#[via_fn]
proof fn named_parse_decreases(s: Seq<u8>) {
    if s.len() > 0 {
        lemma_varint_parse_suffix(s.drop_first());
    }
}

/// The canonical encoding of a parameter set message. An absent set is the
/// empty buffer; a named set is the entry list wrapped as field 1; a
/// positional set is the value list wrapped as field 2.
pub open spec fn param_set_bytes(p: ParamSetModel) -> Seq<u8> {
    match p {
        ParamSetModel::Absent => Seq::empty(),
        ParamSetModel::Named(entries) => field_msg(KEY_ELEM, named_bytes(entries)),
        ParamSetModel::Positional(vs) => field_msg(KEY_SECOND, row_bytes(vs)),
    }
}

/// Every entry of a named set is well-formed: key, scalar and the entry
/// field itself fit in 64 bits.
pub open spec fn named_wf(entries: Seq<(Seq<u8>, ScalarModel)>) -> bool {
    forall|i: int| 0 <= i < entries.len() ==> (#[trigger] entries[i].0).len() < u64_bound()
        && scalar_wf(entries[i].1)
        && entry_bytes(entries[i].0, entries[i].1).len() < u64_bound()
}

/// Whether a parameter set is small enough to survive a round trip.
pub open spec fn param_set_wf(p: ParamSetModel) -> bool {
    match p {
        ParamSetModel::Absent => true,
        ParamSetModel::Named(entries) => named_wf(entries) && named_bytes(entries).len()
            < u64_bound(),
        ParamSetModel::Positional(vs) => row_wf(vs) && row_bytes(vs).len() < u64_bound(),
    }
}

/// The meaning of a whole buffer as a parameter set message.
pub open spec fn param_set_parse(s: Seq<u8>) -> Option<ParamSetModel> {
    if s.len() == 0 {
        Some(ParamSetModel::Absent)
    } else if s[0] == KEY_ELEM {
        match varint_parse(s.drop_first()) {
            Some((n, rest)) => if rest.len() == n {
                match named_parse(rest) {
                    Some(entries) => Some(ParamSetModel::Named(entries)),
                    None => None,
                }
            } else {
                None
            },
            None => None,
        }
    } else if s[0] == KEY_SECOND {
        match varint_parse(s.drop_first()) {
            Some((n, rest)) => if rest.len() == n {
                match row_parse(rest) {
                    Some(vs) => Some(ParamSetModel::Positional(vs)),
                    None => None,
                }
            } else {
                None
            },
            None => None,
        }
    } else {
        None
    }
}

/// Parsing peels off exactly the varint that encoding laid down.
pub proof fn lemma_varint_round_trip(n: nat, rest: Seq<u8>)
    requires
        n < u64_bound(),
    ensures
        varint_parse(varint(n) + rest) == Some((n, rest)),
    decreases n,
{
    let s = varint(n) + rest;
    if n < 0x80 {
        assert(s.drop_first() =~= rest);
    } else {
        vstd::arithmetic::div_mod::lemma_fundamental_div_mod(n as int, 0x80);
        let q = n / 0x80;
        assert(s.drop_first() =~= varint(q) + rest);
        lemma_varint_round_trip(q, rest);
        assert(q * 0x80 + (s[0] - 0x80) == n);
    }
}

/// Whatever the varint parser accepts is the canonical encoding of what it
/// returns, followed by the remainder it returns.
pub proof fn lemma_varint_parse_sound(s: Seq<u8>)
    ensures
        match varint_parse(s) {
            Some(p) => p.0 < u64_bound() && s =~= varint(p.0) + p.1,
            None => true,
        },
    decreases s.len(),
{
    if s.len() == 0 {
    } else if s[0] < 0x80 {
        assert(varint(s[0] as nat) =~= seq![s[0]]);
        assert(s =~= seq![s[0]] + s.drop_first());
    } else {
        lemma_varint_parse_sound(s.drop_first());
        match varint_parse(s.drop_first()) {
            Some((hi, rest)) => {
                if hi != 0 && hi * 0x80 + (s[0] - 0x80) < u64_bound() {
                    let n = (hi * 0x80 + (s[0] - 0x80)) as nat;
                    vstd::arithmetic::div_mod::lemma_fundamental_div_mod_converse(
                        n as int,
                        0x80,
                        hi as int,
                        s[0] - 0x80,
                    );
                    assert(n >= 0x80);
                    assert(varint(n) =~= seq![s[0]] + varint(hi));
                    assert(s =~= seq![s[0]] + s.drop_first());
                    assert(s =~= varint(n) + rest);
                }
            },
            None => {},
        }
    }
}

/// `0x100` raised to the `k`th power: the least integer that does not fit
/// in `k` bytes.
pub open spec fn pow256(k: nat) -> nat
    decreases k,
{
    if k == 0 {
        1
    } else {
        0x100 * pow256((k - 1) as nat)
    }
}

pub proof fn lemma_pow256_8()
    ensures
        pow256(8) == u64_bound(),
{
    reveal_with_fuel(pow256, 9);
}

/// A power of 0x100 is positive, and the powers grow with the exponent.
pub proof fn lemma_pow256_mono(a: nat, b: nat)
    requires
        a <= b,
    ensures
        1 <= pow256(a) <= pow256(b),
    decreases b,
{
    if b == 0 {
    } else if a == b {
        lemma_pow256_mono((a - 1) as nat, (b - 1) as nat);
    } else {
        lemma_pow256_mono(a, (b - 1) as nat);
    }
}

/// Little-endian encoding always yields exactly `k` bytes.
pub proof fn lemma_le_bytes_len(n: nat, k: nat)
    ensures
        le_bytes(n, k).len() == k,
    decreases k,
{
    if k > 0 {
        lemma_le_bytes_len(n / 0x100, (k - 1) as nat);
    }
}

/// Reading back `k` little-endian bytes restores the value laid down.
pub proof fn lemma_le_round_trip(n: nat, k: nat)
    requires
        n < pow256(k),
    ensures
        le_val(le_bytes(n, k)) == n,
    decreases k,
{
    if k > 0 {
        vstd::arithmetic::div_mod::lemma_fundamental_div_mod(n as int, 0x100);
        lemma_le_round_trip(n / 0x100, (k - 1) as nat);
        assert(le_bytes(n, k).drop_first() =~= le_bytes(n / 0x100, (k - 1) as nat));
    }
}

/// Any `k` bytes read little-endian re-encode to the same `k` bytes, and
/// the value read fits in `k` bytes.
pub proof fn lemma_le_bytes_of_val(b: Seq<u8>)
    ensures
        le_val(b) < pow256(b.len()),
        le_bytes(le_val(b), b.len()) =~= b,
    decreases b.len(),
{
    if b.len() > 0 {
        lemma_le_bytes_of_val(b.drop_first());
        let v = le_val(b);
        vstd::arithmetic::div_mod::lemma_fundamental_div_mod_converse(
            v as int,
            0x100,
            le_val(b.drop_first()) as int,
            b[0] as int,
        );
        assert(le_bytes(v, b.len()).drop_first() =~= le_bytes(
            le_val(b.drop_first()),
            b.drop_first().len(),
        ));
        assert(le_bytes(v, b.len()) =~= b);
    }
}

/// A scalar list whose whole encoding fits in 64 bits is well-formed:
/// every payload and every element field is no longer than the whole.
pub proof fn lemma_row_elem_bounds(vs: Seq<ScalarModel>)
    requires
        row_bytes(vs).len() < u64_bound(),
    ensures
        row_wf(vs),
    decreases vs.len(),
{
    if vs.len() > 0 {
        let sb = scalar_bytes(vs[0]);
        assert(scalar_wf(vs[0])) by {
            match vs[0] {
                ScalarModel::Text(t) => {
                    assert(sb.len() >= t.len());
                },
                ScalarModel::Blob(b) => {
                    assert(sb.len() >= b.len());
                },
                _ => {},
            }
        }
        lemma_row_elem_bounds(vs.drop_first());
        assert forall|i: int| 0 <= i < vs.len() implies scalar_wf(#[trigger] vs[i])
            && scalar_bytes(vs[i]).len() < u64_bound() by {
            if i > 0 {
                assert(vs[i] == vs.drop_first()[i - 1]);
            }
        }
    }
}

/// Round trip for one scalar: parsing its canonical encoding yields the
/// scalar back.
pub proof fn lemma_scalar_round_trip(v: ScalarModel)
    requires
        scalar_wf(v),
    ensures
        scalar_parse(scalar_bytes(v)) == Some(v),
{
    let s = scalar_bytes(v);
    match v {
        ScalarModel::Null => {
            assert(s =~= seq![KEY_NULL, 0u8]);
        },
        ScalarModel::Integer(i) => {
            let n = (i as u64) as nat;
            assert(s.drop_first() =~= varint(n) + Seq::<u8>::empty());
            lemma_varint_round_trip(n, Seq::<u8>::empty());
            assert((i as u64) as i64 == i) by (bit_vector);
        },
        ScalarModel::Real(bits) => {
            lemma_le_bytes_len(bits as nat, 8);
            assert(s.len() == 9);
            assert(s.drop_first() =~= le_bytes(bits as nat, 8));
            lemma_pow256_8();
            lemma_le_round_trip(bits as nat, 8);
        },
        ScalarModel::Text(t) => {
            assert(s.drop_first() =~= varint(t.len()) + t);
            lemma_varint_round_trip(t.len(), t);
        },
        ScalarModel::Blob(b) => {
            assert(s.drop_first() =~= varint(b.len()) + b);
            lemma_varint_round_trip(b.len(), b);
        },
    }
}

/// Casting a 64-bit word to a signed word and back is the identity.
proof fn lemma_u64_i64_round(m: u64)
    ensures
        (m as i64) as u64 == m,
{
    assert((m as i64) as u64 == m) by (bit_vector);
}

/// Whatever the scalar parser accepts is the canonical encoding of the
/// scalar it returns, and that scalar is well-formed.
pub proof fn lemma_scalar_parse_sound(s: Seq<u8>)
    ensures
        match scalar_parse(s) {
            Some(v) => scalar_wf(v) && s =~= scalar_bytes(v),
            None => true,
        },
{
    if s.len() == 0 {
    } else if s[0] == KEY_INTEGER {
        lemma_varint_parse_sound(s.drop_first());
        match varint_parse(s.drop_first()) {
            Some((n, rest)) => {
                if rest.len() == 0 {
                    let i = n as u64 as i64;
                    lemma_u64_i64_round(n as u64);
                    assert((i as u64) as nat == n);
                    assert(s =~= seq![s[0]] + s.drop_first());
                    assert(varint(n) + rest =~= varint(n));
                    assert(s =~= scalar_bytes(ScalarModel::Integer(i)));
                }
            },
            None => {},
        }
    } else if s[0] == KEY_REAL {
        if s.len() == 9 {
            lemma_le_bytes_of_val(s.drop_first());
            lemma_pow256_8();
            let bits = le_val(s.drop_first()) as u64;
            assert(bits as nat == le_val(s.drop_first()));
            assert(s =~= seq![s[0]] + s.drop_first());
            assert(s =~= scalar_bytes(ScalarModel::Real(bits)));
        }
    } else if s[0] == KEY_TEXT {
        lemma_varint_parse_sound(s.drop_first());
        match varint_parse(s.drop_first()) {
            Some((n, rest)) => {
                if rest.len() == n {
                    assert(s =~= seq![s[0]] + s.drop_first());
                    assert(s =~= scalar_bytes(ScalarModel::Text(rest)));
                }
            },
            None => {},
        }
    } else if s[0] == KEY_BLOB {
        lemma_varint_parse_sound(s.drop_first());
        match varint_parse(s.drop_first()) {
            Some((n, rest)) => {
                if rest.len() == n {
                    assert(s =~= seq![s[0]] + s.drop_first());
                    assert(s =~= scalar_bytes(ScalarModel::Blob(rest)));
                }
            },
            None => {},
        }
    }
}

/// Encoding a list of scalars distributes over concatenation.
pub proof fn lemma_row_bytes_concat(a: Seq<ScalarModel>, b: Seq<ScalarModel>)
    ensures
        row_bytes(a + b) == row_bytes(a) + row_bytes(b),
    decreases a.len(),
{
    if a.len() == 0 {
        assert(a + b =~= b);
        assert(row_bytes(a) + row_bytes(b) =~= row_bytes(b));
    } else {
        assert((a + b).drop_first() =~= a.drop_first() + b);
        lemma_row_bytes_concat(a.drop_first(), b);
        assert(field_msg(KEY_ELEM, scalar_bytes(a[0])) + (row_bytes(a.drop_first()) + row_bytes(b))
            =~= (field_msg(KEY_ELEM, scalar_bytes(a[0])) + row_bytes(a.drop_first())) + row_bytes(
            b,
        ));
    }
}

/// Round trip for a scalar list: parsing its canonical encoding yields the
/// list back.
pub proof fn lemma_row_round_trip(vs: Seq<ScalarModel>)
    requires
        row_wf(vs),
    ensures
        row_parse(row_bytes(vs)) == Some(vs),
    decreases vs.len(),
{
    if vs.len() > 0 {
        let sb = scalar_bytes(vs[0]);
        let tail = row_bytes(vs.drop_first());
        let s = row_bytes(vs);
        assert(s.drop_first() =~= varint(sb.len()) + (sb + tail));
        lemma_varint_round_trip(sb.len(), sb + tail);
        assert((sb + tail).take(sb.len() as int) =~= sb);
        assert((sb + tail).skip(sb.len() as int) =~= tail);
        lemma_scalar_round_trip(vs[0]);
        assert(row_wf(vs.drop_first())) by {
            assert forall|i: int| 0 <= i < vs.drop_first().len() implies scalar_wf(
                #[trigger] vs.drop_first()[i],
            ) && scalar_bytes(vs.drop_first()[i]).len() < u64_bound() by {
                assert(vs.drop_first()[i] == vs[i + 1]);
            }
        }
        lemma_row_round_trip(vs.drop_first());
        assert(seq![vs[0]] + vs.drop_first() =~= vs);
    }
}

/// Whatever the list parser accepts is the canonical encoding of the list
/// it returns, and that list is well-formed.
pub proof fn lemma_row_parse_sound(s: Seq<u8>)
    ensures
        match row_parse(s) {
            Some(vs) => row_wf(vs) && s =~= row_bytes(vs),
            None => true,
        },
    decreases s.len(),
{
    if s.len() == 0 || s[0] != KEY_ELEM {
    } else {
        lemma_varint_parse_suffix(s.drop_first());
        lemma_varint_parse_sound(s.drop_first());
        match varint_parse(s.drop_first()) {
            Some((n, rest)) => {
                if n <= rest.len() {
                    lemma_scalar_parse_sound(rest.take(n as int));
                    match scalar_parse(rest.take(n as int)) {
                        Some(v) => {
                            lemma_row_parse_sound(rest.skip(n as int));
                            match row_parse(rest.skip(n as int)) {
                                Some(tail) => {
                                    let vsr = seq![v] + tail;
                                    assert(vsr.drop_first() =~= tail);
                                    assert(scalar_bytes(v).len() == n);
                                    assert(row_bytes(vsr) == field_msg(KEY_ELEM, scalar_bytes(v))
                                        + row_bytes(tail));
                                    assert(rest =~= rest.take(n as int) + rest.skip(n as int));
                                    assert(s =~= seq![s[0]] + s.drop_first());
                                    assert(s =~= row_bytes(vsr));
                                    assert forall|i: int| 0 <= i < vsr.len() implies scalar_wf(
                                        #[trigger] vsr[i],
                                    ) && scalar_bytes(vsr[i]).len() < u64_bound() by {
                                        if i > 0 {
                                            assert(vsr[i] == tail[i - 1]);
                                        }
                                    }
                                },
                                None => {},
                            }
                        },
                        None => {},
                    }
                }
            },
            None => {},
        }
    }
}

/// Round trip for one named entry.
pub proof fn lemma_entry_round_trip(k: Seq<u8>, v: ScalarModel)
    requires
        k.len() < u64_bound(),
        scalar_wf(v),
        scalar_bytes(v).len() < u64_bound(),
    ensures
        entry_parse(entry_bytes(k, v)) == Some((k, v)),
{
    let sb = scalar_bytes(v);
    let second = field_msg(KEY_SECOND, sb);
    let s = entry_bytes(k, v);
    assert(s.drop_first() =~= varint(k.len()) + (k + second));
    lemma_varint_round_trip(k.len(), k + second);
    assert((k + second).take(k.len() as int) =~= k);
    assert((k + second).skip(k.len() as int) =~= second);
    assert(second.drop_first() =~= varint(sb.len()) + sb);
    lemma_varint_round_trip(sb.len(), sb);
    lemma_scalar_round_trip(v);
}

/// Whatever the entry parser accepts is the canonical encoding of the
/// entry it returns, and that entry is well-formed.
#[verifier::rlimit(100)]
pub proof fn lemma_entry_parse_sound(s: Seq<u8>)
    ensures
        match entry_parse(s) {
            Some(e) => e.0.len() < u64_bound() && scalar_wf(e.1) && scalar_bytes(e.1).len()
                < u64_bound() && s =~= entry_bytes(e.0, e.1),
            None => true,
        },
{
    if s.len() == 0 || s[0] != KEY_ELEM {
    } else {
        lemma_varint_parse_sound(s.drop_first());
        match varint_parse(s.drop_first()) {
            Some((klen, rest)) => {
                if klen <= rest.len() {
                    let k = rest.take(klen as int);
                    let after = rest.skip(klen as int);
                    if after.len() > 0 && after[0] == KEY_SECOND {
                        lemma_varint_parse_sound(after.drop_first());
                        match varint_parse(after.drop_first()) {
                            Some((vlen, vrest)) => {
                                if vrest.len() == vlen {
                                    lemma_scalar_parse_sound(vrest);
                                    match scalar_parse(vrest) {
                                        Some(v) => {
                                            assert(after =~= seq![after[0]] + after.drop_first());
                                            assert(varint(vlen) + vrest =~= varint(vrest.len())
                                                + vrest);
                                            assert(after =~= field_msg(
                                                KEY_SECOND,
                                                scalar_bytes(v),
                                            ));
                                            assert(rest =~= k + after);
                                            assert(s =~= seq![s[0]] + s.drop_first());
                                            assert(s =~= entry_bytes(k, v));
                                        },
                                        None => {},
                                    }
                                }
                            },
                            None => {},
                        }
                    }
                }
            },
            None => {},
        }
    }
}

/// Encoding a named entry list distributes over concatenation.
pub proof fn lemma_named_bytes_concat(
    a: Seq<(Seq<u8>, ScalarModel)>,
    b: Seq<(Seq<u8>, ScalarModel)>,
)
    ensures
        named_bytes(a + b) == named_bytes(a) + named_bytes(b),
    decreases a.len(),
{
    if a.len() == 0 {
        assert(a + b =~= b);
        assert(named_bytes(a) + named_bytes(b) =~= named_bytes(b));
    } else {
        assert((a + b).drop_first() =~= a.drop_first() + b);
        lemma_named_bytes_concat(a.drop_first(), b);
        assert(field_msg(KEY_ELEM, entry_bytes(a[0].0, a[0].1)) + (named_bytes(a.drop_first())
            + named_bytes(b)) =~= (field_msg(KEY_ELEM, entry_bytes(a[0].0, a[0].1)) + named_bytes(
            a.drop_first(),
        )) + named_bytes(b));
    }
}

/// Round trip for a named entry list.
#[verifier::rlimit(100)]
pub proof fn lemma_named_round_trip(entries: Seq<(Seq<u8>, ScalarModel)>)
    requires
        named_wf(entries),
    ensures
        named_parse(named_bytes(entries)) == Some(entries),
    decreases entries.len(),
{
    if entries.len() > 0 {
        let eb = entry_bytes(entries[0].0, entries[0].1);
        let tail = named_bytes(entries.drop_first());
        let s = named_bytes(entries);
        assert(s.drop_first() =~= varint(eb.len()) + (eb + tail));
        lemma_varint_round_trip(eb.len(), eb + tail);
        assert((eb + tail).take(eb.len() as int) =~= eb);
        assert((eb + tail).skip(eb.len() as int) =~= tail);
        lemma_entry_round_trip(entries[0].0, entries[0].1);
        assert(named_wf(entries.drop_first())) by {
            assert forall|i: int| 0 <= i < entries.drop_first().len() implies (#[trigger] entries
                .drop_first()[i]).0.len() < u64_bound() && scalar_wf(entries.drop_first()[i].1)
                && entry_bytes(entries.drop_first()[i].0, entries.drop_first()[i].1).len()
                < u64_bound() by {
                assert(entries.drop_first()[i] == entries[i + 1]);
            }
        }
        lemma_named_round_trip(entries.drop_first());
        assert(seq![entries[0]] + entries.drop_first() =~= entries);
    }
}

/// Whatever the named list parser accepts is the canonical encoding of the
/// list it returns, and that list is well-formed.
#[verifier::rlimit(50)]
pub proof fn lemma_named_parse_sound(s: Seq<u8>)
    ensures
        match named_parse(s) {
            Some(entries) => named_wf(entries) && s =~= named_bytes(entries),
            None => true,
        },
    decreases s.len(),
{
    if s.len() == 0 || s[0] != KEY_ELEM {
    } else {
        lemma_varint_parse_suffix(s.drop_first());
        lemma_varint_parse_sound(s.drop_first());
        match varint_parse(s.drop_first()) {
            Some((n, rest)) => {
                if n <= rest.len() {
                    lemma_entry_parse_sound(rest.take(n as int));
                    match entry_parse(rest.take(n as int)) {
                        Some(e) => {
                            lemma_named_parse_sound(rest.skip(n as int));
                            match named_parse(rest.skip(n as int)) {
                                Some(tail) => {
                                    let esr = seq![e] + tail;
                                    assert(esr.drop_first() =~= tail);
                                    assert(entry_bytes(e.0, e.1).len() == n);
                                    assert(named_bytes(esr) == field_msg(
                                        KEY_ELEM,
                                        entry_bytes(e.0, e.1),
                                    ) + named_bytes(tail));
                                    assert(rest =~= rest.take(n as int) + rest.skip(n as int));
                                    assert(s =~= seq![s[0]] + s.drop_first());
                                    assert(s =~= named_bytes(esr));
                                    assert forall|i: int| 0 <= i < esr.len() implies (
                                    #[trigger] esr[i]).0.len() < u64_bound() && scalar_wf(
                                        esr[i].1,
                                    ) && entry_bytes(esr[i].0, esr[i].1).len() < u64_bound() by {
                                        if i > 0 {
                                            assert(esr[i] == tail[i - 1]);
                                        }
                                    }
                                },
                                None => {},
                            }
                        },
                        None => {},
                    }
                }
            },
            None => {},
        }
    }
}

/// The round-trip law for a parameter set message: parsing the canonical
/// encoding of any well-formed parameter set yields that parameter set
/// back, unchanged.
pub proof fn lemma_param_set_round_trip(p: ParamSetModel)
    requires
        param_set_wf(p),
    ensures
        param_set_parse(param_set_bytes(p)) == Some(p),
{
    let s = param_set_bytes(p);
    match p {
        ParamSetModel::Absent => {},
        ParamSetModel::Named(entries) => {
            let nb = named_bytes(entries);
            assert(s.drop_first() =~= varint(nb.len()) + nb);
            lemma_varint_round_trip(nb.len(), nb);
            lemma_named_round_trip(entries);
        },
        ParamSetModel::Positional(vs) => {
            let rb = row_bytes(vs);
            assert(s.drop_first() =~= varint(rb.len()) + rb);
            lemma_varint_round_trip(rb.len(), rb);
            lemma_row_round_trip(vs);
        },
    }
}

/// The canonicality law for a parameter set message: whatever the parser
/// accepts re-encodes to the identical byte sequence.
pub proof fn lemma_param_set_parse_sound(s: Seq<u8>)
    ensures
        match param_set_parse(s) {
            Some(p) => param_set_wf(p) && s =~= param_set_bytes(p),
            None => true,
        },
{
    if s.len() == 0 {
    } else if s[0] == KEY_ELEM {
        lemma_varint_parse_sound(s.drop_first());
        match varint_parse(s.drop_first()) {
            Some((n, rest)) => {
                if rest.len() == n {
                    lemma_named_parse_sound(rest);
                    match named_parse(rest) {
                        Some(entries) => {
                            assert(s =~= seq![s[0]] + s.drop_first());
                            assert(varint(n) + rest =~= varint(rest.len()) + rest);
                            assert(s =~= param_set_bytes(ParamSetModel::Named(entries)));
                        },
                        None => {},
                    }
                }
            },
            None => {},
        }
    } else if s[0] == KEY_SECOND {
        lemma_varint_parse_sound(s.drop_first());
        match varint_parse(s.drop_first()) {
            Some((n, rest)) => {
                if rest.len() == n {
                    lemma_row_parse_sound(rest);
                    match row_parse(rest) {
                        Some(vs) => {
                            assert(s =~= seq![s[0]] + s.drop_first());
                            assert(varint(n) + rest =~= varint(rest.len()) + rest);
                            assert(s =~= param_set_bytes(ParamSetModel::Positional(vs)));
                        },
                        None => {},
                    }
                }
            },
            None => {},
        }
    }
}

} // verus!
