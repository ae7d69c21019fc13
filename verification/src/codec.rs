//! The executable codec: encoding and decoding of wire messages.
//!
//! Every function here is verified against the mathematical format in
//! `wire`: an encoder's output is exactly the canonical `..._bytes`
//! encoding of its argument, and a decoder accepts a buffer exactly when
//! the corresponding `..._parse` function gives it a meaning, returning
//! that meaning.

use vstd::prelude::*;

use crate::values::{entry_views, scalar_views, ParamSet, Scalar};
use crate::wire::{
    field_msg, le_val, lemma_named_bytes_concat, lemma_pow256_8, lemma_row_bytes_concat,
    named_bytes, param_set_bytes, param_set_parse, pow256, row_bytes, row_parse, scalar_bytes,
    scalar_parse, varint, varint_parse, KEY_BLOB, KEY_ELEM, KEY_INTEGER, KEY_NULL, KEY_REAL,
    KEY_SECOND, KEY_TEXT,
};

verus! {

/// Append a slice's bytes to a buffer.
fn append_bytes(out: &mut Vec<u8>, b: &[u8])
    ensures
        final(out)@ == old(out)@ + b@,
{
    let mut i: usize = 0;
    while i < b.len()
        invariant
            i <= b.len(),
            out@ == old(out)@ + b@.take(i as int),
        decreases b.len() - i,
    {
        out.push(b[i]);
        proof {
            assert(old(out)@ + b@.take(i + 1 as int) =~= (old(out)@ + b@.take(i as int)).push(
                b@[i as int],
            ));
        }
        i = i + 1;
    }
    proof {
        assert(b@.take(b@.len() as int) =~= b@);
    }
}

/// Append the varint encoding of `n`.
fn encode_varint(out: &mut Vec<u8>, n: u64)
    ensures
        final(out)@ == old(out)@ + varint(n as nat),
{
    let mut m = n;
    while m >= 0x80
        invariant
            out@ + varint(m as nat) == old(out)@ + varint(n as nat),
        decreases m,
    {
        let byte = (0x80 + m % 0x80) as u8;
        proof {
            assert(varint(m as nat) == seq![byte] + varint((m as nat) / 0x80));
            assert(out@.push(byte) + varint((m as nat) / 0x80) =~= out@ + varint(m as nat));
        }
        out.push(byte);
        m = m / 0x80;
    }
    proof {
        assert(varint(m as nat) == seq![m as u8]);
        assert(out@.push(m as u8) =~= out@ + varint(m as nat));
    }
    out.push(m as u8);
}

/// Append the eight little-endian bytes of `bits`.
fn encode_le8(out: &mut Vec<u8>, bits: u64)
    ensures
        final(out)@ == old(out)@ + crate::wire::le_bytes(bits as nat, 8),
{
    let mut m = bits;
    let mut k: usize = 0;
    while k < 8
        invariant
            k <= 8,
            out@ + crate::wire::le_bytes(m as nat, (8 - k) as nat) == old(out)@
                + crate::wire::le_bytes(bits as nat, 8),
        decreases 8 - k,
    {
        let byte = (m % 0x100) as u8;
        proof {
            assert(crate::wire::le_bytes(m as nat, (8 - k) as nat) == seq![byte]
                + crate::wire::le_bytes((m as nat) / 0x100, (8 - k - 1) as nat));
            assert(out@.push(byte) + crate::wire::le_bytes((m as nat) / 0x100, (7 - k) as nat)
                =~= out@ + crate::wire::le_bytes(m as nat, (8 - k) as nat));
        }
        out.push(byte);
        m = m / 0x100;
        k = k + 1;
    }
    proof {
        assert(out@ + crate::wire::le_bytes(m as nat, 0) =~= out@);
    }
}

/// Append the canonical encoding of one scalar message.
pub fn encode_scalar(out: &mut Vec<u8>, v: &Scalar)
    ensures
        final(out)@ == old(out)@ + scalar_bytes(v@),
{
    match v {
        Scalar::Null => {
            out.push(KEY_NULL);
            out.push(0u8);
            proof {
                assert(old(out)@.push(KEY_NULL).push(0u8) =~= old(out)@ + scalar_bytes(v@));
            }
        },
        Scalar::Integer(i) => {
            out.push(KEY_INTEGER);
            encode_varint(out, *i as u64);
            proof {
                assert(old(out)@.push(KEY_INTEGER) + varint((*i as u64) as nat) =~= old(out)@
                    + scalar_bytes(v@));
            }
        },
        Scalar::Real(bits) => {
            out.push(KEY_REAL);
            encode_le8(out, *bits);
            proof {
                assert(old(out)@.push(KEY_REAL) + crate::wire::le_bytes(*bits as nat, 8)
                    =~= old(out)@ + scalar_bytes(v@));
            }
        },
        Scalar::Text(t) => {
            out.push(KEY_TEXT);
            encode_varint(out, t.len() as u64);
            append_bytes(out, t.as_slice());
            proof {
                assert(old(out)@.push(KEY_TEXT) + varint(t@.len()) + t@ =~= old(out)@
                    + scalar_bytes(v@));
            }
        },
        Scalar::Blob(b) => {
            out.push(KEY_BLOB);
            encode_varint(out, b.len() as u64);
            append_bytes(out, b.as_slice());
            proof {
                assert(old(out)@.push(KEY_BLOB) + varint(b@.len()) + b@ =~= old(out)@
                    + scalar_bytes(v@));
            }
        },
    }
}

/// The canonical encoding of one scalar message, as a fresh buffer.
pub fn encode_scalar_msg(v: &Scalar) -> (r: Vec<u8>)
    ensures
        r@ == scalar_bytes(v@),
{
    let mut out: Vec<u8> = Vec::new();
    encode_scalar(&mut out, v);
    proof {
        assert(Seq::<u8>::empty() + scalar_bytes(v@) =~= scalar_bytes(v@));
    }
    out
}

/// Append a length-delimited field: key, length varint, body.
fn encode_field(out: &mut Vec<u8>, key: u8, body: &Vec<u8>)
    ensures
        final(out)@ == old(out)@ + field_msg(key, body@),
{
    out.push(key);
    encode_varint(out, body.len() as u64);
    append_bytes(out, body.as_slice());
    proof {
        assert(old(out)@.push(key) + varint(body@.len()) + body@ =~= old(out)@ + field_msg(
            key,
            body@,
        ));
    }
}

/// Encode a list of scalars as a row message: each value wrapped as a
/// length-delimited element field, in order.
pub fn encode_row(values: &Vec<Scalar>) -> (r: Vec<u8>)
    ensures
        r@ == row_bytes(scalar_views(values@)),
{
    let mut out: Vec<u8> = Vec::new();
    let mut i: usize = 0;
    while i < values.len()
        invariant
            i <= values.len(),
            out@ == row_bytes(scalar_views(values@).take(i as int)),
        decreases values.len() - i,
    {
        let body = encode_scalar_msg(&values[i]);
        encode_field(&mut out, KEY_ELEM, &body);
        proof {
            let vs = scalar_views(values@);
            assert(vs.take(i + 1 as int) =~= vs.take(i as int) + seq![vs[i as int]]);
            lemma_row_bytes_concat(vs.take(i as int), seq![vs[i as int]]);
            assert(row_bytes(seq![vs[i as int]]) == field_msg(KEY_ELEM, scalar_bytes(vs[i as int]))
                + row_bytes(seq![vs[i as int]].drop_first()));
            assert(seq![vs[i as int]].drop_first() =~= Seq::<crate::values::ScalarModel>::empty());
            assert(field_msg(KEY_ELEM, scalar_bytes(vs[i as int])) + row_bytes(
                Seq::<crate::values::ScalarModel>::empty(),
            ) =~= field_msg(KEY_ELEM, scalar_bytes(vs[i as int])));
        }
        i = i + 1;
    }
    proof {
        assert(scalar_views(values@).take(values@.len() as int) =~= scalar_views(values@));
    }
    out
}

/// The canonical encoding of one named entry's body.
fn encode_entry(key: &Vec<u8>, v: &Scalar) -> (r: Vec<u8>)
    ensures
        r@ == crate::wire::entry_bytes(key@, v@),
{
    let mut out: Vec<u8> = Vec::new();
    encode_field(&mut out, KEY_ELEM, key);
    let body = encode_scalar_msg(v);
    encode_field(&mut out, KEY_SECOND, &body);
    proof {
        assert(Seq::<u8>::empty() + field_msg(KEY_ELEM, key@) + field_msg(
            KEY_SECOND,
            scalar_bytes(v@),
        ) =~= crate::wire::entry_bytes(key@, v@));
    }
    out
}

/// Encode a parameter set message: the empty buffer for an absent set, the
/// named entry list wrapped as field 1, or the positional value list
/// wrapped as field 2.
pub fn encode_params(p: &ParamSet) -> (r: Vec<u8>)
    ensures
        r@ == param_set_bytes(p@),
{
    match p {
        ParamSet::Absent => {
            let out: Vec<u8> = Vec::new();
            proof {
                assert(out@ =~= param_set_bytes(p@));
            }
            out
        },
        ParamSet::Named(entries) => {
            let mut inner: Vec<u8> = Vec::new();
            let mut i: usize = 0;
            while i < entries.len()
                invariant
                    i <= entries.len(),
                    inner@ == named_bytes(entry_views(entries@).take(i as int)),
                decreases entries.len() - i,
            {
                let body = encode_entry(&entries[i].0, &entries[i].1);
                encode_field(&mut inner, KEY_ELEM, &body);
                proof {
                    let es = entry_views(entries@);
                    assert(es.take(i + 1 as int) =~= es.take(i as int) + seq![es[i as int]]);
                    lemma_named_bytes_concat(es.take(i as int), seq![es[i as int]]);
                    assert(seq![es[i as int]].drop_first() =~= Seq::<
                        (Seq<u8>, crate::values::ScalarModel),
                    >::empty());
                    assert(field_msg(KEY_ELEM, crate::wire::entry_bytes(es[i as int].0, es[i as int].1))
                        + named_bytes(Seq::<(Seq<u8>, crate::values::ScalarModel)>::empty())
                        =~= field_msg(
                        KEY_ELEM,
                        crate::wire::entry_bytes(es[i as int].0, es[i as int].1),
                    ));
                }
                i = i + 1;
            }
            proof {
                assert(entry_views(entries@).take(entries@.len() as int) =~= entry_views(
                    entries@,
                ));
            }
            let mut out: Vec<u8> = Vec::new();
            encode_field(&mut out, KEY_ELEM, &inner);
            proof {
                assert(Seq::<u8>::empty() + field_msg(KEY_ELEM, inner@) =~= param_set_bytes(p@));
            }
            out
        },
        ParamSet::Positional(values) => {
            let inner = encode_row(values);
            let mut out: Vec<u8> = Vec::new();
            encode_field(&mut out, KEY_SECOND, &inner);
            proof {
                assert(Seq::<u8>::empty() + field_msg(KEY_SECOND, inner@) =~= param_set_bytes(
                    p@,
                ));
            }
            out
        },
    }
}

/// Parse one varint out of `buf[lo..hi]`, returning the value and the
/// index just past it. Mirrors `varint_parse` on that window exactly.
fn decode_varint_at(buf: &[u8], lo: usize, hi: usize) -> (r: Option<(u64, usize)>)
    requires
        lo <= hi <= buf.len(),
    ensures
        match r {
            Some(p) => lo < p.1 <= hi && varint_parse(buf@.subrange(lo as int, hi as int))
                == Some((p.0 as nat, buf@.subrange(p.1 as int, hi as int))),
            None => varint_parse(buf@.subrange(lo as int, hi as int)) is None,
        },
    decreases hi - lo,
{
    let ghost s = buf@.subrange(lo as int, hi as int);
    if lo == hi {
        return None;
    }
    let b = buf[lo];
    proof {
        assert(s[0] == b);
        assert(s.drop_first() =~= buf@.subrange(lo + 1, hi as int));
    }
    if b < 0x80 {
        Some((b as u64, lo + 1))
    } else {
        match decode_varint_at(buf, lo + 1, hi) {
            Some((high, end)) => {
                let c = (b - 0x80) as u64;
                if high == 0 {
                    None
                } else if high > (u64::MAX - c) / 0x80 {
                    proof {
                        let d = (u64::MAX - c) as int;
                        vstd::arithmetic::div_mod::lemma_fundamental_div_mod(d, 0x80);
                        vstd::arithmetic::div_mod::lemma_mod_bound(d, 0x80);
                        assert(high * 0x80 + c > u64::MAX);
                    }
                    None
                } else {
                    proof {
                        let d = (u64::MAX - c) as int;
                        vstd::arithmetic::div_mod::lemma_fundamental_div_mod(d, 0x80);
                        vstd::arithmetic::div_mod::lemma_mod_bound(d, 0x80);
                        assert(high * 0x80 + c <= u64::MAX);
                    }
                    Some((high * 0x80 + c, end))
                }
            },
            None => None,
        }
    }
}

/// Read the eight little-endian bytes starting at `lo` as one 64-bit word.
fn read_le8(buf: &[u8], lo: usize) -> (r: u64)
    requires
        lo + 8 <= buf.len(),
    ensures
        r as nat == le_val(buf@.subrange(lo as int, lo + 8)),
{
    let mut acc: u64 = 0;
    let mut j: usize = 8;
    proof {
        assert(buf@.subrange(lo + 8, lo + 8) =~= Seq::<u8>::empty());
    }
    while j > 0
        invariant
            lo + 8 <= buf.len(),
            j <= 8,
            acc as nat == le_val(buf@.subrange(lo + j, lo + 8)),
            (acc as nat) < pow256((8 - j) as nat),
        decreases j,
    {
        j = j - 1;
        proof {
            crate::wire::lemma_pow256_mono((7 - j) as nat, 7);
            lemma_pow256_8();
            assert(buf@.subrange(lo + j, lo + 8).drop_first() =~= buf@.subrange(
                lo + j + 1,
                lo + 8,
            ));
        }
        acc = acc * 0x100 + (buf[lo + j] as u64);
    }
    acc
}

/// Copy `buf[lo..hi]` into a fresh buffer.
fn read_bytes(buf: &[u8], lo: usize, hi: usize) -> (r: Vec<u8>)
    requires
        lo <= hi <= buf.len(),
    ensures
        r@ == buf@.subrange(lo as int, hi as int),
{
    let mut out: Vec<u8> = Vec::new();
    let mut i: usize = lo;
    while i < hi
        invariant
            lo <= i <= hi <= buf.len(),
            out@ == buf@.subrange(lo as int, i as int),
        decreases hi - i,
    {
        out.push(buf[i]);
        proof {
            assert(buf@.subrange(lo as int, i + 1 as int) =~= buf@.subrange(
                lo as int,
                i as int,
            ).push(buf@[i as int]));
        }
        i = i + 1;
    }
    out
}

/// Parse `buf[lo..hi]` as one whole scalar message. Mirrors `scalar_parse`
/// on that window exactly.
fn decode_scalar_at(buf: &[u8], lo: usize, hi: usize) -> (r: Option<Scalar>)
    requires
        lo <= hi <= buf.len(),
    ensures
        match r {
            Some(v) => scalar_parse(buf@.subrange(lo as int, hi as int)) == Some(v@),
            None => scalar_parse(buf@.subrange(lo as int, hi as int)) is None,
        },
{
    let ghost s = buf@.subrange(lo as int, hi as int);
    if lo == hi {
        return None;
    }
    let key = buf[lo];
    proof {
        assert(s[0] == key);
        assert(s.drop_first() =~= buf@.subrange(lo + 1, hi as int));
    }
    if key == KEY_INTEGER {
        match decode_varint_at(buf, lo + 1, hi) {
            Some((n, end)) => {
                if end == hi {
                    Some(Scalar::Integer(n as i64))
                } else {
                    None
                }
            },
            None => None,
        }
    } else if key == KEY_REAL {
        if hi - lo == 9 {
            let bits = read_le8(buf, lo + 1);
            proof {
                lemma_pow256_8();
                crate::wire::lemma_le_bytes_of_val(s.drop_first());
            }
            Some(Scalar::Real(bits))
        } else {
            None
        }
    } else if key == KEY_TEXT {
        match decode_varint_at(buf, lo + 1, hi) {
            Some((n, pos)) => {
                if (hi - pos) as u64 == n {
                    Some(Scalar::Text(read_bytes(buf, pos, hi)))
                } else {
                    None
                }
            },
            None => None,
        }
    } else if key == KEY_BLOB {
        match decode_varint_at(buf, lo + 1, hi) {
            Some((n, pos)) => {
                if (hi - pos) as u64 == n {
                    Some(Scalar::Blob(read_bytes(buf, pos, hi)))
                } else {
                    None
                }
            },
            None => None,
        }
    } else if key == KEY_NULL {
        if hi - lo == 2 && buf[lo + 1] == 0 {
            proof {
                assert(s[1] == 0);
            }
            Some(Scalar::Null)
        } else {
            proof {
                if hi - lo == 2 {
                    assert(s[1] != 0);
                }
            }
            None
        }
    } else {
        None
    }
}

/// Parse `buf[lo..hi]` as a list of scalar elements. Mirrors `row_parse`
/// on that window exactly.
fn decode_row_range(buf: &[u8], lo: usize, hi: usize) -> (r: Option<Vec<Scalar>>)
    requires
        lo <= hi <= buf.len(),
    ensures
        match r {
            Some(vs) => row_parse(buf@.subrange(lo as int, hi as int)) == Some(
                scalar_views(vs@),
            ),
            None => row_parse(buf@.subrange(lo as int, hi as int)) is None,
        },
{
    let mut acc: Vec<Scalar> = Vec::new();
    let mut pos: usize = lo;
    while pos < hi
        invariant
            lo <= pos <= hi <= buf.len(),
            match row_parse(buf@.subrange(pos as int, hi as int)) {
                Some(tail) => row_parse(buf@.subrange(lo as int, hi as int)) == Some(
                    scalar_views(acc@) + tail,
                ),
                None => row_parse(buf@.subrange(lo as int, hi as int)) is None,
            },
        decreases hi - pos,
    {
        let ghost s = buf@.subrange(pos as int, hi as int);
        proof {
            assert(s[0] == buf@[pos as int]);
            assert(s.drop_first() =~= buf@.subrange(pos + 1, hi as int));
        }
        if buf[pos] != KEY_ELEM {
            return None;
        }
        match decode_varint_at(buf, pos + 1, hi) {
            Some((n, p2)) => {
                if n <= (hi - p2) as u64 {
                    let end = p2 + n as usize;
                    proof {
                        let rest = buf@.subrange(p2 as int, hi as int);
                        assert(rest.take(n as int) =~= buf@.subrange(p2 as int, end as int));
                        assert(rest.skip(n as int) =~= buf@.subrange(end as int, hi as int));
                    }
                    match decode_scalar_at(buf, p2, end) {
                        Some(v) => {
                            proof {
                                let tail_s = buf@.subrange(end as int, hi as int);
                                if row_parse(tail_s) is Some {
                                    let tail = row_parse(tail_s)->Some_0;
                                    assert(scalar_views(acc@.push(v)) =~= scalar_views(acc@)
                                        + seq![v@]);
                                    assert(scalar_views(acc@) + (seq![v@] + tail)
                                        =~= (scalar_views(acc@) + seq![v@]) + tail);
                                }
                            }
                            acc.push(v);
                            pos = end;
                        },
                        None => {
                            return None;
                        },
                    }
                } else {
                    return None;
                }
            },
            None => {
                return None;
            },
        }
    }
    proof {
        assert(buf@.subrange(pos as int, hi as int) =~= Seq::<u8>::empty());
        assert(scalar_views(acc@) + Seq::<crate::values::ScalarModel>::empty() =~= scalar_views(
            acc@,
        ));
    }
    Some(acc)
}

/// Parse `buf[lo..hi]` as one whole named entry. Mirrors `entry_parse` on
/// that window exactly.
fn decode_entry_at(buf: &[u8], lo: usize, hi: usize) -> (r: Option<(Vec<u8>, Scalar)>)
    requires
        lo <= hi <= buf.len(),
    ensures
        match r {
            Some(e) => crate::wire::entry_parse(buf@.subrange(lo as int, hi as int)) == Some(
                (e.0@, e.1@),
            ),
            None => crate::wire::entry_parse(buf@.subrange(lo as int, hi as int)) is None,
        },
{
    let ghost s = buf@.subrange(lo as int, hi as int);
    if lo == hi {
        return None;
    }
    proof {
        assert(s[0] == buf@[lo as int]);
        assert(s.drop_first() =~= buf@.subrange(lo + 1, hi as int));
    }
    if buf[lo] != KEY_ELEM {
        return None;
    }
    match decode_varint_at(buf, lo + 1, hi) {
        Some((klen, p1)) => {
            if klen <= (hi - p1) as u64 {
                let kend = p1 + klen as usize;
                proof {
                    let rest = buf@.subrange(p1 as int, hi as int);
                    assert(rest.take(klen as int) =~= buf@.subrange(p1 as int, kend as int));
                    assert(rest.skip(klen as int) =~= buf@.subrange(kend as int, hi as int));
                }
                let ghost after = buf@.subrange(kend as int, hi as int);
                if kend == hi {
                    return None;
                }
                proof {
                    assert(after[0] == buf@[kend as int]);
                    assert(after.drop_first() =~= buf@.subrange(kend + 1, hi as int));
                }
                if buf[kend] != KEY_SECOND {
                    return None;
                }
                match decode_varint_at(buf, kend + 1, hi) {
                    Some((vlen, p2)) => {
                        if (hi - p2) as u64 == vlen {
                            match decode_scalar_at(buf, p2, hi) {
                                Some(v) => {
                                    let key = read_bytes(buf, p1, kend);
                                    Some((key, v))
                                },
                                None => None,
                            }
                        } else {
                            None
                        }
                    },
                    None => None,
                }
            } else {
                None
            }
        },
        None => None,
    }
}

/// Parse `buf[lo..hi]` as a named entry list. Mirrors `named_parse` on
/// that window exactly.
fn decode_named_range(buf: &[u8], lo: usize, hi: usize) -> (r: Option<Vec<(Vec<u8>, Scalar)>>)
    requires
        lo <= hi <= buf.len(),
    ensures
        match r {
            Some(es) => crate::wire::named_parse(buf@.subrange(lo as int, hi as int)) == Some(
                entry_views(es@),
            ),
            None => crate::wire::named_parse(buf@.subrange(lo as int, hi as int)) is None,
        },
{
    let mut acc: Vec<(Vec<u8>, Scalar)> = Vec::new();
    let mut pos: usize = lo;
    while pos < hi
        invariant
            lo <= pos <= hi <= buf.len(),
            match crate::wire::named_parse(buf@.subrange(pos as int, hi as int)) {
                Some(tail) => crate::wire::named_parse(buf@.subrange(lo as int, hi as int))
                    == Some(entry_views(acc@) + tail),
                None => crate::wire::named_parse(buf@.subrange(lo as int, hi as int)) is None,
            },
        decreases hi - pos,
    {
        let ghost s = buf@.subrange(pos as int, hi as int);
        proof {
            assert(s[0] == buf@[pos as int]);
            assert(s.drop_first() =~= buf@.subrange(pos + 1, hi as int));
        }
        if buf[pos] != KEY_ELEM {
            return None;
        }
        match decode_varint_at(buf, pos + 1, hi) {
            Some((n, p2)) => {
                if n <= (hi - p2) as u64 {
                    let end = p2 + n as usize;
                    proof {
                        let rest = buf@.subrange(p2 as int, hi as int);
                        assert(rest.take(n as int) =~= buf@.subrange(p2 as int, end as int));
                        assert(rest.skip(n as int) =~= buf@.subrange(end as int, hi as int));
                    }
                    match decode_entry_at(buf, p2, end) {
                        Some(e) => {
                            proof {
                                let tail_s = buf@.subrange(end as int, hi as int);
                                if crate::wire::named_parse(tail_s) is Some {
                                    let tail = crate::wire::named_parse(tail_s)->Some_0;
                                    assert(entry_views(acc@.push(e)) =~= entry_views(acc@)
                                        + seq![(e.0@, e.1@)]);
                                    assert(entry_views(acc@) + (seq![(e.0@, e.1@)] + tail)
                                        =~= (entry_views(acc@) + seq![(e.0@, e.1@)]) + tail);
                                }
                            }
                            acc.push(e);
                            pos = end;
                        },
                        None => {
                            return None;
                        },
                    }
                } else {
                    return None;
                }
            },
            None => {
                return None;
            },
        }
    }
    proof {
        assert(buf@.subrange(pos as int, hi as int) =~= Seq::<u8>::empty());
        assert(entry_views(acc@) + Seq::<(Seq<u8>, crate::values::ScalarModel)>::empty()
            =~= entry_views(acc@));
    }
    Some(acc)
}

/// Decode a whole buffer as one scalar message.
pub fn decode_scalar(buf: &[u8]) -> (r: Option<Scalar>)
    ensures
        match r {
            Some(v) => scalar_parse(buf@) == Some(v@),
            None => scalar_parse(buf@) is None,
        },
{
    let r = decode_scalar_at(buf, 0, buf.len());
    proof {
        assert(buf@.subrange(0, buf@.len() as int) =~= buf@);
    }
    r
}

/// Decode a whole buffer as a row message: the ordered scalars of one row.
pub fn decode_row(buf: &[u8]) -> (r: Option<Vec<Scalar>>)
    ensures
        match r {
            Some(vs) => row_parse(buf@) == Some(scalar_views(vs@)),
            None => row_parse(buf@) is None,
        },
{
    let r = decode_row_range(buf, 0, buf.len());
    proof {
        assert(buf@.subrange(0, buf@.len() as int) =~= buf@);
    }
    r
}

/// Decode a whole buffer as a parameter set message: the empty buffer
/// means an absent set, field 1 a named set, field 2 a positional set;
/// anything else is rejected.
pub fn decode_params(buf: &[u8]) -> (r: Option<ParamSet>)
    ensures
        match r {
            Some(p) => param_set_parse(buf@) == Some(p@),
            None => param_set_parse(buf@) is None,
        },
{
    let n = buf.len();
    if n == 0 {
        return Some(ParamSet::Absent);
    }
    let ghost s = buf@;
    proof {
        assert(s =~= buf@.subrange(0, buf@.len() as int));
        assert(s[0] == buf@[0]);
        assert(s.drop_first() =~= buf@.subrange(1, buf@.len() as int));
    }
    let key = buf[0];
    if key == KEY_ELEM {
        match decode_varint_at(buf, 1, n) {
            Some((len, pos)) => {
                if (n - pos) as u64 == len {
                    match decode_named_range(buf, pos, n) {
                        Some(es) => Some(ParamSet::Named(es)),
                        None => None,
                    }
                } else {
                    None
                }
            },
            None => None,
        }
    } else if key == KEY_SECOND {
        match decode_varint_at(buf, 1, n) {
            Some((len, pos)) => {
                if (n - pos) as u64 == len {
                    match decode_row_range(buf, pos, n) {
                        Some(vs) => Some(ParamSet::Positional(vs)),
                        None => None,
                    }
                } else {
                    None
                }
            },
            None => None,
        }
    } else {
        None
    }
}

} // verus!
