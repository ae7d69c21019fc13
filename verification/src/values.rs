//! The scalar values and parameter sets that cross the boundary.

use vstd::prelude::*;

verus! {

/// One scalar crossing the boundary.
///
/// Exactly five kinds exist: null, 64-bit signed integer, 64-bit real,
/// UTF-8 text and an untyped byte sequence. A real is carried as the bit
/// pattern of its IEEE 64-bit value and text as its UTF-8 bytes, so the
/// codec and its proofs stay on plain integers and byte sequences; both are
/// restored to the engine's own shapes only at the engine call itself.
pub enum Scalar {
    Null,
    Integer(i64),
    Real(u64),
    Text(Vec<u8>),
    Blob(Vec<u8>),
}

/// The mathematical shape of a scalar.
pub enum ScalarModel {
    Null,
    Integer(i64),
    Real(u64),
    Text(Seq<u8>),
    Blob(Seq<u8>),
}

impl View for Scalar {
    type V = ScalarModel;

    open spec fn view(&self) -> ScalarModel {
        match self {
            Scalar::Null => ScalarModel::Null,
            Scalar::Integer(i) => ScalarModel::Integer(*i),
            Scalar::Real(bits) => ScalarModel::Real(*bits),
            Scalar::Text(t) => ScalarModel::Text(t@),
            Scalar::Blob(b) => ScalarModel::Blob(b@),
        }
    }
}

/// Whether a scalar can reach the engine: text must be valid UTF-8.
pub open spec fn scalar_text_ok(v: ScalarModel) -> bool {
    match v {
        ScalarModel::Text(t) => vstd::utf8::valid_utf8(t),
        _ => true,
    }
}

/// A parameter set: absent, entirely named, or entirely positional.
/// Mixing forms is not representable.
pub enum ParamSet {
    Absent,
    Named(Vec<(Vec<u8>, Scalar)>),
    Positional(Vec<Scalar>),
}

/// The mathematical shape of a parameter set.
pub enum ParamSetModel {
    Absent,
    Named(Seq<(Seq<u8>, ScalarModel)>),
    Positional(Seq<ScalarModel>),
}

/// The views of a sequence of scalars.
pub open spec fn scalar_views(s: Seq<Scalar>) -> Seq<ScalarModel> {
    s.map_values(|v: Scalar| v@)
}

/// The views of a sequence of named entries.
pub open spec fn entry_views(s: Seq<(Vec<u8>, Scalar)>) -> Seq<(Seq<u8>, ScalarModel)> {
    s.map_values(|e: (Vec<u8>, Scalar)| (e.0@, e.1@))
}

impl View for ParamSet {
    type V = ParamSetModel;

    open spec fn view(&self) -> ParamSetModel {
        match self {
            ParamSet::Absent => ParamSetModel::Absent,
            ParamSet::Named(entries) => ParamSetModel::Named(entry_views(entries@)),
            ParamSet::Positional(values) => ParamSetModel::Positional(scalar_views(values@)),
        }
    }
}

/// Whether every scalar of a positional list can reach the engine.
pub open spec fn scalars_text_ok(values: Seq<ScalarModel>) -> bool {
    forall|i: int| 0 <= i < values.len() ==> scalar_text_ok(#[trigger] values[i])
}

/// Whether every entry of a named list can reach the engine: its name and
/// its scalar must both be valid UTF-8.
pub open spec fn entries_text_ok(entries: Seq<(Seq<u8>, ScalarModel)>) -> bool {
    forall|i: int|
        0 <= i < entries.len() ==> vstd::utf8::valid_utf8((#[trigger] entries[i]).0)
            && scalar_text_ok(entries[i].1)
}

/// Whether a parameter set can reach the engine: every name and every text
/// scalar must be valid UTF-8.
pub open spec fn param_set_text_ok(p: ParamSetModel) -> bool {
    match p {
        ParamSetModel::Absent => true,
        ParamSetModel::Named(entries) => entries_text_ok(entries),
        ParamSetModel::Positional(values) => scalars_text_ok(values),
    }
}

} // verus!
