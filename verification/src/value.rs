//! Values in TOH info: CBOR data items of the memory chip payload and the extra values that TOH
//! info keeps of them.
//!
//! Floating point numbers are carried as the bit patterns of their IEEE 754 binary64 form; the
//! library never computes with them, but compares extra values as numbers: a NaN equals
//! nothing, and the two zeros are equal.

use crate::errors::ExtraValueConversionError;
use crate::strmap::{
    entries_map, key_index, lemma_entries_map_index, lemma_entries_map_take_step, lemma_key_index,
    lemma_sorted_take, sorted_keys, StrMap,
};
use vstd::prelude::*;
use vstd::std_specs::cmp::PartialEqSpecImpl;

verus! {

/// A CBOR data item.
#[derive(Debug, PartialEq)]
pub enum CborValue {
    /// Integer, from -2^64 up to 2^64 - 1.
    Integer(i128),
    /// Byte string.
    Bytes(Vec<u8>),
    /// Floating point number, as its bit pattern.
    Float(u64),
    /// Text string.
    Text(String),
    /// Boolean.
    Bool(bool),
    /// Null.
    Null,
    /// Tagged item.
    Tag(u64, Box<CborValue>),
    /// Array.
    Array(Vec<CborValue>),
    /// Map, as the sequence of its key and value pairs.
    Mapping(Vec<(CborValue, CborValue)>),
    /// Any other kind of data item.
    Other,
}

/// Mathematical form of a [`CborValue`].
#[verifier::ext_equal]
pub enum CborModel {
    Integer(int),
    Bytes(Seq<u8>),
    Float(u64),
    Text(Seq<char>),
    Bool(bool),
    Null,
    Tag(u64, Box<CborModel>),
    Array(Seq<CborModel>),
    Mapping(Seq<(CborModel, CborModel)>),
    Other,
}

impl CborValue {
    /// The mathematical form of this item.
    pub open spec fn model(self) -> CborModel
        decreases self,
    {
        match self {
            CborValue::Integer(v) => CborModel::Integer(v as int),
            CborValue::Bytes(b) => CborModel::Bytes(b@),
            CborValue::Float(f) => CborModel::Float(f),
            CborValue::Text(t) => CborModel::Text(t@),
            CborValue::Bool(b) => CborModel::Bool(b),
            CborValue::Null => CborModel::Null,
            CborValue::Tag(t, inner) => CborModel::Tag(t, Box::new(inner.model())),
            CborValue::Array(v) => CborModel::Array(
                Seq::new(
                    v@.len(),
                    |i: int|
                        if 0 <= i < v@.len() {
                            v@[i].model()
                        } else {
                            CborModel::Null
                        },
                ),
            ),
            CborValue::Mapping(v) => CborModel::Mapping(
                Seq::new(
                    v@.len(),
                    |i: int|
                        if 0 <= i < v@.len() {
                            (v@[i].0.model(), v@[i].1.model())
                        } else {
                            (CborModel::Null, CborModel::Null)
                        },
                ),
            ),
            CborValue::Other => CborModel::Other,
        }
    }
}

/// Values in CBOR data.
#[derive(Debug)]
pub enum ExtraValue {
    Boolean(bool),
    I64(i64),
    U64(u64),
    /// Floating point number, as its bit pattern.
    F64(u64),
    Bytes(Vec<u8>),
    Text(String),
    Null,
    Tag(u64, Box<ExtraValue>),
    Array(Vec<ExtraValue>),
    Mapping(StrMap<ExtraValue>),
}

/// Mathematical form of an [`ExtraValue`].
#[verifier::ext_equal]
pub enum ExtraModel {
    Boolean(bool),
    I64(i64),
    U64(u64),
    F64(u64),
    Bytes(Seq<u8>),
    Text(Seq<char>),
    Null,
    Tag(u64, Box<ExtraModel>),
    Array(Seq<ExtraModel>),
    Mapping(Map<Seq<char>, ExtraModel>),
}

impl ExtraValue {
    /// The mathematical form of this value.
    pub open spec fn model(self) -> ExtraModel
        decreases self,
    {
        match self {
            ExtraValue::Boolean(b) => ExtraModel::Boolean(b),
            ExtraValue::I64(v) => ExtraModel::I64(v),
            ExtraValue::U64(v) => ExtraModel::U64(v),
            ExtraValue::F64(v) => ExtraModel::F64(v),
            ExtraValue::Bytes(b) => ExtraModel::Bytes(b@),
            ExtraValue::Text(t) => ExtraModel::Text(t@),
            ExtraValue::Null => ExtraModel::Null,
            ExtraValue::Tag(t, inner) => ExtraModel::Tag(t, Box::new(inner.model())),
            ExtraValue::Array(v) => ExtraModel::Array(
                Seq::new(
                    v@.len(),
                    |i: int|
                        if 0 <= i < v@.len() {
                            v@[i].model()
                        } else {
                            ExtraModel::Null
                        },
                ),
            ),
            ExtraValue::Mapping(m) => ExtraModel::Mapping(
                Map::new(
                    |k: Seq<char>| key_index(m.entries@, k) >= 0,
                    |k: Seq<char>|
                        {
                            let i = key_index(m.entries@, k);
                            if 0 <= i < m.entries@.len() {
                                m.entries@[i].1.model()
                            } else {
                                ExtraModel::Null
                            }
                        },
                ),
            ),
        }
    }

    /// Whether the maps in this value, at every depth, have their entries in key order.
    pub open spec fn wf(self) -> bool
        decreases self,
    {
        match self {
            ExtraValue::Tag(_, inner) => inner.wf(),
            ExtraValue::Array(v) => forall|i: int| 0 <= i < v@.len() ==> (#[trigger] v@[i]).wf(),
            ExtraValue::Mapping(m) => m.wf() && forall|i: int|
                0 <= i < m.entries@.len() ==> (#[trigger] m.entries@[i]).1.wf(),
            _ => true,
        }
    }
}


impl From<bool> for ExtraValue {
    fn from(b: bool) -> (res: ExtraValue) {
        ExtraValue::Boolean(b)
    }
}

impl vstd::std_specs::convert::FromSpecImpl<bool> for ExtraValue {
    open spec fn obeys_from_spec() -> bool {
        true
    }

    open spec fn from_spec(b: bool) -> ExtraValue {
        ExtraValue::Boolean(b)
    }
}

impl From<i64> for ExtraValue {
    fn from(v: i64) -> (res: ExtraValue) {
        ExtraValue::I64(v)
    }
}

impl vstd::std_specs::convert::FromSpecImpl<i64> for ExtraValue {
    open spec fn obeys_from_spec() -> bool {
        true
    }

    open spec fn from_spec(v: i64) -> ExtraValue {
        ExtraValue::I64(v)
    }
}

impl From<u64> for ExtraValue {
    fn from(v: u64) -> (res: ExtraValue) {
        ExtraValue::U64(v)
    }
}

impl vstd::std_specs::convert::FromSpecImpl<u64> for ExtraValue {
    open spec fn obeys_from_spec() -> bool {
        true
    }

    open spec fn from_spec(v: u64) -> ExtraValue {
        ExtraValue::U64(v)
    }
}

impl From<String> for ExtraValue {
    fn from(t: String) -> (res: ExtraValue) {
        ExtraValue::Text(t)
    }
}

impl vstd::std_specs::convert::FromSpecImpl<String> for ExtraValue {
    open spec fn obeys_from_spec() -> bool {
        true
    }

    open spec fn from_spec(t: String) -> ExtraValue {
        ExtraValue::Text(t)
    }
}

impl From<Vec<u8>> for ExtraValue {
    fn from(b: Vec<u8>) -> (res: ExtraValue) {
        ExtraValue::Bytes(b)
    }
}

impl vstd::std_specs::convert::FromSpecImpl<Vec<u8>> for ExtraValue {
    open spec fn obeys_from_spec() -> bool {
        true
    }

    open spec fn from_spec(b: Vec<u8>) -> ExtraValue {
        ExtraValue::Bytes(b)
    }
}

impl From<Vec<ExtraValue>> for ExtraValue {
    fn from(items: Vec<ExtraValue>) -> (res: ExtraValue) {
        ExtraValue::Array(items)
    }
}

impl vstd::std_specs::convert::FromSpecImpl<Vec<ExtraValue>> for ExtraValue {
    open spec fn obeys_from_spec() -> bool {
        true
    }

    open spec fn from_spec(items: Vec<ExtraValue>) -> ExtraValue {
        ExtraValue::Array(items)
    }
}

impl From<StrMap<ExtraValue>> for ExtraValue {
    fn from(m: StrMap<ExtraValue>) -> (res: ExtraValue) {
        ExtraValue::Mapping(m)
    }
}

impl vstd::std_specs::convert::FromSpecImpl<StrMap<ExtraValue>> for ExtraValue {
    open spec fn obeys_from_spec() -> bool {
        true
    }

    open spec fn from_spec(m: StrMap<ExtraValue>) -> ExtraValue {
        ExtraValue::Mapping(m)
    }
}

/// Each key of `m` with the model of its value.
pub open spec fn models_of_map(m: Map<Seq<char>, ExtraValue>) -> Map<Seq<char>, ExtraModel> {
    Map::new(|k: Seq<char>| m.contains_key(k), |k: Seq<char>| m[k].model())
}

/// The model of a map of extra values: each key with the model of its value.
pub open spec fn map_model(m: StrMap<ExtraValue>) -> Map<Seq<char>, ExtraModel> {
    models_of_map(m@)
}

/// The model of a map value is the model of its map.
pub proof fn lemma_mapping_model(m: StrMap<ExtraValue>)
    ensures
        ExtraValue::Mapping(m).model() == ExtraModel::Mapping(map_model(m)),
{
    let a = ExtraValue::Mapping(m).model()->Mapping_0;
    assert forall|k: Seq<char>| #[trigger] a.contains_key(k) implies map_model(m).contains_key(k)
        && a[k] == map_model(m)[k] by {
        lemma_key_index(m.entries@, k);
    }
    assert(a =~= map_model(m));
}

/// The extra value that the CBOR item `c` converts to, or why it does not convert.
pub open spec fn extra_from_cbor(c: CborModel) -> Result<ExtraModel, ExtraValueConversionError>
    decreases c,
{
    match c {
        CborModel::Integer(v) => if 0 <= v <= u64::MAX {
            Ok(ExtraModel::U64(v as u64))
        } else if i64::MIN <= v <= i64::MAX {
            Ok(ExtraModel::I64(v as i64))
        } else {
            Err(ExtraValueConversionError::UnsupportedIntegerType)
        },
        CborModel::Bytes(b) => Ok(ExtraModel::Bytes(b)),
        CborModel::Float(f) => Ok(ExtraModel::F64(f)),
        CborModel::Text(t) => Ok(ExtraModel::Text(t)),
        CborModel::Bool(b) => Ok(ExtraModel::Boolean(b)),
        CborModel::Null => Ok(ExtraModel::Null),
        CborModel::Tag(t, inner) => match extra_from_cbor(*inner) {
            Ok(m) => Ok(ExtraModel::Tag(t, Box::new(m))),
            Err(e) => Err(e),
        },
        CborModel::Array(s) => match extras_from_cbor(s) {
            Ok(ms) => Ok(ExtraModel::Array(ms)),
            Err(e) => Err(e),
        },
        CborModel::Mapping(s) => match extra_map_from_cbor(s) {
            Ok(m) => Ok(ExtraModel::Mapping(m)),
            Err(e) => Err(e),
        },
        CborModel::Other => Err(ExtraValueConversionError::UnsupportedValueType),
    }
}

/// The extra values that the CBOR items `s` convert to, or the error of the first that does not.
pub open spec fn extras_from_cbor(s: Seq<CborModel>) -> Result<
    Seq<ExtraModel>,
    ExtraValueConversionError,
>
    decreases s,
{
    if s.len() == 0 {
        Ok(Seq::empty())
    } else {
        match extras_from_cbor(s.drop_last()) {
            Err(e) => Err(e),
            Ok(ms) => match extra_from_cbor(s.last()) {
                Ok(m) => Ok(ms.push(m)),
                Err(e) => Err(e),
            },
        }
    }
}

/// The map that the CBOR map entries `s` convert to, or the error of the first entry that does
/// not convert: its key must be a text string and its value must convert. Where a key occurs more
/// than once, the last entry with it wins.
pub open spec fn extra_map_from_cbor(s: Seq<(CborModel, CborModel)>) -> Result<
    Map<Seq<char>, ExtraModel>,
    ExtraValueConversionError,
>
    decreases s,
{
    if s.len() == 0 {
        Ok(Map::empty())
    } else {
        match extra_map_from_cbor(s.drop_last()) {
            Err(e) => Err(e),
            Ok(m) => match s.last().0 {
                CborModel::Text(k) => match extra_from_cbor(s.last().1) {
                    Ok(v) => Ok(m.insert(k, v)),
                    Err(e) => Err(e),
                },
                _ => Err(ExtraValueConversionError::MapKeysMustBeStrings),
            },
        }
    }
}

proof fn lemma_extras_prefix_err(s: Seq<CborModel>, n: int)
    requires
        0 <= n <= s.len(),
        extras_from_cbor(s.take(n)) is Err,
    ensures
        extras_from_cbor(s) == extras_from_cbor(s.take(n)),
    decreases s.len(),
{
    if n < s.len() {
        assert(s.drop_last().take(n) =~= s.take(n));
        lemma_extras_prefix_err(s.drop_last(), n);
    } else {
        assert(s.take(n) =~= s);
    }
}

proof fn lemma_extra_map_prefix_err(s: Seq<(CborModel, CborModel)>, n: int)
    requires
        0 <= n <= s.len(),
        extra_map_from_cbor(s.take(n)) is Err,
    ensures
        extra_map_from_cbor(s) == extra_map_from_cbor(s.take(n)),
    decreases s.len(),
{
    if n < s.len() {
        assert(s.drop_last().take(n) =~= s.take(n));
        lemma_extra_map_prefix_err(s.drop_last(), n);
    } else {
        assert(s.take(n) =~= s);
    }
}

impl ExtraValue {
    /// Converts a CBOR item into an extra value.
    ///
    /// Integers become unsigned where they are not negative and signed where they are negative
    /// and fit in 64 bits; map keys must be text strings.
    pub fn try_from_cbor(value: CborValue) -> (res: Result<ExtraValue, ExtraValueConversionError>)
        ensures
            match extra_from_cbor(value.model()) {
                Ok(m) => res matches Ok(e) && e.model() == m && e.wf(),
                Err(err) => res matches Err(x) && x == err,
            },
        decreases value,
    {
        match value {
            CborValue::Integer(v) => {
                if 0 <= v && v <= u64::MAX as i128 {
                    Ok(ExtraValue::U64(v as u64))
                } else if i64::MIN as i128 <= v && v <= i64::MAX as i128 {
                    Ok(ExtraValue::I64(v as i64))
                } else {
                    Err(ExtraValueConversionError::UnsupportedIntegerType)
                }
            },
            CborValue::Bytes(b) => Ok(ExtraValue::Bytes(b)),
            CborValue::Float(f) => Ok(ExtraValue::F64(f)),
            CborValue::Text(t) => Ok(ExtraValue::Text(t)),
            CborValue::Bool(b) => Ok(ExtraValue::Boolean(b)),
            CborValue::Null => Ok(ExtraValue::Null),
            CborValue::Other => Err(ExtraValueConversionError::UnsupportedValueType),
            CborValue::Tag(t, inner) => match ExtraValue::try_from_cbor(*inner) {
                Ok(e) => Ok(ExtraValue::Tag(t, Box::new(e))),
                Err(err) => Err(err),
            },
            CborValue::Array(items) => {
                let ghost orig = items@;
                let ghost ms = value.model()->Array_0;
                assert(forall|j: int| 0 <= j < orig.len() ==> ms[j] == orig[j].model());
                let mut rest = items;
                let mut out: Vec<ExtraValue> = Vec::new();
                assert(ms.take(0) =~= Seq::<CborModel>::empty());
                while rest.len() > 0
                    invariant
                        value.model() == CborModel::Array(ms),
                        out@.len() + rest@.len() == orig.len(),
                        ms.len() == orig.len(),
                        rest@ == orig.skip(out@.len() as int),
                        forall|j: int| 0 <= j < orig.len() ==> ms[j] == (#[trigger] orig[j]).model(),
                        forall|j: int| 0 <= j < orig.len() ==> decreases_to!(value => orig[j]),
                        extras_from_cbor(ms.take(out@.len() as int)) matches Ok(r) && r.len()
                            == out@.len() && forall|j: int|
                            0 <= j < out@.len() ==> r[j] == (#[trigger] out@[j]).model(),
                        forall|j: int| 0 <= j < out@.len() ==> (#[trigger] out@[j]).wf(),
                    decreases rest@.len(),
                {
                    let ghost n = out@.len() as int;
                    let x = rest.remove(0);
                    assert(x == orig[n]);
                    assert(ms.take(n + 1).drop_last() =~= ms.take(n));
                    assert(ms.take(n + 1).last() == x.model());
                    match ExtraValue::try_from_cbor(x) {
                        Ok(y) => {
                            out.push(y);
                        },
                        Err(err) => {
                            proof {
                                lemma_extras_prefix_err(ms, n + 1);
                            }
                            return Err(err);
                        },
                    }
                    assert(rest@ =~= orig.skip(out@.len() as int));
                }
                assert(ms.take(out@.len() as int) =~= ms);
                let res = ExtraValue::Array(out);
                assert(res.model()->Array_0 =~= extras_from_cbor(ms)->Ok_0);
                Ok(res)
            },
            CborValue::Mapping(entries) => {
                let ghost orig = entries@;
                let ghost ms = value.model()->Mapping_0;
                assert(forall|j: int|
                    0 <= j < orig.len() ==> ms[j] == (orig[j].0.model(), orig[j].1.model()));
                let mut rest = entries;
                let mut out: StrMap<ExtraValue> = StrMap::new();
                let mut n: usize = 0;
                let total = rest.len();
                assert(ms.take(0) =~= Seq::<(CborModel, CborModel)>::empty());
                assert(map_model(out) =~= Map::<Seq<char>, ExtraModel>::empty());
                while rest.len() > 0
                    invariant
                        value.model() == CborModel::Mapping(ms),
                        total == orig.len(),
                        n + rest@.len() == orig.len(),
                        ms.len() == orig.len(),
                        rest@ == orig.skip(n as int),
                        forall|j: int|
                            0 <= j < orig.len() ==> ms[j] == ((#[trigger] orig[j]).0.model(),
                            orig[j].1.model()),
                        forall|j: int| 0 <= j < orig.len() ==> decreases_to!(value => orig[j].1),
                        out.wf(),
                        extra_map_from_cbor(ms.take(n as int)) == Ok::<
                            Map<Seq<char>, ExtraModel>,
                            ExtraValueConversionError,
                        >(map_model(out)),
                        forall|k: Seq<char>| #[trigger] out@.contains_key(k) ==> out@[k].wf(),
                    decreases rest@.len(),
                {
                    let (key, item) = rest.remove(0);
                    assert((key, item) == orig[n as int]);
                    assert(ms.take(n + 1).drop_last() =~= ms.take(n as int));
                    assert(ms.take(n + 1).last() == (key.model(), item.model()));
                    match key {
                        CborValue::Text(k) => {
                            match ExtraValue::try_from_cbor(item) {
                                Ok(y) => {
                                    let ghost before = out@;
                                    let ghost km = k@;
                                    let ghost ym = y.model();
                                    out.insert(k, y);
                                    assert(map_model(out) =~= models_of_map(before).insert(
                                        km,
                                        ym,
                                    ));
                                },
                                Err(err) => {
                                    proof {
                                        lemma_extra_map_prefix_err(ms, n + 1);
                                    }
                                    return Err(err);
                                },
                            }
                        },
                        _ => {
                            proof {
                                lemma_extra_map_prefix_err(ms, n + 1);
                            }
                            return Err(ExtraValueConversionError::MapKeysMustBeStrings);
                        },
                    }
                    n = n + 1;
                    assert(rest@ =~= orig.skip(n as int));
                }
                assert(ms.take(n as int) =~= ms);
                proof {
                    lemma_mapping_model(out);
                    assert forall|i: int| 0 <= i < out.entries@.len() implies (
                    #[trigger] out.entries@[i]).1.wf() by {
                        lemma_entries_map_index(out.entries@, i);
                    }
                }
                Ok(ExtraValue::Mapping(out))
            },
        }
    }
}


/// The CBOR item that the extra value `e` is written as.
pub open spec fn cbor_of(e: ExtraValue) -> CborModel
    decreases e,
{
    match e {
        ExtraValue::Boolean(b) => CborModel::Bool(b),
        ExtraValue::I64(v) => CborModel::Integer(v as int),
        ExtraValue::U64(v) => CborModel::Integer(v as int),
        ExtraValue::F64(f) => CborModel::Float(f),
        ExtraValue::Bytes(b) => CborModel::Bytes(b@),
        ExtraValue::Text(t) => CborModel::Text(t@),
        ExtraValue::Null => CborModel::Null,
        ExtraValue::Tag(t, inner) => CborModel::Tag(t, Box::new(cbor_of(*inner))),
        ExtraValue::Array(v) => CborModel::Array(
            Seq::new(
                v@.len(),
                |i: int|
                    if 0 <= i < v@.len() {
                        cbor_of(v@[i])
                    } else {
                        CborModel::Null
                    },
            ),
        ),
        ExtraValue::Mapping(m) => CborModel::Mapping(
            Seq::new(
                m.entries@.len(),
                |i: int|
                    if 0 <= i < m.entries@.len() {
                        (CborModel::Text(m.entries@[i].0@), cbor_of(m.entries@[i].1))
                    } else {
                        (CborModel::Null, CborModel::Null)
                    },
            ),
        ),
    }
}

/// Whether `e`, at every depth, holds signed integers only where they are negative, which is the
/// form that converting from CBOR gives.
pub open spec fn canonical(e: ExtraValue) -> bool
    decreases e,
{
    match e {
        ExtraValue::I64(v) => v < 0,
        ExtraValue::Tag(_, inner) => canonical(*inner),
        ExtraValue::Array(v) => forall|i: int| 0 <= i < v@.len() ==> canonical(#[trigger] v@[i]),
        ExtraValue::Mapping(m) => forall|i: int|
            0 <= i < m.entries@.len() ==> canonical((#[trigger] m.entries@[i]).1),
        _ => true,
    }
}

impl ExtraValue {
    /// Converts to a CBOR item; maps are written in key order.
    pub fn into_cbor(self) -> (res: CborValue)
        ensures
            res.model() == cbor_of(self),
        decreases self,
    {
        match self {
            ExtraValue::Boolean(b) => CborValue::Bool(b),
            ExtraValue::I64(v) => CborValue::Integer(v as i128),
            ExtraValue::U64(v) => CborValue::Integer(v as i128),
            ExtraValue::F64(f) => CborValue::Float(f),
            ExtraValue::Bytes(b) => CborValue::Bytes(b),
            ExtraValue::Text(t) => CborValue::Text(t),
            ExtraValue::Null => CborValue::Null,
            ExtraValue::Tag(t, inner) => CborValue::Tag(t, Box::new(inner.into_cbor())),
            ExtraValue::Array(items) => {
                let ghost orig = items@;
                let mut rest = items;
                let mut out: Vec<CborValue> = Vec::new();
                while rest.len() > 0
                    invariant
                        out@.len() + rest@.len() == orig.len(),
                        rest@ == orig.skip(out@.len() as int),
                        forall|j: int| 0 <= j < orig.len() ==> decreases_to!(self => orig[j]),
                        forall|j: int|
                            0 <= j < out@.len() ==> (#[trigger] out@[j]).model() == cbor_of(orig[j]),
                    decreases rest@.len(),
                {
                    let ghost n = out@.len() as int;
                    let x = rest.remove(0);
                    assert(x == orig[n]);
                    out.push(x.into_cbor());
                    assert(rest@ =~= orig.skip(out@.len() as int));
                }
                let res = CborValue::Array(out);
                assert(res.model()->Array_0 =~= cbor_of(self)->Array_0);
                res
            },
            ExtraValue::Mapping(m) => {
                let ghost orig = m.entries@;
                let mut rest = m.entries;
                let mut out: Vec<(CborValue, CborValue)> = Vec::new();
                while rest.len() > 0
                    invariant
                        out@.len() + rest@.len() == orig.len(),
                        rest@ == orig.skip(out@.len() as int),
                        forall|j: int| 0 <= j < orig.len() ==> decreases_to!(self => orig[j].1),
                        forall|j: int|
                            0 <= j < out@.len() ==> (#[trigger] out@[j]).0.model() == CborModel::Text(
                                orig[j].0@,
                            ) && out@[j].1.model() == cbor_of(orig[j].1),
                    decreases rest@.len(),
                {
                    let ghost n = out@.len() as int;
                    let (k, v) = rest.remove(0);
                    assert((k, v) == orig[n]);
                    out.push((CborValue::Text(k), v.into_cbor()));
                    assert(rest@ =~= orig.skip(out@.len() as int));
                }
                let res = CborValue::Mapping(out);
                assert(res.model()->Mapping_0 =~= cbor_of(self)->Mapping_0);
                res
            },
        }
    }
}

/// A copy of the bytes `b`.
fn copy_bytes(b: &Vec<u8>) -> (res: Vec<u8>)
    ensures
        res@ == b@,
{
    let mut out: Vec<u8> = Vec::new();
    let mut i: usize = 0;
    while i < b.len()
        invariant
            i <= b@.len(),
            out@ == b@.take(i as int),
        decreases b@.len() - i,
    {
        out.push(b[i]);
        i = i + 1;
        assert(out@ =~= b@.take(i as int));
    }
    assert(b@.take(i as int) =~= b@);
    out
}

impl ExtraValue {
    /// The CBOR item that this value is written as, leaving the value in place; maps are written
    /// in key order.
    pub fn to_cbor(&self) -> (res: CborValue)
        ensures
            res.model() == cbor_of(*self),
        decreases self,
    {
        match self {
            ExtraValue::Boolean(b) => CborValue::Bool(*b),
            ExtraValue::I64(v) => CborValue::Integer(*v as i128),
            ExtraValue::U64(v) => CborValue::Integer(*v as i128),
            ExtraValue::F64(f) => CborValue::Float(*f),
            ExtraValue::Bytes(b) => CborValue::Bytes(copy_bytes(b)),
            ExtraValue::Text(t) => CborValue::Text(t.clone()),
            ExtraValue::Null => CborValue::Null,
            ExtraValue::Tag(t, inner) => CborValue::Tag(*t, Box::new(inner.to_cbor())),
            ExtraValue::Array(items) => {
                let mut out: Vec<CborValue> = Vec::new();
                let mut i: usize = 0;
                while i < items.len()
                    invariant
                        i <= items@.len(),
                        out@.len() == i,
                        forall|j: int| 0 <= j < items@.len() ==> decreases_to!(*self => items@[j]),
                        forall|j: int|
                            0 <= j < i ==> (#[trigger] out@[j]).model() == cbor_of(items@[j]),
                    decreases items@.len() - i,
                {
                    out.push(items[i].to_cbor());
                    i = i + 1;
                }
                let res = CborValue::Array(out);
                assert(res.model()->Array_0 =~= cbor_of(*self)->Array_0);
                res
            },
            ExtraValue::Mapping(m) => {
                let mut out: Vec<(CborValue, CborValue)> = Vec::new();
                let mut i: usize = 0;
                while i < m.entries.len()
                    invariant
                        i <= m.entries@.len(),
                        out@.len() == i,
                        forall|j: int|
                            0 <= j < m.entries@.len() ==> decreases_to!(*self => m.entries@[j].1),
                        forall|j: int|
                            0 <= j < i ==> (#[trigger] out@[j]).0.model() == CborModel::Text(
                                m.entries@[j].0@,
                            ) && out@[j].1.model() == cbor_of(m.entries@[j].1),
                    decreases m.entries@.len() - i,
                {
                    let key = m.entries[i].0.clone();
                    let value = m.entries[i].1.to_cbor();
                    out.push((CborValue::Text(key), value));
                    i = i + 1;
                }
                let res = CborValue::Mapping(out);
                assert(res.model()->Mapping_0 =~= cbor_of(*self)->Mapping_0);
                res
            },
        }
    }
}

/// Converting a well-formed canonical extra value to CBOR and back gives the value again.
pub proof fn lemma_cbor_roundtrip(e: ExtraValue)
    requires
        e.wf(),
        canonical(e),
    ensures
        extra_from_cbor(cbor_of(e)) == Ok::<ExtraModel, ExtraValueConversionError>(e.model()),
    decreases e,
{
    match e {
        ExtraValue::Tag(t, inner) => {
            lemma_cbor_roundtrip(*inner);
        },
        ExtraValue::Array(v) => {
            let cs = cbor_of(e)->Array_0;
            let ms = e.model()->Array_0;
            lemma_cbor_roundtrip_seq(v@, cs, ms);
        },
        ExtraValue::Mapping(m) => {
            let cs = cbor_of(e)->Mapping_0;
            lemma_cbor_roundtrip_map(m.entries@, cs);
            lemma_mapping_model(m);
        },
        _ => {},
    }
}

proof fn lemma_cbor_roundtrip_seq(s: Seq<ExtraValue>, cs: Seq<CborModel>, ms: Seq<ExtraModel>)
    requires
        cs.len() == s.len(),
        ms.len() == s.len(),
        forall|i: int| 0 <= i < s.len() ==> (#[trigger] s[i]).wf() && canonical(s[i]),
        forall|i: int| 0 <= i < s.len() ==> #[trigger] cs[i] == cbor_of(s[i]),
        forall|i: int| 0 <= i < s.len() ==> #[trigger] ms[i] == s[i].model(),
    ensures
        extras_from_cbor(cs) == Ok::<Seq<ExtraModel>, ExtraValueConversionError>(ms),
    decreases s,
{
    if s.len() > 0 {
        let n = s.len() - 1;
        lemma_cbor_roundtrip_seq(s.drop_last(), cs.drop_last(), ms.drop_last());
        lemma_cbor_roundtrip(s[n]);
        assert(ms.drop_last().push(ms[n]) =~= ms);
    } else {
        assert(ms =~= Seq::<ExtraModel>::empty());
    }
}

proof fn lemma_cbor_roundtrip_map(es: Seq<(String, ExtraValue)>, cs: Seq<(CborModel, CborModel)>)
    requires
        sorted_keys(es),
        cs.len() == es.len(),
        forall|i: int| 0 <= i < es.len() ==> (#[trigger] es[i]).1.wf() && canonical(es[i].1),
        forall|i: int|
            0 <= i < es.len() ==> #[trigger] cs[i] == (CborModel::Text(es[i].0@), cbor_of(es[i].1)),
    ensures
        extra_map_from_cbor(cs) == Ok::<Map<Seq<char>, ExtraModel>, ExtraValueConversionError>(
            models_of_map(entries_map(es)),
        ),
    decreases es,
{
    if es.len() > 0 {
        let n = es.len() - 1;
        lemma_sorted_take(es, n);
        assert(es.take(n) =~= es.drop_last());
        lemma_cbor_roundtrip_map(es.drop_last(), cs.drop_last());
        lemma_cbor_roundtrip(es[n].1);
        lemma_entries_map_take_step(es, n);
        assert(es.take(n + 1) =~= es);
        assert(models_of_map(entries_map(es)) =~= models_of_map(entries_map(es.drop_last())).insert(
            es[n].0@,
            es[n].1.model(),
        ));
    } else {
        assert(models_of_map(entries_map(es)) =~= Map::<Seq<char>, ExtraModel>::empty());
    }
}

/// Whether the bit pattern `a` is that of a NaN: all exponent bits set and a fraction.
pub open spec fn is_nan_bits(a: u64) -> bool {
    a & 0x7ff0_0000_0000_0000u64 == 0x7ff0_0000_0000_0000u64 && a & 0x000f_ffff_ffff_ffffu64 != 0
}

/// Whether the floating point numbers with the bit patterns `a` and `b` are equal as numbers:
/// neither is a NaN, and they have the same bits or both are zeros, of either sign.
pub open spec fn float_bits_eq(a: u64, b: u64) -> bool {
    !is_nan_bits(a) && !is_nan_bits(b) && (a == b || (a & 0x7fff_ffff_ffff_ffffu64 == 0 && b
        & 0x7fff_ffff_ffff_ffffu64 == 0))
}

/// Executable check for [`float_bits_eq`].
fn float_equal(a: u64, b: u64) -> (res: bool)
    ensures
        res == float_bits_eq(a, b),
{
    let a_nan = a & 0x7ff0_0000_0000_0000u64 == 0x7ff0_0000_0000_0000u64 && a
        & 0x000f_ffff_ffff_ffffu64 != 0;
    let b_nan = b & 0x7ff0_0000_0000_0000u64 == 0x7ff0_0000_0000_0000u64 && b
        & 0x000f_ffff_ffff_ffffu64 != 0;
    !a_nan && !b_nan && (a == b || (a & 0x7fff_ffff_ffff_ffffu64 == 0 && b
        & 0x7fff_ffff_ffff_ffffu64 == 0))
}

/// Whether the extra values `a` and `b` are equal: of the same kind with equal contents, numbers
/// compared as numbers (so a NaN equals nothing and the two zeros are equal), arrays and maps
/// entry by entry in their order.
pub open spec fn extra_eq(a: ExtraValue, b: ExtraValue) -> bool
    decreases a,
{
    match (a, b) {
        (ExtraValue::Boolean(x), ExtraValue::Boolean(y)) => x == y,
        (ExtraValue::I64(x), ExtraValue::I64(y)) => x == y,
        (ExtraValue::U64(x), ExtraValue::U64(y)) => x == y,
        (ExtraValue::F64(x), ExtraValue::F64(y)) => float_bits_eq(x, y),
        (ExtraValue::Bytes(x), ExtraValue::Bytes(y)) => x@ == y@,
        (ExtraValue::Text(x), ExtraValue::Text(y)) => x@ == y@,
        (ExtraValue::Null, ExtraValue::Null) => true,
        (ExtraValue::Tag(t, x), ExtraValue::Tag(u, y)) => t == u && extra_eq(*x, *y),
        (ExtraValue::Array(x), ExtraValue::Array(y)) => x@.len() == y@.len() && forall|i: int|
            0 <= i < x@.len() ==> extra_eq(#[trigger] x@[i], y@[i]),
        (ExtraValue::Mapping(m), ExtraValue::Mapping(n)) => m.entries@.len() == n.entries@.len()
            && forall|i: int|
            0 <= i < m.entries@.len() ==> (#[trigger] m.entries@[i]).0@ == n.entries@[i].0@
                && extra_eq(m.entries@[i].1, n.entries@[i].1),
        _ => false,
    }
}

/// Executable check for [`extra_eq`].
fn extra_equal(a: &ExtraValue, b: &ExtraValue) -> (res: bool)
    ensures
        res == extra_eq(*a, *b),
    decreases a,
{
    match (a, b) {
        (ExtraValue::Boolean(x), ExtraValue::Boolean(y)) => *x == *y,
        (ExtraValue::I64(x), ExtraValue::I64(y)) => *x == *y,
        (ExtraValue::U64(x), ExtraValue::U64(y)) => *x == *y,
        (ExtraValue::F64(x), ExtraValue::F64(y)) => float_equal(*x, *y),
        (ExtraValue::Bytes(x), ExtraValue::Bytes(y)) => {
            if x.len() != y.len() {
                return false;
            }
            let mut i: usize = 0;
            while i < x.len()
                invariant
                    i <= x@.len(),
                    x@.len() == y@.len(),
                    *a == ExtraValue::Bytes(*x),
                    *b == ExtraValue::Bytes(*y),
                    forall|j: int| 0 <= j < i ==> x@[j] == y@[j],
                decreases x@.len() - i,
            {
                if x[i] != y[i] {
                    assert(x@[i as int] != y@[i as int]);
                    return false;
                }
                i = i + 1;
            }
            assert(x@ =~= y@);
            true
        },
        (ExtraValue::Text(x), ExtraValue::Text(y)) => *x == *y,
        (ExtraValue::Null, ExtraValue::Null) => true,
        (ExtraValue::Tag(t, x), ExtraValue::Tag(u, y)) => *t == *u && extra_equal(x, y),
        (ExtraValue::Array(x), ExtraValue::Array(y)) => {
            if x.len() != y.len() {
                return false;
            }
            let mut i: usize = 0;
            while i < x.len()
                invariant
                    i <= x@.len(),
                    x@.len() == y@.len(),
                    *a == ExtraValue::Array(*x),
                    *b == ExtraValue::Array(*y),
                    forall|j: int| 0 <= j < x@.len() ==> decreases_to!(*a => x@[j]),
                    forall|j: int| 0 <= j < i ==> extra_eq(#[trigger] x@[j], y@[j]),
                decreases x@.len() - i,
            {
                if !extra_equal(&x[i], &y[i]) {
                    assert(!extra_eq(x@[i as int], y@[i as int]));
                    return false;
                }
                i = i + 1;
            }
            true
        },
        (ExtraValue::Mapping(m), ExtraValue::Mapping(n)) => {
            if m.entries.len() != n.entries.len() {
                return false;
            }
            let mut i: usize = 0;
            while i < m.entries.len()
                invariant
                    i <= m.entries@.len(),
                    m.entries@.len() == n.entries@.len(),
                    *a == ExtraValue::Mapping(*m),
                    *b == ExtraValue::Mapping(*n),
                    forall|j: int| 0 <= j < m.entries@.len() ==> decreases_to!(*a => m.entries@[j].1),
                    forall|j: int|
                        0 <= j < i ==> (#[trigger] m.entries@[j]).0@ == n.entries@[j].0@
                            && extra_eq(m.entries@[j].1, n.entries@[j].1),
                decreases m.entries@.len() - i,
            {
                if m.entries[i].0 != n.entries[i].0 || !extra_equal(&m.entries[i].1, &n.entries[i].1) {
                    assert(!(m.entries@[i as int].0@ == n.entries@[i as int].0@ && extra_eq(
                        m.entries@[i as int].1,
                        n.entries@[i as int].1,
                    )));
                    return false;
                }
                i = i + 1;
            }
            true
        },
        _ => false,
    }
}

impl PartialEq for ExtraValue {
    fn eq(&self, other: &Self) -> (res: bool) {
        extra_equal(self, other)
    }
}

impl PartialEqSpecImpl for ExtraValue {
    open spec fn obeys_eq_spec() -> bool {
        true
    }

    open spec fn eq_spec(&self, other: &Self) -> bool {
        extra_eq(*self, *other)
    }
}

} // verus!
