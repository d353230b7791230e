//! YAML values of config files, and the extra values that TOH info keeps of them.

use crate::errors::ExtraValueConversionError;
use crate::strmap::{lemma_entries_map_index, StrMap};
use crate::value::{lemma_mapping_model, map_model, models_of_map, ExtraModel, ExtraValue};
use vstd::prelude::*;

verus! {

/// A YAML number.
#[derive(Debug, Clone, Copy, PartialEq, Eq, Structural)]
pub enum YamlNumber {
    /// A number that is not negative.
    PosInt(u64),
    /// A negative number.
    NegInt(i64),
    /// A floating point number, as its bit pattern.
    Float(u64),
}

/// A YAML value.
#[derive(Debug, PartialEq)]
pub enum YamlValue {
    Null,
    Bool(bool),
    Number(YamlNumber),
    String(String),
    Sequence(Vec<YamlValue>),
    /// Mapping, as the sequence of its key and value pairs in their order.
    Mapping(Vec<(YamlValue, YamlValue)>),
    /// A value with a tag.
    Tagged,
}

/// Mathematical form of a [`YamlValue`].
pub enum YamlModel {
    Null,
    Bool(bool),
    Number(YamlNumber),
    String(Seq<char>),
    Sequence(Seq<YamlModel>),
    Mapping(Seq<(YamlModel, YamlModel)>),
    Tagged,
}

impl YamlValue {
    /// The mathematical form of this value.
    pub open spec fn model(self) -> YamlModel
        decreases self,
    {
        match self {
            YamlValue::Null => YamlModel::Null,
            YamlValue::Bool(b) => YamlModel::Bool(b),
            YamlValue::Number(n) => YamlModel::Number(n),
            YamlValue::String(s) => YamlModel::String(s@),
            YamlValue::Sequence(v) => YamlModel::Sequence(
                Seq::new(
                    v@.len(),
                    |i: int|
                        if 0 <= i < v@.len() {
                            v@[i].model()
                        } else {
                            YamlModel::Null
                        },
                ),
            ),
            YamlValue::Mapping(v) => YamlModel::Mapping(
                Seq::new(
                    v@.len(),
                    |i: int|
                        if 0 <= i < v@.len() {
                            (v@[i].0.model(), v@[i].1.model())
                        } else {
                            (YamlModel::Null, YamlModel::Null)
                        },
                ),
            ),
            YamlValue::Tagged => YamlModel::Tagged,
        }
    }
}

/// The extra value that the YAML value `y` converts to, or why it does not convert: numbers
/// become unsigned where they are not negative, signed where they are negative, and floating
/// point where they are not whole; mapping keys must be strings; tagged values do not convert.
pub open spec fn extra_from_yaml(y: YamlModel) -> Result<ExtraModel, ExtraValueConversionError>
    decreases y,
{
    match y {
        YamlModel::Null => Ok(ExtraModel::Null),
        YamlModel::Bool(b) => Ok(ExtraModel::Boolean(b)),
        YamlModel::Number(YamlNumber::PosInt(v)) => Ok(ExtraModel::U64(v)),
        YamlModel::Number(YamlNumber::NegInt(v)) => Ok(ExtraModel::I64(v)),
        YamlModel::Number(YamlNumber::Float(f)) => Ok(ExtraModel::F64(f)),
        YamlModel::String(s) => Ok(ExtraModel::Text(s)),
        YamlModel::Sequence(s) => match extras_from_yaml(s) {
            Ok(ms) => Ok(ExtraModel::Array(ms)),
            Err(e) => Err(e),
        },
        YamlModel::Mapping(s) => match extra_map_from_yaml(s) {
            Ok(m) => Ok(ExtraModel::Mapping(m)),
            Err(e) => Err(e),
        },
        YamlModel::Tagged => Err(ExtraValueConversionError::UnsupportedValueType),
    }
}

/// The extra values that the YAML values `s` convert to, or the error of the first that does
/// not.
pub open spec fn extras_from_yaml(s: Seq<YamlModel>) -> Result<
    Seq<ExtraModel>,
    ExtraValueConversionError,
>
    decreases s,
{
    if s.len() == 0 {
        Ok(Seq::empty())
    } else {
        match extras_from_yaml(s.drop_last()) {
            Err(e) => Err(e),
            Ok(ms) => match extra_from_yaml(s.last()) {
                Ok(m) => Ok(ms.push(m)),
                Err(e) => Err(e),
            },
        }
    }
}

/// The map that the YAML mapping entries `s` convert to, or the error of the first entry that
/// does not convert: its key must be a string and its value must convert.
pub open spec fn extra_map_from_yaml(s: Seq<(YamlModel, YamlModel)>) -> Result<
    Map<Seq<char>, ExtraModel>,
    ExtraValueConversionError,
>
    decreases s,
{
    if s.len() == 0 {
        Ok(Map::empty())
    } else {
        match extra_map_from_yaml(s.drop_last()) {
            Err(e) => Err(e),
            Ok(m) => match s.last().0 {
                YamlModel::String(k) => match extra_from_yaml(s.last().1) {
                    Ok(v) => Ok(m.insert(k, v)),
                    Err(e) => Err(e),
                },
                _ => Err(ExtraValueConversionError::MapKeysMustBeStrings),
            },
        }
    }
}

proof fn lemma_extras_prefix_err(s: Seq<YamlModel>, n: int)
    requires
        0 <= n <= s.len(),
        extras_from_yaml(s.take(n)) is Err,
    ensures
        extras_from_yaml(s) == extras_from_yaml(s.take(n)),
    decreases s.len(),
{
    if n < s.len() {
        assert(s.drop_last().take(n) =~= s.take(n));
        lemma_extras_prefix_err(s.drop_last(), n);
    } else {
        assert(s.take(n) =~= s);
    }
}

proof fn lemma_map_prefix_err(s: Seq<(YamlModel, YamlModel)>, n: int)
    requires
        0 <= n <= s.len(),
        extra_map_from_yaml(s.take(n)) is Err,
    ensures
        extra_map_from_yaml(s) == extra_map_from_yaml(s.take(n)),
    decreases s.len(),
{
    if n < s.len() {
        assert(s.drop_last().take(n) =~= s.take(n));
        lemma_map_prefix_err(s.drop_last(), n);
    } else {
        assert(s.take(n) =~= s);
    }
}

impl ExtraValue {
    /// Converts a YAML value of a config file into an extra value.
    pub fn try_from_yaml(value: YamlValue) -> (res: Result<ExtraValue, ExtraValueConversionError>)
        ensures
            match extra_from_yaml(value.model()) {
                Ok(m) => res matches Ok(e) && e.model() == m && e.wf(),
                Err(err) => res matches Err(x) && x == err,
            },
        decreases value,
    {
        match value {
            YamlValue::Null => Ok(ExtraValue::Null),
            YamlValue::Bool(b) => Ok(ExtraValue::Boolean(b)),
            YamlValue::Number(YamlNumber::PosInt(v)) => Ok(ExtraValue::U64(v)),
            YamlValue::Number(YamlNumber::NegInt(v)) => Ok(ExtraValue::I64(v)),
            YamlValue::Number(YamlNumber::Float(f)) => Ok(ExtraValue::F64(f)),
            YamlValue::String(s) => Ok(ExtraValue::Text(s)),
            YamlValue::Tagged => Err(ExtraValueConversionError::UnsupportedValueType),
            YamlValue::Sequence(items) => {
                let ghost orig = items@;
                let ghost ms = value.model()->Sequence_0;
                assert(forall|j: int| 0 <= j < orig.len() ==> ms[j] == orig[j].model());
                let mut rest = items;
                let mut out: Vec<ExtraValue> = Vec::new();
                assert(ms.take(0) =~= Seq::<YamlModel>::empty());
                while rest.len() > 0
                    invariant
                        value.model() == YamlModel::Sequence(ms),
                        out@.len() + rest@.len() == orig.len(),
                        ms.len() == orig.len(),
                        rest@ == orig.skip(out@.len() as int),
                        forall|j: int| 0 <= j < orig.len() ==> ms[j] == (#[trigger] orig[j]).model(),
                        forall|j: int| 0 <= j < orig.len() ==> decreases_to!(value => orig[j]),
                        extras_from_yaml(ms.take(out@.len() as int)) matches Ok(r) && r.len()
                            == out@.len() && forall|j: int|
                            0 <= j < out@.len() ==> r[j] == (#[trigger] out@[j]).model(),
                        forall|j: int| 0 <= j < out@.len() ==> (#[trigger] out@[j]).wf(),
                    decreases rest@.len(),
                {
                    let ghost n = out@.len() as int;
                    let x = rest.remove(0);
                    assert(x == orig[n]);
                    assert(ms.take(n + 1).drop_last() =~= ms.take(n));
                    assert(ms.take(n + 1).last() == x.model());
                    match ExtraValue::try_from_yaml(x) {
                        Ok(y) => {
                            out.push(y);
                        },
                        Err(err) => {
                            proof {
                                lemma_extras_prefix_err(ms, n + 1);
                            }
                            return Err(err);
                        },
                    }
                    assert(rest@ =~= orig.skip(out@.len() as int));
                }
                assert(ms.take(out@.len() as int) =~= ms);
                let res = ExtraValue::Array(out);
                assert(res.model()->Array_0 =~= extras_from_yaml(ms)->Ok_0);
                Ok(res)
            },
            YamlValue::Mapping(entries) => {
                let ghost orig = entries@;
                let ghost ms = value.model()->Mapping_0;
                assert(forall|j: int|
                    0 <= j < orig.len() ==> ms[j] == (orig[j].0.model(), orig[j].1.model()));
                let mut rest = entries;
                let mut out: StrMap<ExtraValue> = StrMap::new();
                let mut n: usize = 0;
                let total = rest.len();
                assert(ms.take(0) =~= Seq::<(YamlModel, YamlModel)>::empty());
                assert(map_model(out) =~= Map::<Seq<char>, ExtraModel>::empty());
                while rest.len() > 0
                    invariant
                        value.model() == YamlModel::Mapping(ms),
                        total == orig.len(),
                        n + rest@.len() == orig.len(),
                        ms.len() == orig.len(),
                        rest@ == orig.skip(n as int),
                        forall|j: int|
                            0 <= j < orig.len() ==> ms[j] == ((#[trigger] orig[j]).0.model(),
                            orig[j].1.model()),
                        forall|j: int| 0 <= j < orig.len() ==> decreases_to!(value => orig[j].1),
                        out.wf(),
                        extra_map_from_yaml(ms.take(n as int)) == Ok::<
                            Map<Seq<char>, ExtraModel>,
                            ExtraValueConversionError,
                        >(map_model(out)),
                        forall|k: Seq<char>| #[trigger] out@.contains_key(k) ==> out@[k].wf(),
                    decreases rest@.len(),
                {
                    let (key, item) = rest.remove(0);
                    assert((key, item) == orig[n as int]);
                    assert(ms.take(n + 1).drop_last() =~= ms.take(n as int));
                    assert(ms.take(n + 1).last() == (key.model(), item.model()));
                    match key {
                        YamlValue::String(k) => {
                            match ExtraValue::try_from_yaml(item) {
                                Ok(y) => {
                                    let ghost before = out@;
                                    let ghost km = k@;
                                    let ghost ym = y.model();
                                    out.insert(k, y);
                                    assert(map_model(out) =~= models_of_map(before).insert(
                                        km,
                                        ym,
                                    ));
                                },
                                Err(err) => {
                                    proof {
                                        lemma_map_prefix_err(ms, n + 1);
                                    }
                                    return Err(err);
                                },
                            }
                        },
                        _ => {
                            proof {
                                lemma_map_prefix_err(ms, n + 1);
                            }
                            return Err(ExtraValueConversionError::MapKeysMustBeStrings);
                        },
                    }
                    n = n + 1;
                    assert(rest@ =~= orig.skip(n as int));
                }
                assert(ms.take(n as int) =~= ms);
                proof {
                    lemma_mapping_model(out);
                    assert forall|i: int| 0 <= i < out.entries@.len() implies (
                    #[trigger] out.entries@[i]).1.wf() by {
                        lemma_entries_map_index(out.entries@, i);
                    }
                }
                Ok(ExtraValue::Mapping(out))
            },
        }
    }
}

/// The extra values that the YAML values of the keyed entries `s` convert to, or the key and
/// error of the first entry whose value does not convert. Where a key occurs more than once, the
/// last entry with it wins.
pub open spec fn keyed_extras_from_yaml(s: Seq<(String, YamlValue)>) -> Result<
    Map<Seq<char>, ExtraModel>,
    (Seq<char>, ExtraValueConversionError),
>
    decreases s.len(),
{
    if s.len() == 0 {
        Ok(Map::empty())
    } else {
        match keyed_extras_from_yaml(s.drop_last()) {
            Err(x) => Err(x),
            Ok(m) => match extra_from_yaml(s.last().1.model()) {
                Ok(v) => Ok(m.insert(s.last().0@, v)),
                Err(e) => Err((s.last().0@, e)),
            },
        }
    }
}

proof fn lemma_keyed_prefix_err(s: Seq<(String, YamlValue)>, n: int)
    requires
        0 <= n <= s.len(),
        keyed_extras_from_yaml(s.take(n)) is Err,
    ensures
        keyed_extras_from_yaml(s) == keyed_extras_from_yaml(s.take(n)),
    decreases s.len(),
{
    if n < s.len() {
        assert(s.drop_last().take(n) =~= s.take(n));
        lemma_keyed_prefix_err(s.drop_last(), n);
    } else {
        assert(s.take(n) =~= s);
    }
}

/// Converts the values of the keyed YAML entries `entries` into extra values, in their order.
///
/// Where a value does not convert, gives its key and why.
pub fn extra_values_from_yaml(entries: Vec<(String, YamlValue)>) -> (res: Result<
    StrMap<ExtraValue>,
    (String, ExtraValueConversionError),
>)
    ensures
        match keyed_extras_from_yaml(entries@) {
            Ok(m) => res matches Ok(x) && x.wf() && map_model(x) == m && forall|k: Seq<char>|
                #[trigger] x@.contains_key(k) ==> x@[k].wf(),
            Err((k, e)) => res matches Err((key, err)) && key@ == k && err == e,
        },
{
    let ghost orig = entries@;
    let mut rest = entries;
    let mut out: StrMap<ExtraValue> = StrMap::new();
    let mut n: usize = 0;
    let total = rest.len();
    proof {
        assert(orig.take(0) =~= Seq::<(String, YamlValue)>::empty());
        assert(map_model(out) =~= Map::<Seq<char>, ExtraModel>::empty());
        assert(rest@ =~= orig.skip(0));
    }
    while rest.len() > 0
        invariant
            orig == entries@,
            orig.len() == total,
            n + rest@.len() == orig.len(),
            rest@ == orig.skip(n as int),
            out.wf(),
            forall|k: Seq<char>| #[trigger] out@.contains_key(k) ==> out@[k].wf(),
            keyed_extras_from_yaml(orig.take(n as int)) == Ok::<
                Map<Seq<char>, ExtraModel>,
                (Seq<char>, ExtraValueConversionError),
            >(map_model(out)),
        decreases rest@.len(),
    {
        let (k, v) = rest.remove(0);
        proof {
            assert(orig[n as int] == (k, v));
            assert(orig.take(n + 1).drop_last() =~= orig.take(n as int));
            assert(orig.take(n + 1).last() == orig[n as int]);
        }
        match ExtraValue::try_from_yaml(v) {
            Ok(x) => {
                let ghost before = out@;
                let ghost km = k@;
                let ghost xm = x.model();
                out.insert(k, x);
                proof {
                    assert(map_model(out) =~= models_of_map(before).insert(km, xm));
                }
            },
            Err(e) => {
                proof {
                    lemma_keyed_prefix_err(orig, n + 1);
                }
                return Err((k, e));
            },
        }
        n = n + 1;
        proof {
            assert(rest@ =~= orig.skip(n as int));
        }
    }
    proof {
        assert(orig.take(n as int) =~= orig);
    }
    Ok(out)
}

} // verus!
