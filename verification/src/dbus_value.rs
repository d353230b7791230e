//! D-Bus values of TOH info properties, and their conversions to and from extra values.

use crate::errors::ExtraValueConversionError;
use crate::strmap::{key_index, lemma_entries_map_index, lemma_key_index, StrMap};
use crate::value::{lemma_mapping_model, map_model, models_of_map, ExtraModel, ExtraValue};
use vstd::prelude::*;

verus! {

/// A D-Bus value.
#[derive(Debug, PartialEq)]
pub enum DbusValue {
    U8(u8),
    Bool(bool),
    I16(i16),
    U16(u16),
    I32(i32),
    U32(u32),
    I64(i64),
    U64(u64),
    /// Floating point number, as its bit pattern.
    F64(u64),
    Str(String),
    /// A variant holding a value.
    Value(Box<DbusValue>),
    Array(Vec<DbusValue>),
    /// An array of bytes.
    ByteArray(Vec<u8>),
    /// Dictionary, as the sequence of its key and value pairs.
    Dict(Vec<(DbusValue, DbusValue)>),
    /// A signature, object path, structure or file descriptor.
    Other,
}

/// Mathematical form of a [`DbusValue`].
pub enum DbusModel {
    U8(u8),
    Bool(bool),
    I16(i16),
    U16(u16),
    I32(i32),
    U32(u32),
    I64(i64),
    U64(u64),
    F64(u64),
    Str(Seq<char>),
    Value(Box<DbusModel>),
    Array(Seq<DbusModel>),
    ByteArray(Seq<u8>),
    Dict(Seq<(DbusModel, DbusModel)>),
    Other,
}

impl DbusValue {
    /// The mathematical form of this value.
    pub open spec fn model(self) -> DbusModel
        decreases self,
    {
        match self {
            DbusValue::U8(v) => DbusModel::U8(v),
            DbusValue::Bool(v) => DbusModel::Bool(v),
            DbusValue::I16(v) => DbusModel::I16(v),
            DbusValue::U16(v) => DbusModel::U16(v),
            DbusValue::I32(v) => DbusModel::I32(v),
            DbusValue::U32(v) => DbusModel::U32(v),
            DbusValue::I64(v) => DbusModel::I64(v),
            DbusValue::U64(v) => DbusModel::U64(v),
            DbusValue::F64(v) => DbusModel::F64(v),
            DbusValue::Str(s) => DbusModel::Str(s@),
            DbusValue::Value(inner) => DbusModel::Value(Box::new(inner.model())),
            DbusValue::Array(v) => DbusModel::Array(
                Seq::new(
                    v@.len(),
                    |i: int|
                        if 0 <= i < v@.len() {
                            v@[i].model()
                        } else {
                            DbusModel::Other
                        },
                ),
            ),
            DbusValue::Dict(v) => DbusModel::Dict(
                Seq::new(
                    v@.len(),
                    |i: int|
                        if 0 <= i < v@.len() {
                            (v@[i].0.model(), v@[i].1.model())
                        } else {
                            (DbusModel::Other, DbusModel::Other)
                        },
                ),
            ),
            DbusValue::ByteArray(b) => DbusModel::ByteArray(b@),
            DbusValue::Other => DbusModel::Other,
        }
    }
}

/// The extra value that the D-Bus value `d` converts to, or why it does not convert: unsigned
/// numbers become unsigned and signed numbers signed, a variant converts as the value it holds,
/// dictionary keys must be strings, and signatures, object paths, structures and file
/// descriptors do not convert.
pub open spec fn extra_from_dbus(d: DbusModel) -> Result<ExtraModel, ExtraValueConversionError>
    decreases d,
{
    match d {
        DbusModel::Bool(b) => Ok(ExtraModel::Boolean(b)),
        DbusModel::U8(v) => Ok(ExtraModel::U64(v as u64)),
        DbusModel::I16(v) => Ok(ExtraModel::I64(v as i64)),
        DbusModel::U16(v) => Ok(ExtraModel::U64(v as u64)),
        DbusModel::I32(v) => Ok(ExtraModel::I64(v as i64)),
        DbusModel::U32(v) => Ok(ExtraModel::U64(v as u64)),
        DbusModel::I64(v) => Ok(ExtraModel::I64(v)),
        DbusModel::U64(v) => Ok(ExtraModel::U64(v)),
        DbusModel::F64(f) => Ok(ExtraModel::F64(f)),
        DbusModel::Str(s) => Ok(ExtraModel::Text(s)),
        DbusModel::Value(inner) => extra_from_dbus(*inner),
        DbusModel::Array(s) => match extras_from_dbus(s) {
            Ok(ms) => Ok(ExtraModel::Array(ms)),
            Err(e) => Err(e),
        },
        DbusModel::ByteArray(b) => Ok(
            ExtraModel::Array(
                Seq::new(
                    b.len(),
                    |i: int|
                        if 0 <= i < b.len() {
                            ExtraModel::U64(b[i] as u64)
                        } else {
                            ExtraModel::Null
                        },
                ),
            ),
        ),
        DbusModel::Dict(s) => match extra_map_from_dbus(s) {
            Ok(m) => Ok(ExtraModel::Mapping(m)),
            Err(e) => Err(e),
        },
        DbusModel::Other => Err(ExtraValueConversionError::UnsupportedValueType),
    }
}

/// The extra values that the D-Bus values `s` convert to, or the error of the first that does
/// not.
pub open spec fn extras_from_dbus(s: Seq<DbusModel>) -> Result<
    Seq<ExtraModel>,
    ExtraValueConversionError,
>
    decreases s,
{
    if s.len() == 0 {
        Ok(Seq::empty())
    } else {
        match extras_from_dbus(s.drop_last()) {
            Err(e) => Err(e),
            Ok(ms) => match extra_from_dbus(s.last()) {
                Ok(m) => Ok(ms.push(m)),
                Err(e) => Err(e),
            },
        }
    }
}

/// The map that the D-Bus dictionary entries `s` convert to, or the error of the first entry
/// that does not convert: its key must be a string and its value must convert. Where a key
/// occurs more than once, the last entry with it wins.
pub open spec fn extra_map_from_dbus(s: Seq<(DbusModel, DbusModel)>) -> Result<
    Map<Seq<char>, ExtraModel>,
    ExtraValueConversionError,
>
    decreases s,
{
    if s.len() == 0 {
        Ok(Map::empty())
    } else {
        match extra_map_from_dbus(s.drop_last()) {
            Err(e) => Err(e),
            Ok(m) => match s.last().0 {
                DbusModel::Str(k) => match extra_from_dbus(s.last().1) {
                    Ok(v) => Ok(m.insert(k, v)),
                    Err(e) => Err(e),
                },
                _ => Err(ExtraValueConversionError::MapKeysMustBeStrings),
            },
        }
    }
}

proof fn lemma_extras_prefix_err(s: Seq<DbusModel>, n: int)
    requires
        0 <= n <= s.len(),
        extras_from_dbus(s.take(n)) is Err,
    ensures
        extras_from_dbus(s) == extras_from_dbus(s.take(n)),
    decreases s.len(),
{
    if n < s.len() {
        assert(s.drop_last().take(n) =~= s.take(n));
        lemma_extras_prefix_err(s.drop_last(), n);
    } else {
        assert(s.take(n) =~= s);
    }
}

proof fn lemma_map_prefix_err(s: Seq<(DbusModel, DbusModel)>, n: int)
    requires
        0 <= n <= s.len(),
        extra_map_from_dbus(s.take(n)) is Err,
    ensures
        extra_map_from_dbus(s) == extra_map_from_dbus(s.take(n)),
    decreases s.len(),
{
    if n < s.len() {
        assert(s.drop_last().take(n) =~= s.take(n));
        lemma_map_prefix_err(s.drop_last(), n);
    } else {
        assert(s.take(n) =~= s);
    }
}

impl ExtraValue {
    /// Converts a D-Bus value into an extra value.
    pub fn try_from_dbus(value: &DbusValue) -> (res: Result<ExtraValue, ExtraValueConversionError>)
        ensures
            match extra_from_dbus(value.model()) {
                Ok(m) => res matches Ok(e) && e.model() == m && e.wf(),
                Err(err) => res matches Err(x) && x == err,
            },
        decreases value,
    {
        match value {
            DbusValue::Bool(b) => Ok(ExtraValue::Boolean(*b)),
            DbusValue::U8(v) => Ok(ExtraValue::U64(*v as u64)),
            DbusValue::I16(v) => Ok(ExtraValue::I64(*v as i64)),
            DbusValue::U16(v) => Ok(ExtraValue::U64(*v as u64)),
            DbusValue::I32(v) => Ok(ExtraValue::I64(*v as i64)),
            DbusValue::U32(v) => Ok(ExtraValue::U64(*v as u64)),
            DbusValue::I64(v) => Ok(ExtraValue::I64(*v)),
            DbusValue::U64(v) => Ok(ExtraValue::U64(*v)),
            DbusValue::F64(f) => Ok(ExtraValue::F64(*f)),
            DbusValue::Str(s) => Ok(ExtraValue::Text(s.clone())),
            DbusValue::Value(inner) => ExtraValue::try_from_dbus(inner),
            DbusValue::Other => Err(ExtraValueConversionError::UnsupportedValueType),
            DbusValue::ByteArray(b) => {
                let mut out: Vec<ExtraValue> = Vec::new();
                let mut i: usize = 0;
                while i < b.len()
                    invariant
                        i <= b@.len(),
                        out@.len() == i,
                        forall|j: int|
                            0 <= j < i ==> (#[trigger] out@[j]) == ExtraValue::U64(b@[j] as u64),
                    decreases b@.len() - i,
                {
                    out.push(ExtraValue::U64(b[i] as u64));
                    i = i + 1;
                }
                let res = ExtraValue::Array(out);
                let ghost want = extra_from_dbus(value.model())->Ok_0->Array_0;
                assert forall|j: int| 0 <= j < out@.len() implies (#[trigger] out@[j]).model()
                    == want[j] && out@[j].wf() by {
                    assert(out@[j] == ExtraValue::U64(b@[j] as u64));
                }
                assert(res.model()->Array_0 =~= want);
                Ok(res)
            },
            DbusValue::Array(items) => {
                let ghost ms = value.model()->Array_0;
                assert(forall|j: int| 0 <= j < items@.len() ==> ms[j] == items@[j].model());
                let mut out: Vec<ExtraValue> = Vec::new();
                let mut i: usize = 0;
                assert(ms.take(0) =~= Seq::<DbusModel>::empty());
                while i < items.len()
                    invariant
                        value.model() == DbusModel::Array(ms),
                        i <= items@.len(),
                        out@.len() == i,
                        ms.len() == items@.len(),
                        forall|j: int|
                            0 <= j < items@.len() ==> ms[j] == (#[trigger] items@[j]).model(),
                        forall|j: int| 0 <= j < items@.len() ==> decreases_to!(value => items@[j]),
                        extras_from_dbus(ms.take(i as int)) matches Ok(r) && r.len() == i && forall|
                            j: int,
                        | 0 <= j < i ==> r[j] == (#[trigger] out@[j]).model(),
                        forall|j: int| 0 <= j < i ==> (#[trigger] out@[j]).wf(),
                    decreases items@.len() - i,
                {
                    assert(ms.take(i + 1).drop_last() =~= ms.take(i as int));
                    assert(ms.take(i + 1).last() == items@[i as int].model());
                    match ExtraValue::try_from_dbus(&items[i]) {
                        Ok(y) => {
                            out.push(y);
                        },
                        Err(err) => {
                            proof {
                                lemma_extras_prefix_err(ms, i + 1);
                            }
                            return Err(err);
                        },
                    }
                    i = i + 1;
                }
                assert(ms.take(i as int) =~= ms);
                let res = ExtraValue::Array(out);
                assert(res.model()->Array_0 =~= extras_from_dbus(ms)->Ok_0);
                Ok(res)
            },
            DbusValue::Dict(entries) => {
                let ghost ms = value.model()->Dict_0;
                assert(forall|j: int|
                    0 <= j < entries@.len() ==> ms[j] == (entries@[j].0.model(), entries@[j].1.model()));
                let mut out: StrMap<ExtraValue> = StrMap::new();
                let mut i: usize = 0;
                assert(ms.take(0) =~= Seq::<(DbusModel, DbusModel)>::empty());
                assert(map_model(out) =~= Map::<Seq<char>, ExtraModel>::empty());
                while i < entries.len()
                    invariant
                        value.model() == DbusModel::Dict(ms),
                        i <= entries@.len(),
                        ms.len() == entries@.len(),
                        forall|j: int|
                            0 <= j < entries@.len() ==> ms[j] == ((#[trigger] entries@[j]).0.model(),
                            entries@[j].1.model()),
                        forall|j: int|
                            0 <= j < entries@.len() ==> decreases_to!(value => entries@[j].1),
                        out.wf(),
                        extra_map_from_dbus(ms.take(i as int)) == Ok::<
                            Map<Seq<char>, ExtraModel>,
                            ExtraValueConversionError,
                        >(map_model(out)),
                        forall|k: Seq<char>| #[trigger] out@.contains_key(k) ==> out@[k].wf(),
                    decreases entries@.len() - i,
                {
                    assert(ms.take(i + 1).drop_last() =~= ms.take(i as int));
                    assert(ms.take(i + 1).last() == (entries@[i as int].0.model(),
                    entries@[i as int].1.model()));
                    match &entries[i].0 {
                        DbusValue::Str(k) => {
                            match ExtraValue::try_from_dbus(&entries[i].1) {
                                Ok(y) => {
                                    let ghost before = out@;
                                    let ghost km = k@;
                                    let ghost ym = y.model();
                                    out.insert(k.clone(), y);
                                    assert(map_model(out) =~= models_of_map(before).insert(
                                        km,
                                        ym,
                                    ));
                                },
                                Err(err) => {
                                    proof {
                                        lemma_map_prefix_err(ms, i + 1);
                                    }
                                    return Err(err);
                                },
                            }
                        },
                        _ => {
                            proof {
                                lemma_map_prefix_err(ms, i + 1);
                            }
                            return Err(ExtraValueConversionError::MapKeysMustBeStrings);
                        },
                    }
                    i = i + 1;
                }
                assert(ms.take(i as int) =~= ms);
                proof {
                    lemma_mapping_model(out);
                    assert forall|j: int| 0 <= j < out.entries@.len() implies (
                    #[trigger] out.entries@[j]).1.wf() by {
                        lemma_entries_map_index(out.entries@, j);
                    }
                }
                Ok(ExtraValue::Mapping(out))
            },
        }
    }
}

/// The D-Bus value that the extra value `e` converts to where converting drops what does not
/// convert, or `None` where `e` itself does not convert: null and tagged values do not convert,
/// bytes become an array of bytes, and arrays and maps keep the items and entries that convert.
pub open spec fn dbus_of(e: ExtraValue) -> Option<DbusModel>
    decreases e, 1int, 0int,
{
    match e {
        ExtraValue::Boolean(b) => Some(DbusModel::Bool(b)),
        ExtraValue::I64(v) => Some(DbusModel::I64(v)),
        ExtraValue::U64(v) => Some(DbusModel::U64(v)),
        ExtraValue::F64(f) => Some(DbusModel::F64(f)),
        ExtraValue::Bytes(b) => Some(DbusModel::ByteArray(b@)),
        ExtraValue::Text(t) => Some(DbusModel::Str(t@)),
        ExtraValue::Null => None,
        ExtraValue::Tag(_, _) => None,
        ExtraValue::Array(v) => Some(DbusModel::Array(dbus_items(v@, v@.len() as int))),
        ExtraValue::Mapping(m) => Some(
            DbusModel::Dict(dbus_entries(m.entries@, m.entries@.len() as int)),
        ),
    }
}

/// The D-Bus values of the first `n` items of `s` that convert.
pub open spec fn dbus_items(s: Seq<ExtraValue>, n: int) -> Seq<DbusModel>
    decreases s, 0int, n,
{
    if n <= 0 || n > s.len() {
        Seq::empty()
    } else {
        let r = dbus_items(s, n - 1);
        match dbus_of(s[n - 1]) {
            Some(d) => r.push(d),
            None => r,
        }
    }
}

/// The D-Bus dictionary entries of the first `n` entries of `e` whose values convert.
pub open spec fn dbus_entries(e: Seq<(String, ExtraValue)>, n: int) -> Seq<(DbusModel, DbusModel)>
    decreases e, 0int, n,
{
    if n <= 0 || n > e.len() {
        Seq::empty()
    } else {
        let r = dbus_entries(e, n - 1);
        match dbus_of(e[n - 1].1) {
            Some(d) => r.push((DbusModel::Str(e[n - 1].0@), d)),
            None => r,
        }
    }
}

/// Error for extra values that have no D-Bus form.
///
/// Holds the value.
#[derive(Debug)]
pub struct NonConvertableValue<'v>(pub &'v ExtraValue);

impl ExtraValue {
    /// Converts to a D-Bus value but discards inner values that could not be converted.
    pub fn try_into_dbus_lossy(&self) -> (res: Result<DbusValue, NonConvertableValue<'_>>)
        ensures
            match dbus_of(*self) {
                Some(d) => res matches Ok(v) && v.model() == d,
                None => res matches Err(x) && *x.0 == *self,
            },
        decreases self,
    {
        match self {
            ExtraValue::Boolean(b) => Ok(DbusValue::Bool(*b)),
            ExtraValue::I64(v) => Ok(DbusValue::I64(*v)),
            ExtraValue::U64(v) => Ok(DbusValue::U64(*v)),
            ExtraValue::F64(f) => Ok(DbusValue::F64(*f)),
            ExtraValue::Bytes(b) => {
                let mut out: Vec<u8> = Vec::new();
                let mut i: usize = 0;
                while i < b.len()
                    invariant
                        i <= b@.len(),
                        out@ == b@.take(i as int),
                    decreases b@.len() - i,
                {
                    out.push(b[i]);
                    i = i + 1;
                    assert(out@ =~= b@.take(i as int));
                }
                assert(b@.take(i as int) =~= b@);
                Ok(DbusValue::ByteArray(out))
            },
            ExtraValue::Text(t) => Ok(DbusValue::Str(t.clone())),
            ExtraValue::Null => Err(NonConvertableValue(self)),
            ExtraValue::Tag(_, _) => Err(NonConvertableValue(self)),
            ExtraValue::Array(items) => {
                let mut out: Vec<DbusValue> = Vec::new();
                let mut i: usize = 0;
                while i < items.len()
                    invariant
                        i <= items@.len(),
                        forall|j: int| 0 <= j < items@.len() ==> decreases_to!(*self => items@[j]),
                        out@.len() == dbus_items(items@, i as int).len(),
                        forall|j: int|
                            0 <= j < out@.len() ==> (#[trigger] out@[j]).model() == dbus_items(
                                items@,
                                i as int,
                            )[j],
                    decreases items@.len() - i,
                {
                    match items[i].try_into_dbus_lossy() {
                        Ok(d) => {
                            out.push(d);
                        },
                        Err(_) => {},
                    }
                    i = i + 1;
                }
                let res = DbusValue::Array(out);
                assert(res.model()->Array_0 =~= dbus_items(items@, items@.len() as int));
                Ok(res)
            },
            ExtraValue::Mapping(m) => {
                let mut out: Vec<(DbusValue, DbusValue)> = Vec::new();
                let mut i: usize = 0;
                while i < m.entries.len()
                    invariant
                        i <= m.entries@.len(),
                        forall|j: int|
                            0 <= j < m.entries@.len() ==> decreases_to!(*self => m.entries@[j].1),
                        out@.len() == dbus_entries(m.entries@, i as int).len(),
                        forall|j: int|
                            0 <= j < out@.len() ==> ((#[trigger] out@[j]).0.model(), out@[j].1.model())
                                == dbus_entries(m.entries@, i as int)[j],
                    decreases m.entries@.len() - i,
                {
                    match m.entries[i].1.try_into_dbus_lossy() {
                        Ok(d) => {
                            out.push((DbusValue::Str(m.entries[i].0.clone()), d));
                        },
                        Err(_) => {},
                    }
                    i = i + 1;
                }
                let res = DbusValue::Dict(out);
                assert(res.model()->Dict_0 =~= dbus_entries(m.entries@, m.entries@.len() as int));
                Ok(res)
            },
        }
    }
}

/// The number that the integer extra value `e` stands for, and whether it is signed; `None`
/// where `e` is no integer.
pub open spec fn extra_integer(e: ExtraModel) -> Option<(int, bool)> {
    match e {
        ExtraModel::I64(v) => Some((v as int, true)),
        ExtraModel::U64(v) => Some((v as int, false)),
        _ => None,
    }
}

/// The number that the integer D-Bus value `d` stands for, and whether its type is signed;
/// `None` where `d` is no integer.
pub open spec fn dbus_integer(d: DbusModel) -> Option<(int, bool)> {
    match d {
        DbusModel::U8(v) => Some((v as int, false)),
        DbusModel::I16(v) => Some((v as int, true)),
        DbusModel::U16(v) => Some((v as int, false)),
        DbusModel::I32(v) => Some((v as int, true)),
        DbusModel::U32(v) => Some((v as int, false)),
        DbusModel::I64(v) => Some((v as int, true)),
        DbusModel::U64(v) => Some((v as int, false)),
        _ => None,
    }
}

/// A D-Bus integer converts to an extra integer of the same number, signed exactly when the
/// D-Bus type is signed.
pub proof fn lemma_dbus_integer_kept(d: DbusModel)
    requires
        dbus_integer(d) is Some,
    ensures
        extra_from_dbus(d) matches Ok(x) && extra_integer(x) == dbus_integer(d),
{
}

/// Publishing an integer extra value gives a D-Bus integer of the same number and signedness.
pub proof fn lemma_extra_integer_published(e: ExtraValue)
    requires
        extra_integer(e.model()) is Some,
    ensures
        dbus_of(e) matches Some(d) && dbus_integer(d) == extra_integer(e.model()),
{
}

/// Publishing bytes gives a D-Bus byte array that converts back to the array of the same bytes,
/// in their order, as unsigned numbers.
pub proof fn lemma_dbus_bytes(b: Vec<u8>)
    ensures
        dbus_of(ExtraValue::Bytes(b)) matches Some(d) && extra_from_dbus(d) matches Ok(
            ExtraModel::Array(s),
        ) && s.len() == b@.len() && forall|i: int|
            0 <= i < s.len() ==> extra_integer(#[trigger] s[i]) == Some((b@[i] as int, false)),
{
}

/// A D-Bus value held in a variant converts as the value itself.
pub proof fn lemma_dbus_variant(d: DbusModel)
    ensures
        extra_from_dbus(DbusModel::Value(Box::new(d))) == extra_from_dbus(d),
{
}

/// Null and tagged values have no D-Bus form; every other kind of extra value has one.
pub proof fn lemma_dbus_published_kinds(e: ExtraValue)
    ensures
        dbus_of(e) is None <==> (e is Null || e is Tag),
{
}

/// Whether the extra value `e` holds, at every depth, no null, tag or bytes: the values that
/// publishing on D-Bus neither drops nor turns into another kind.
pub open spec fn dbus_plain(e: ExtraValue) -> bool
    decreases e,
{
    match e {
        ExtraValue::Null => false,
        ExtraValue::Tag(_, _) => false,
        ExtraValue::Bytes(_) => false,
        ExtraValue::Array(v) => forall|i: int| 0 <= i < v@.len() ==> dbus_plain(#[trigger] v@[i]),
        ExtraValue::Mapping(m) => forall|i: int|
            0 <= i < m.entries@.len() ==> dbus_plain(#[trigger] m.entries@[i].1),
        _ => true,
    }
}

/// Each key of the entries `t` with the model of the value of its last entry.
spec fn entries_models(t: Seq<(String, ExtraValue)>) -> Map<Seq<char>, ExtraModel> {
    Map::new(|k: Seq<char>| key_index(t, k) >= 0, |k: Seq<char>| t[key_index(t, k)].1.model())
}

proof fn lemma_items_roundtrip(s: Seq<ExtraValue>, n: int)
    requires
        0 <= n <= s.len(),
        forall|i: int| 0 <= i < n ==> dbus_plain(#[trigger] s[i]),
    ensures
        extras_from_dbus(dbus_items(s, n)) == Ok::<Seq<ExtraModel>, ExtraValueConversionError>(
            s.take(n).map_values(|x: ExtraValue| x.model()),
        ),
    decreases s, 0int, n,
{
    if n == 0 {
        assert(s.take(0).map_values(|x: ExtraValue| x.model()) =~= Seq::<ExtraModel>::empty());
    } else {
        lemma_items_roundtrip(s, n - 1);
        lemma_dbus_roundtrip(s[n - 1]);
        let r = dbus_items(s, n - 1);
        let d = dbus_of(s[n - 1])->Some_0;
        assert(dbus_items(s, n) == r.push(d));
        assert(r.push(d).drop_last() =~= r);
        assert(s.take(n).map_values(|x: ExtraValue| x.model()) =~= s.take(n - 1).map_values(
            |x: ExtraValue| x.model(),
        ).push(s[n - 1].model()));
    }
}

proof fn lemma_entries_roundtrip(e: Seq<(String, ExtraValue)>, n: int)
    requires
        0 <= n <= e.len(),
        forall|i: int| 0 <= i < n ==> dbus_plain(#[trigger] e[i].1),
    ensures
        extra_map_from_dbus(dbus_entries(e, n)) == Ok::<
            Map<Seq<char>, ExtraModel>,
            ExtraValueConversionError,
        >(entries_models(e.take(n))),
    decreases e, 0int, n,
{
    if n == 0 {
        assert(entries_models(e.take(0)) =~= Map::<Seq<char>, ExtraModel>::empty());
    } else {
        lemma_entries_roundtrip(e, n - 1);
        lemma_dbus_roundtrip(e[n - 1].1);
        let r = dbus_entries(e, n - 1);
        let d = dbus_of(e[n - 1].1)->Some_0;
        let q = (DbusModel::Str(e[n - 1].0@), d);
        assert(dbus_entries(e, n) == r.push(q));
        assert(r.push(q).drop_last() =~= r);
        let t = e.take(n - 1);
        let u = e.take(n);
        assert(u.drop_last() =~= t);
        assert(u.last() == e[n - 1]);
        let want = entries_models(t).insert(e[n - 1].0@, e[n - 1].1.model());
        assert forall|k: Seq<char>| #[trigger] entries_models(u).contains_key(k) == want.contains_key(
            k,
        ) && (want.contains_key(k) ==> entries_models(u)[k] == want[k]) by {
            lemma_key_index(t, k);
        }
        assert(entries_models(u) =~= want);
    }
}

/// Publishing keeps values: where an extra value holds no null, tag or bytes at any depth, it has
/// a D-Bus form, and converting that form back gives the value again.
pub proof fn lemma_dbus_roundtrip(e: ExtraValue)
    requires
        dbus_plain(e),
    ensures
        dbus_of(e) matches Some(d) && extra_from_dbus(d) == Ok::<
            ExtraModel,
            ExtraValueConversionError,
        >(e.model()),
    decreases e, 1int, 0int,
{
    match e {
        ExtraValue::Array(v) => {
            assert forall|i: int| 0 <= i < v@.len() implies dbus_plain(#[trigger] v@[i]) by {}
            lemma_items_roundtrip(v@, v@.len() as int);
            assert(v@.take(v@.len() as int) =~= v@);
            assert(v@.map_values(|x: ExtraValue| x.model()) =~= e.model()->Array_0);
        },
        ExtraValue::Mapping(m) => {
            let t = m.entries@;
            assert forall|i: int| 0 <= i < t.len() implies dbus_plain(#[trigger] t[i].1) by {}
            lemma_entries_roundtrip(t, t.len() as int);
            assert(t.take(t.len() as int) =~= t);
            assert forall|k: Seq<char>| #[trigger] entries_models(t).contains_key(k)
                == e.model()->Mapping_0.contains_key(k) && (entries_models(t).contains_key(k)
                ==> entries_models(t)[k] == e.model()->Mapping_0[k]) by {
                lemma_key_index(t, k);
            }
            assert(entries_models(t) =~= e.model()->Mapping_0);
        },
        _ => {},
    }
}

} // verus!
