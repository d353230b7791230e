//! TOH info: what the memory chip of a TOH tells of it.
//!
//! The payload of the chip content is a CBOR map from text keys to values. The known keys are
//! `SC` (schema version), `SN` (serial number), `VN` (vendor name), `PN` (product name), `VS`
//! (vendor website), `PS` (product website), `PO` (leave power on) and `PI` (power input from
//! TOH); all other keys are kept as extra values.

use crate::errors::{CBORParsingError, ExtraValueConversionError};
use crate::cbor::{cbor_payload, decode_cbor, decoded_model, entries_model};
use crate::frame::{framed, pack, unpack, unpack_spec, Frame, FrameError, FrameFault, FrameModel};
use crate::text::texts;
use crate::strmap::{compare_keys, key_index, lemma_key_index, KeyOrder, StrMap};
use crate::value::{
    canonical, cbor_of, extra_from_cbor, lemma_cbor_roundtrip, map_model, CborModel, CborValue,
    ExtraModel, ExtraValue,
};
use core::num::TryFromIntError;
use vstd::prelude::*;

verus! {

/// Key of the schema version.
pub open spec fn key_sc() -> Seq<char> {
    seq!['S', 'C']
}

/// Key of the serial number.
pub open spec fn key_sn() -> Seq<char> {
    seq!['S', 'N']
}

/// Key of the vendor name.
pub open spec fn key_vn() -> Seq<char> {
    seq!['V', 'N']
}

/// Key of the product name.
pub open spec fn key_pn() -> Seq<char> {
    seq!['P', 'N']
}

/// Key of the vendor website.
pub open spec fn key_vs() -> Seq<char> {
    seq!['V', 'S']
}

/// Key of the product website.
pub open spec fn key_ps() -> Seq<char> {
    seq!['P', 'S']
}

/// Key of the leave-power-on flag.
pub open spec fn key_po() -> Seq<char> {
    seq!['P', 'O']
}

/// Key of the power-input-from-TOH flag.
pub open spec fn key_pi() -> Seq<char> {
    seq!['P', 'I']
}

/// Position of `k` among the known keys SC, SN, VN, PN, VS, PS, PO and PI, or 8 for any other
/// key.
pub open spec fn known_index(k: Seq<char>) -> int {
    if k == key_sc() {
        0
    } else if k == key_sn() {
        1
    } else if k == key_vn() {
        2
    } else if k == key_pn() {
        3
    } else if k == key_vs() {
        4
    } else if k == key_ps() {
        5
    } else if k == key_po() {
        6
    } else if k == key_pi() {
        7
    } else {
        8
    }
}

/// Whether `k` is one of the known keys.
pub open spec fn is_known_key(k: Seq<char>) -> bool {
    known_index(k) < 8
}

/// Finds the position of `k` among the known keys.
fn known_key_index(k: &str) -> (res: u8)
    ensures
        res == known_index(k@),
{
    proof {
        reveal_strlit("SC");
        reveal_strlit("SN");
        reveal_strlit("VN");
        reveal_strlit("PN");
        reveal_strlit("VS");
        reveal_strlit("PS");
        reveal_strlit("PO");
        reveal_strlit("PI");
        assert("SC"@ =~= key_sc());
        assert("SN"@ =~= key_sn());
        assert("VN"@ =~= key_vn());
        assert("PN"@ =~= key_pn());
        assert("VS"@ =~= key_vs());
        assert("PS"@ =~= key_ps());
        assert("PO"@ =~= key_po());
        assert("PI"@ =~= key_pi());
    }
    let keys: [&str; 8] = ["SC", "SN", "VN", "PN", "VS", "PS", "PO", "PI"];
    let mut i: usize = 0;
    while i < 8
        invariant
            i <= 8,
            keys@ == seq!["SC", "SN", "VN", "PN", "VS", "PS", "PO", "PI"],
            known_index(k@) >= i,
            "SC"@ == key_sc(),
            "SN"@ == key_sn(),
            "VN"@ == key_vn(),
            "PN"@ == key_pn(),
            "VS"@ == key_vs(),
            "PS"@ == key_ps(),
            "PO"@ == key_po(),
            "PI"@ == key_pi(),
        decreases 8 - i,
    {
        if compare_keys(k, keys[i]) == KeyOrder::Equal {
            return i as u8;
        }
        i = i + 1;
    }
    8
}

/// The model of the value in `o`, if any.
pub open spec fn opt_model(o: Option<CborValue>) -> Option<CborModel> {
    match o {
        Some(v) => Some(v.model()),
        None => None,
    }
}

/// The model of the value of the last entry of `e` with key `k`, if there is one.
pub open spec fn lookup(e: Seq<(String, CborValue)>, k: Seq<char>) -> Option<CborModel> {
    let i = key_index(e, k);
    if 0 <= i {
        Some(e[i].1.model())
    } else {
        None
    }
}

/// The entries of `e` whose keys are not known keys, in their order.
pub open spec fn unknown_entries(e: Seq<(String, CborValue)>) -> Seq<(String, CborValue)>
    decreases e.len(),
{
    if e.len() == 0 {
        Seq::empty()
    } else if is_known_key(e.last().0@) {
        unknown_entries(e.drop_last())
    } else {
        unknown_entries(e.drop_last()).push(e.last())
    }
}

/// The extra values that the entries `s` convert to, or the error of the first entry whose value
/// does not convert. Where a key occurs more than once, the last entry with it wins.
pub open spec fn convert_extras(s: Seq<(String, CborValue)>) -> Result<
    Map<Seq<char>, ExtraModel>,
    ExtraValueConversionError,
>
    decreases s.len(),
{
    if s.len() == 0 {
        Ok(Map::empty())
    } else {
        match convert_extras(s.drop_last()) {
            Err(x) => Err(x),
            Ok(m) => match extra_from_cbor(s.last().1.model()) {
                Ok(v) => Ok(m.insert(s.last().0@, v)),
                Err(x) => Err(x),
            },
        }
    }
}

/// Why a payload does not make TOH info.
pub enum PayloadFault {
    /// A known key has a value of the wrong type.
    WrongType(CborModel),
    /// The schema version does not fit in a byte.
    OutOfBounds,
    /// An extra value does not convert.
    Unsupported(ExtraValueConversionError),
}

/// The schema version that the value `o` of key SC gives.
pub open spec fn schema_of(o: Option<CborModel>) -> Result<Option<u8>, PayloadFault> {
    match o {
        None => Ok(None),
        Some(CborModel::Integer(v)) => if 0 <= v <= 255 {
            Ok(Some(v as u8))
        } else {
            Err(PayloadFault::OutOfBounds)
        },
        Some(c) => Err(PayloadFault::WrongType(c)),
    }
}

/// The text that the value `o` of a text key gives.
pub open spec fn text_of(o: Option<CborModel>) -> Result<Option<Seq<char>>, PayloadFault> {
    match o {
        None => Ok(None),
        Some(CborModel::Text(t)) => Ok(Some(t)),
        Some(c) => Err(PayloadFault::WrongType(c)),
    }
}

/// The flag that the value `o` of a boolean key gives.
pub open spec fn bool_of(o: Option<CborModel>) -> Result<Option<bool>, PayloadFault> {
    match o {
        None => Ok(None),
        Some(CborModel::Bool(b)) => Ok(Some(b)),
        Some(c) => Err(PayloadFault::WrongType(c)),
    }
}

/// Mathematical form of [`Info`].
pub struct InfoModel {
    pub vendor_id: u16,
    pub product_id: u16,
    pub schema_version: Option<u8>,
    pub serial_number: Option<Seq<char>>,
    pub vendor_name: Option<Seq<char>>,
    pub product_name: Option<Seq<char>>,
    pub vendor_website: Option<Seq<char>>,
    pub product_website: Option<Seq<char>>,
    pub leave_power_on: Option<bool>,
    pub power_input_toh: Option<bool>,
    pub extra: Map<Seq<char>, ExtraModel>,
}

/// The TOH info that the payload entries `e` give for `vendor_id` and `product_id`, or why they
/// give none. The known keys are checked in the order SC, SN, VN, PN, VS, PS, PO, PI; then the
/// values of the other keys are converted, in the order of the entries.
pub open spec fn info_from_payload(vendor_id: u16, product_id: u16, e: Seq<(String, CborValue)>) -> Result<
    InfoModel,
    PayloadFault,
> {
    let sc = schema_of(lookup(e, key_sc()));
    let sn = text_of(lookup(e, key_sn()));
    let vn = text_of(lookup(e, key_vn()));
    let pn = text_of(lookup(e, key_pn()));
    let vs = text_of(lookup(e, key_vs()));
    let ps = text_of(lookup(e, key_ps()));
    let po = bool_of(lookup(e, key_po()));
    let pi = bool_of(lookup(e, key_pi()));
    let extra = convert_extras(unknown_entries(e));
    if sc is Err {
        Err(sc->Err_0)
    } else if sn is Err {
        Err(sn->Err_0)
    } else if vn is Err {
        Err(vn->Err_0)
    } else if pn is Err {
        Err(pn->Err_0)
    } else if vs is Err {
        Err(vs->Err_0)
    } else if ps is Err {
        Err(ps->Err_0)
    } else if po is Err {
        Err(po->Err_0)
    } else if pi is Err {
        Err(pi->Err_0)
    } else if extra is Err {
        Err(PayloadFault::Unsupported(extra->Err_0))
    } else {
        Ok(
            InfoModel {
                vendor_id,
                product_id,
                schema_version: sc->Ok_0,
                serial_number: sn->Ok_0,
                vendor_name: vn->Ok_0,
                product_name: pn->Ok_0,
                vendor_website: vs->Ok_0,
                product_website: ps->Ok_0,
                leave_power_on: po->Ok_0,
                power_input_toh: pi->Ok_0,
                extra: extra->Ok_0,
            },
        )
    }
}

/// Position of the last entry of `s` with key `k`, or -1 where there is none.
pub open spec fn entry_index(s: Seq<(Seq<char>, CborModel)>, k: Seq<char>) -> int
    decreases s.len(),
{
    if s.len() == 0 {
        -1
    } else if s.last().0 == k {
        s.len() - 1
    } else {
        entry_index(s.drop_last(), k)
    }
}

/// The item of the last entry of `s` with key `k`, if there is one.
pub open spec fn item_at(s: Seq<(Seq<char>, CborModel)>, k: Seq<char>) -> Option<CborModel> {
    let i = entry_index(s, k);
    if 0 <= i {
        Some(s[i].1)
    } else {
        None
    }
}

/// The entries of `s` whose keys are not known keys, in their order.
pub open spec fn other_entries(s: Seq<(Seq<char>, CborModel)>) -> Seq<(Seq<char>, CborModel)>
    decreases s.len(),
{
    if s.len() == 0 {
        Seq::empty()
    } else if is_known_key(s.last().0) {
        other_entries(s.drop_last())
    } else {
        other_entries(s.drop_last()).push(s.last())
    }
}

/// The extra values that the entries `s` convert to, or the error of the first entry whose item
/// does not convert. Where a key occurs more than once, the last entry with it wins.
pub open spec fn extras_of(s: Seq<(Seq<char>, CborModel)>) -> Result<
    Map<Seq<char>, ExtraModel>,
    ExtraValueConversionError,
>
    decreases s.len(),
{
    if s.len() == 0 {
        Ok(Map::empty())
    } else {
        match extras_of(s.drop_last()) {
            Err(x) => Err(x),
            Ok(m) => match extra_from_cbor(s.last().1) {
                Ok(v) => Ok(m.insert(s.last().0, v)),
                Err(x) => Err(x),
            },
        }
    }
}

/// The TOH info that the payload entries `s` (keys with item models) give for `vendor_id` and
/// `product_id`, or why they give none. The known keys are checked in the order SC, SN, VN, PN,
/// VS, PS, PO, PI; then the items of the other keys are converted, in the order of the entries.
pub open spec fn payload_info(vendor_id: u16, product_id: u16, s: Seq<(Seq<char>, CborModel)>) -> Result<
    InfoModel,
    PayloadFault,
> {
    let sc = schema_of(item_at(s, key_sc()));
    let sn = text_of(item_at(s, key_sn()));
    let vn = text_of(item_at(s, key_vn()));
    let pn = text_of(item_at(s, key_pn()));
    let vs = text_of(item_at(s, key_vs()));
    let ps = text_of(item_at(s, key_ps()));
    let po = bool_of(item_at(s, key_po()));
    let pi = bool_of(item_at(s, key_pi()));
    let extra = extras_of(other_entries(s));
    if sc is Err {
        Err(sc->Err_0)
    } else if sn is Err {
        Err(sn->Err_0)
    } else if vn is Err {
        Err(vn->Err_0)
    } else if pn is Err {
        Err(pn->Err_0)
    } else if vs is Err {
        Err(vs->Err_0)
    } else if ps is Err {
        Err(ps->Err_0)
    } else if po is Err {
        Err(po->Err_0)
    } else if pi is Err {
        Err(pi->Err_0)
    } else if extra is Err {
        Err(PayloadFault::Unsupported(extra->Err_0))
    } else {
        Ok(
            InfoModel {
                vendor_id,
                product_id,
                schema_version: sc->Ok_0,
                serial_number: sn->Ok_0,
                vendor_name: vn->Ok_0,
                product_name: pn->Ok_0,
                vendor_website: vs->Ok_0,
                product_website: ps->Ok_0,
                leave_power_on: po->Ok_0,
                power_input_toh: pi->Ok_0,
                extra: extra->Ok_0,
            },
        )
    }
}

proof fn lemma_entries_model_push(e: Seq<(String, CborValue)>, p: (String, CborValue))
    ensures
        entries_model(e.push(p)) == entries_model(e).push((p.0@, p.1.model())),
{
    assert(entries_model(e.push(p)) =~= entries_model(e).push((p.0@, p.1.model())));
}

proof fn lemma_entries_model_drop_last(e: Seq<(String, CborValue)>)
    requires
        e.len() > 0,
    ensures
        entries_model(e.drop_last()) == entries_model(e).drop_last(),
        entries_model(e).last() == (e.last().0@, e.last().1.model()),
{
    assert(entries_model(e.drop_last()) =~= entries_model(e).drop_last());
}

proof fn lemma_index_model(e: Seq<(String, CborValue)>, k: Seq<char>)
    ensures
        key_index(e, k) == entry_index(entries_model(e), k),
    decreases e.len(),
{
    if e.len() > 0 {
        lemma_entries_model_drop_last(e);
        lemma_index_model(e.drop_last(), k);
    }
}

proof fn lemma_other_model(e: Seq<(String, CborValue)>)
    ensures
        entries_model(unknown_entries(e)) == other_entries(entries_model(e)),
    decreases e.len(),
{
    if e.len() > 0 {
        lemma_entries_model_drop_last(e);
        lemma_other_model(e.drop_last());
        lemma_entries_model_push(unknown_entries(e.drop_last()), e.last());
    } else {
        assert(entries_model(unknown_entries(e)) =~= Seq::empty());
    }
}

proof fn lemma_extras_model(e: Seq<(String, CborValue)>)
    ensures
        convert_extras(e) == extras_of(entries_model(e)),
    decreases e.len(),
{
    if e.len() > 0 {
        lemma_entries_model_drop_last(e);
        lemma_extras_model(e.drop_last());
    }
}

/// The payload rules read over the keys and item models of the entries.
proof fn lemma_info_model(vendor_id: u16, product_id: u16, e: Seq<(String, CborValue)>)
    ensures
        info_from_payload(vendor_id, product_id, e) == payload_info(
            vendor_id,
            product_id,
            entries_model(e),
        ),
{
    let s = entries_model(e);
    assert forall|k: Seq<char>| lookup(e, k) == #[trigger] item_at(s, k) by {
        lemma_index_model(e, k);
        lemma_key_index(e, k);
    }
    lemma_other_model(e);
    lemma_extras_model(unknown_entries(e));
    assert(lookup(e, key_sc()) == item_at(s, key_sc()));
    assert(lookup(e, key_sn()) == item_at(s, key_sn()));
    assert(lookup(e, key_vn()) == item_at(s, key_vn()));
    assert(lookup(e, key_pn()) == item_at(s, key_pn()));
    assert(lookup(e, key_vs()) == item_at(s, key_vs()));
    assert(lookup(e, key_ps()) == item_at(s, key_ps()));
    assert(lookup(e, key_po()) == item_at(s, key_po()));
    assert(lookup(e, key_pi()) == item_at(s, key_pi()));
}

/// Parsing of memory chip content failed.
#[derive(Debug)]
pub enum ParseError {
    /// Magic was not correct.
    BadMagic(crate::errors::WrongMagicError),
    /// Checksum was not correct.
    BadChecksum(crate::errors::ChecksumError),
    /// There is not enough data to parse header or payload.
    NotEnoughData(crate::errors::MissingDataError),
    /// Payload did not parse correctly.
    PayloadParsingError(CBORParsingError),
    /// Payload had wrong type for a known key.
    PayloadWrongType(CborValue),
    /// Payload integer value out of bounds for a known key.
    PayloadOutOfBoundsInteger(TryFromIntError),
    /// Payload unsupported value or type.
    PayloadUnsupportedValue(ExtraValueConversionError),
}

/// Whether `e` is the error for the payload fault `f`.
pub open spec fn is_payload_error(e: ParseError, f: PayloadFault) -> bool {
    match f {
        PayloadFault::WrongType(c) => e matches ParseError::PayloadWrongType(v) && v.model() == c,
        PayloadFault::OutOfBounds => e is PayloadOutOfBoundsInteger,
        PayloadFault::Unsupported(x) => e == ParseError::PayloadUnsupportedValue(x),
    }
}

/// The text of `o`, if any.
pub open spec fn opt_text(o: Option<String>) -> Option<Seq<char>> {
    match o {
        Some(s) => Some(s@),
        None => None,
    }
}

/// TOH memory chip content.
#[derive(Debug, PartialEq)]
pub struct Info {
    pub vendor_id: u16,
    pub product_id: u16,
    pub schema_version: Option<u8>,
    pub serial_number: Option<String>,
    pub vendor_name: Option<String>,
    pub product_name: Option<String>,
    pub vendor_website: Option<String>,
    pub product_website: Option<String>,
    pub leave_power_on: Option<bool>,
    pub power_input_toh: Option<bool>,
    /// Values of the keys that are not known, in key order.
    pub extra: StrMap<ExtraValue>,
}

impl Info {
    /// The mathematical form of the info.
    pub open spec fn model(&self) -> InfoModel {
        InfoModel {
            vendor_id: self.vendor_id,
            product_id: self.product_id,
            schema_version: self.schema_version,
            serial_number: opt_text(self.serial_number),
            vendor_name: opt_text(self.vendor_name),
            product_name: opt_text(self.product_name),
            vendor_website: opt_text(self.vendor_website),
            product_website: opt_text(self.product_website),
            leave_power_on: self.leave_power_on,
            power_input_toh: self.power_input_toh,
            extra: map_model(self.extra),
        }
    }

    /// Whether the extra values are in key order and well formed.
    pub open spec fn wf(&self) -> bool {
        &&& self.extra.wf()
        &&& forall|k: Seq<char>| #[trigger] self.extra@.contains_key(k) ==> self.extra@[k].wf()
    }
}

/// The last entry with a key decides what looking it up gives.
proof fn lemma_lookup_step(e: Seq<(String, CborValue)>, n: int, k: Seq<char>)
    requires
        0 <= n < e.len(),
    ensures
        lookup(e.take(n + 1), k) == if e[n].0@ == k {
            Some(e[n].1.model())
        } else {
            lookup(e.take(n), k)
        },
{
    let q = e.take(n + 1);
    assert(q.drop_last() =~= e.take(n));
    if e[n].0@ != k {
        lemma_key_index(e.take(n), k);
        let i = key_index(e.take(n), k);
        if i >= 0 {
            assert(q[i] == e.take(n)[i]);
        }
    }
}

proof fn lemma_unknown_step(e: Seq<(String, CborValue)>, n: int)
    requires
        0 <= n < e.len(),
    ensures
        unknown_entries(e.take(n + 1)) == if is_known_key(e[n].0@) {
            unknown_entries(e.take(n))
        } else {
            unknown_entries(e.take(n)).push(e[n])
        },
{
    assert(e.take(n + 1).drop_last() =~= e.take(n));
}

/// Takes the schema version out of the value of key SC.
fn take_schema(slot: Option<CborValue>) -> (res: Result<Option<u8>, ParseError>)
    ensures
        match schema_of(opt_model(slot)) {
            Ok(v) => res == Ok::<Option<u8>, ParseError>(v),
            Err(f) => res matches Err(e) && is_payload_error(e, f),
        },
{
    match slot {
        None => Ok(None),
        Some(CborValue::Integer(v)) => match u8::try_from(v) {
            Ok(b) => Ok(Some(b)),
            Err(e) => Err(ParseError::PayloadOutOfBoundsInteger(e)),
        },
        Some(other) => Err(ParseError::PayloadWrongType(other)),
    }
}

/// Takes the text out of the value of a text key.
fn take_text(slot: Option<CborValue>) -> (res: Result<Option<String>, ParseError>)
    ensures
        match text_of(opt_model(slot)) {
            Ok(v) => res matches Ok(t) && opt_text(t) == v,
            Err(f) => res matches Err(e) && is_payload_error(e, f),
        },
{
    match slot {
        None => Ok(None),
        Some(CborValue::Text(t)) => Ok(Some(t)),
        Some(other) => Err(ParseError::PayloadWrongType(other)),
    }
}

/// Takes the flag out of the value of a boolean key.
fn take_bool(slot: Option<CborValue>) -> (res: Result<Option<bool>, ParseError>)
    ensures
        match bool_of(opt_model(slot)) {
            Ok(v) => res == Ok::<Option<bool>, ParseError>(v),
            Err(f) => res matches Err(e) && is_payload_error(e, f),
        },
{
    match slot {
        None => Ok(None),
        Some(CborValue::Bool(b)) => Ok(Some(b)),
        Some(other) => Err(ParseError::PayloadWrongType(other)),
    }
}

proof fn lemma_convert_prefix_err(s: Seq<(String, CborValue)>, n: int)
    requires
        0 <= n <= s.len(),
        convert_extras(s.take(n)) is Err,
    ensures
        convert_extras(s) == convert_extras(s.take(n)),
    decreases s.len(),
{
    if n < s.len() {
        assert(s.drop_last().take(n) =~= s.take(n));
        lemma_convert_prefix_err(s.drop_last(), n);
    } else {
        assert(s.take(n) =~= s);
    }
}

/// Converts the values of `entries` into extra values, in order.
fn convert_unknown(entries: Vec<(String, CborValue)>) -> (res: Result<
    StrMap<ExtraValue>,
    ExtraValueConversionError,
>)
    ensures
        match convert_extras(entries@) {
            Ok(m) => res matches Ok(x) && x.wf() && map_model(x) == m && forall|k: Seq<char>|
                #[trigger] x@.contains_key(k) ==> x@[k].wf(),
            Err(e) => res == Err::<StrMap<ExtraValue>, ExtraValueConversionError>(e),
        },
{
    let ghost orig = entries@;
    let mut rest = entries;
    let mut out: StrMap<ExtraValue> = StrMap::new();
    let mut n: usize = 0;
    let total = rest.len();
    proof {
        assert(orig.take(0) =~= Seq::<(String, CborValue)>::empty());
        assert(map_model(out) =~= Map::<Seq<char>, ExtraModel>::empty());
        assert(rest@ =~= orig.skip(0));
    }
    while rest.len() > 0
        invariant
            orig == entries@,
            orig.len() == total,
            n + rest@.len() == orig.len(),
            rest@ == orig.skip(n as int),
            out.wf(),
            forall|k: Seq<char>| #[trigger] out@.contains_key(k) ==> out@[k].wf(),
            convert_extras(orig.take(n as int)) == Ok::<
                Map<Seq<char>, ExtraModel>,
                ExtraValueConversionError,
            >(map_model(out)),
        decreases rest@.len(),
    {
        let (k, v) = rest.remove(0);
        proof {
            assert(orig[n as int] == (k, v));
            assert(orig.take(n + 1).drop_last() =~= orig.take(n as int));
        }
        match ExtraValue::try_from_cbor(v) {
            Ok(x) => {
                let ghost before = out@;
                out.insert(k, x);
                proof {
                    assert(map_model(out) =~= map_model_of(before).insert(orig[n as int].0@, x.model()));
                }
            },
            Err(e) => {
                proof {
                    assert(orig.take(n + 1).last() == orig[n as int]);
                    assert(convert_extras(orig.take(n + 1)) == Err::<
                        Map<Seq<char>, ExtraModel>,
                        ExtraValueConversionError,
                    >(e));
                    lemma_convert_prefix_err(orig, n + 1);
                    assert(convert_extras(orig) == Err::<
                        Map<Seq<char>, ExtraModel>,
                        ExtraValueConversionError,
                    >(e));
                }
                return Err(e);
            },
        }
        n = n + 1;
        proof {
            assert(rest@ =~= orig.skip(n as int));
        }
    }
    proof {
        assert(orig.take(n as int) =~= orig);
    }
    Ok(out)
}

/// Each key of `m` with the model of its value.
spec fn map_model_of(m: Map<Seq<char>, ExtraValue>) -> Map<Seq<char>, ExtraModel> {
    Map::new(|k: Seq<char>| m.contains_key(k), |k: Seq<char>| m[k].model())
}

impl Info {
    /// Makes TOH info for `vendor_id` and `product_id` out of the entries of the decoded payload
    /// map: the values of the known keys go to their fields and the others become extra values.
    pub fn from_payload(vendor_id: u16, product_id: u16, payload: StrMap<CborValue>) -> (res:
        Result<Info, ParseError>)
        ensures
            match payload_info(vendor_id, product_id, entries_model(payload.entries@)) {
                Ok(m) => res matches Ok(info) && info.model() == m && info.wf(),
                Err(f) => res matches Err(e) && is_payload_error(e, f),
            },
    {
        let ghost orig = payload.entries@;
        proof {
            lemma_info_model(vendor_id, product_id, orig);
        }
        let mut rest = payload.entries;
        let mut sc: Option<CborValue> = None;
        let mut sn: Option<CborValue> = None;
        let mut vn: Option<CborValue> = None;
        let mut pn: Option<CborValue> = None;
        let mut vs: Option<CborValue> = None;
        let mut ps: Option<CborValue> = None;
        let mut po: Option<CborValue> = None;
        let mut pi: Option<CborValue> = None;
        let mut unknown: Vec<(String, CborValue)> = Vec::new();
        let mut n: usize = 0;
        let total = rest.len();
        proof {
            assert(orig.take(0) =~= Seq::<(String, CborValue)>::empty());
            assert(rest@ =~= orig.skip(0));
        }
        while rest.len() > 0
            invariant
                orig.len() == total,
                n + rest@.len() == orig.len(),
                rest@ == orig.skip(n as int),
                opt_model(sc) == lookup(orig.take(n as int), key_sc()),
                opt_model(sn) == lookup(orig.take(n as int), key_sn()),
                opt_model(vn) == lookup(orig.take(n as int), key_vn()),
                opt_model(pn) == lookup(orig.take(n as int), key_pn()),
                opt_model(vs) == lookup(orig.take(n as int), key_vs()),
                opt_model(ps) == lookup(orig.take(n as int), key_ps()),
                opt_model(po) == lookup(orig.take(n as int), key_po()),
                opt_model(pi) == lookup(orig.take(n as int), key_pi()),
                unknown@ == unknown_entries(orig.take(n as int)),
            decreases rest@.len(),
        {
            let (k, v) = rest.remove(0);
            proof {
                let e = orig;
                let i = n as int;
                assert(e[i] == (k, v));
                lemma_lookup_step(e, i, key_sc());
                lemma_lookup_step(e, i, key_sn());
                lemma_lookup_step(e, i, key_vn());
                lemma_lookup_step(e, i, key_pn());
                lemma_lookup_step(e, i, key_vs());
                lemma_lookup_step(e, i, key_ps());
                lemma_lookup_step(e, i, key_po());
                lemma_lookup_step(e, i, key_pi());
                lemma_unknown_step(e, i);
            }
            let idx = known_key_index(k.as_str());
            if idx == 0 {
                sc = Some(v);
            } else if idx == 1 {
                sn = Some(v);
            } else if idx == 2 {
                vn = Some(v);
            } else if idx == 3 {
                pn = Some(v);
            } else if idx == 4 {
                vs = Some(v);
            } else if idx == 5 {
                ps = Some(v);
            } else if idx == 6 {
                po = Some(v);
            } else if idx == 7 {
                pi = Some(v);
            } else {
                unknown.push((k, v));
            }
            n = n + 1;
            proof {
                assert(rest@ =~= orig.skip(n as int));
            }
        }
        proof {
            assert(orig.take(n as int) =~= orig);
        }
        let schema_version = match take_schema(sc) {
            Ok(x) => x,
            Err(e) => return Err(e),
        };
        let serial_number = match take_text(sn) {
            Ok(x) => x,
            Err(e) => return Err(e),
        };
        let vendor_name = match take_text(vn) {
            Ok(x) => x,
            Err(e) => return Err(e),
        };
        let product_name = match take_text(pn) {
            Ok(x) => x,
            Err(e) => return Err(e),
        };
        let vendor_website = match take_text(vs) {
            Ok(x) => x,
            Err(e) => return Err(e),
        };
        let product_website = match take_text(ps) {
            Ok(x) => x,
            Err(e) => return Err(e),
        };
        let leave_power_on = match take_bool(po) {
            Ok(x) => x,
            Err(e) => return Err(e),
        };
        let power_input_toh = match take_bool(pi) {
            Ok(x) => x,
            Err(e) => return Err(e),
        };
        let extra = match convert_unknown(unknown) {
            Ok(x) => x,
            Err(e) => return Err(ParseError::PayloadUnsupportedValue(e)),
        };
        let info = Info {
            vendor_id,
            product_id,
            schema_version,
            serial_number,
            vendor_name,
            product_name,
            vendor_website,
            product_website,
            leave_power_on,
            power_input_toh,
            extra,
        };
        assert(info.model() == info_from_payload(vendor_id, product_id, orig)->Ok_0);
        Ok(info)
    }
}

/// `p` with the text `o`, if any, at key `k`.
pub open spec fn put_text(p: Map<Seq<char>, CborModel>, k: Seq<char>, o: Option<Seq<char>>) -> Map<
    Seq<char>,
    CborModel,
> {
    match o {
        Some(t) => p.insert(k, CborModel::Text(t)),
        None => p,
    }
}

/// `p` with the flag `o`, if any, at key `k`.
pub open spec fn put_bool(p: Map<Seq<char>, CborModel>, k: Seq<char>, o: Option<bool>) -> Map<
    Seq<char>,
    CborModel,
> {
    match o {
        Some(b) => p.insert(k, CborModel::Bool(b)),
        None => p,
    }
}

/// Whether any known field of `m` but the schema version is set.
pub open spec fn has_known_fields(m: InfoModel) -> bool {
    ||| m.serial_number is Some
    ||| m.vendor_name is Some
    ||| m.product_name is Some
    ||| m.vendor_website is Some
    ||| m.product_website is Some
    ||| m.leave_power_on is Some
    ||| m.power_input_toh is Some
}

/// The payload entries of the known fields of `m`: each field that is set, and schema version
/// zero (the only schema there is) where any is set. A schema version in `m` is not written.
pub open spec fn known_payload(m: InfoModel) -> Map<Seq<char>, CborModel> {
    let p = put_text(Map::empty(), key_sn(), m.serial_number);
    let p = put_text(p, key_vn(), m.vendor_name);
    let p = put_text(p, key_pn(), m.product_name);
    let p = put_text(p, key_vs(), m.vendor_website);
    let p = put_text(p, key_ps(), m.product_website);
    let p = put_bool(p, key_po(), m.leave_power_on);
    let p = put_bool(p, key_pi(), m.power_input_toh);
    if has_known_fields(m) {
        p.insert(key_sc(), CborModel::Integer(0))
    } else {
        p
    }
}

/// The CBOR items that the extra values of `info` are written as, by key.
pub open spec fn extra_payload(info: Info) -> Map<Seq<char>, CborModel> {
    Map::new(|k: Seq<char>| info.extra@.contains_key(k), |k: Seq<char>| cbor_of(info.extra@[k]))
}

/// The payload of `info`: the known fields, and the extra values where `include_extra` is set,
/// which replace known fields of the same keys.
pub open spec fn payload_of(info: Info, include_extra: bool) -> Map<Seq<char>, CborModel> {
    if include_extra {
        known_payload(info.model()).union_prefer_right(extra_payload(info))
    } else {
        known_payload(info.model())
    }
}

/// Each key of the payload map `p` with the model of its value.
pub open spec fn payload_model(p: StrMap<CborValue>) -> Map<Seq<char>, CborModel> {
    Map::new(|k: Seq<char>| p@.contains_key(k), |k: Seq<char>| p@[k].model())
}

/// The CBOR items of the extra entries `e`, by key, the last entry with a key winning.
spec fn extra_prefix(e: Seq<(String, ExtraValue)>) -> Map<Seq<char>, CborModel> {
    Map::new(|k: Seq<char>| key_index(e, k) >= 0, |k: Seq<char>| cbor_of(e[key_index(e, k)].1))
}

proof fn lemma_extra_prefix_step(e: Seq<(String, ExtraValue)>, n: int)
    requires
        0 <= n < e.len(),
    ensures
        extra_prefix(e.take(n + 1)) == extra_prefix(e.take(n)).insert(e[n].0@, cbor_of(e[n].1)),
{
    let p = e.take(n);
    let q = e.take(n + 1);
    assert(q.drop_last() =~= p);
    let m = extra_prefix(p).insert(e[n].0@, cbor_of(e[n].1));
    assert forall|k: Seq<char>| #[trigger] extra_prefix(q).contains_key(k) == m.contains_key(k) && (
    m.contains_key(k) ==> extra_prefix(q)[k] == m[k]) by {
        lemma_key_index(p, k);
        if k != e[n].0@ {
            let i = key_index(p, k);
            if i >= 0 {
                assert(q[i] == p[i]);
            }
        }
    }
    assert(extra_prefix(q) =~= m);
}

/// Puts the text `o`, if any, at `key` of the payload map `p`.
fn put_text_field(p: &mut StrMap<CborValue>, key: &str, o: &Option<String>)
    requires
        old(p).wf(),
    ensures
        final(p).wf(),
        payload_model(*final(p)) == put_text(payload_model(*old(p)), key@, opt_text(*o)),
{
    if let Some(t) = o {
        p.insert(String::from_str(key), CborValue::Text(t.clone()));
        assert(payload_model(*p) =~= put_text(payload_model(*old(p)), key@, opt_text(*o)));
    }
}

/// Puts the flag `o`, if any, at `key` of the payload map `p`.
fn put_bool_field(p: &mut StrMap<CborValue>, key: &str, o: Option<bool>)
    requires
        old(p).wf(),
    ensures
        final(p).wf(),
        payload_model(*final(p)) == put_bool(payload_model(*old(p)), key@, o),
{
    if let Some(b) = o {
        p.insert(String::from_str(key), CborValue::Bool(b));
        assert(payload_model(*p) =~= put_bool(payload_model(*old(p)), key@, o));
    }
}

impl Info {
    /// Returns the payload content: the known fields and, where `include_extra` is set, the extra
    /// values.
    pub fn get_payload(&self, include_extra: bool) -> (res: StrMap<CborValue>)
        ensures
            res.wf(),
            payload_model(res) == payload_of(*self, include_extra),
    {
        proof {
            reveal_strlit("SC");
            reveal_strlit("SN");
            reveal_strlit("VN");
            reveal_strlit("PN");
            reveal_strlit("VS");
            reveal_strlit("PS");
            reveal_strlit("PO");
            reveal_strlit("PI");
            assert("SC"@ =~= key_sc());
            assert("SN"@ =~= key_sn());
            assert("VN"@ =~= key_vn());
            assert("PN"@ =~= key_pn());
            assert("VS"@ =~= key_vs());
            assert("PS"@ =~= key_ps());
            assert("PO"@ =~= key_po());
            assert("PI"@ =~= key_pi());
        }
        let mut payload: StrMap<CborValue> = StrMap::new();
        proof {
            assert(payload_model(payload) =~= Map::<Seq<char>, CborModel>::empty());
        }
        put_text_field(&mut payload, "SN", &self.serial_number);
        put_text_field(&mut payload, "VN", &self.vendor_name);
        put_text_field(&mut payload, "PN", &self.product_name);
        put_text_field(&mut payload, "VS", &self.vendor_website);
        put_text_field(&mut payload, "PS", &self.product_website);
        put_bool_field(&mut payload, "PO", self.leave_power_on);
        put_bool_field(&mut payload, "PI", self.power_input_toh);
        let ghost m = self.model();
        proof {
            if has_known_fields(m) {
                if m.serial_number is Some {
                    assert(payload_model(payload).contains_key(key_sn()));
                } else if m.vendor_name is Some {
                    assert(payload_model(payload).contains_key(key_vn()));
                } else if m.product_name is Some {
                    assert(payload_model(payload).contains_key(key_pn()));
                } else if m.vendor_website is Some {
                    assert(payload_model(payload).contains_key(key_vs()));
                } else if m.product_website is Some {
                    assert(payload_model(payload).contains_key(key_ps()));
                } else if m.leave_power_on is Some {
                    assert(payload_model(payload).contains_key(key_po()));
                } else {
                    assert(payload_model(payload).contains_key(key_pi()));
                }
            } else {
                assert(payload@ =~= Map::<Seq<char>, CborValue>::empty());
            }
        }
        if !payload.is_empty() {
            let ghost before = payload_model(payload);
            payload.insert(String::from_str("SC"), CborValue::Integer(0));
            assert(payload_model(payload) =~= before.insert(key_sc(), CborModel::Integer(0)));
        }
        assert(payload_model(payload) == known_payload(m));
        if include_extra {
            let ghost base = payload_model(payload);
            let ghost e = self.extra.entries@;
            let mut i: usize = 0;
            proof {
                assert(e.take(0) =~= Seq::<(String, ExtraValue)>::empty());
                assert(base.union_prefer_right(extra_prefix(e.take(0))) =~= base);
            }
            while i < self.extra.entries.len()
                invariant
                    e == self.extra.entries@,
                    i <= e.len(),
                    payload.wf(),
                    payload_model(payload) == base.union_prefer_right(extra_prefix(e.take(i as int))),
                decreases e.len() - i,
            {
                let key = self.extra.entries[i].0.clone();
                let value = self.extra.entries[i].1.to_cbor();
                let ghost before = payload_model(payload);
                payload.insert(key, value);
                proof {
                    lemma_extra_prefix_step(e, i as int);
                    assert(payload_model(payload) =~= before.insert(e[i as int].0@, cbor_of(e[i as int].1)));
                    assert(base.union_prefer_right(extra_prefix(e.take(i + 1))) =~= base.union_prefer_right(
                        extra_prefix(e.take(i as int)),
                    ).insert(e[i as int].0@, cbor_of(e[i as int].1)));
                }
                i = i + 1;
            }
            proof {
                assert(e.take(i as int) =~= e);
                assert(extra_prefix(e) =~= extra_payload(*self));
            }
        }
        payload
    }
}

/// The entries of `e` whose keys are not known keys are found by key as in `e`.
proof fn lemma_unknown_index(e: Seq<(String, CborValue)>, k: Seq<char>)
    ensures
        is_known_key(k) ==> key_index(unknown_entries(e), k) == -1,
        !is_known_key(k) ==> (key_index(unknown_entries(e), k) >= 0 <==> key_index(e, k) >= 0),
        !is_known_key(k) && key_index(e, k) >= 0 ==> unknown_entries(e)[key_index(
            unknown_entries(e),
            k,
        )] == e[key_index(e, k)],
    decreases e.len(),
{
    if e.len() > 0 {
        let d = e.drop_last();
        lemma_unknown_index(d, k);
        lemma_key_index(e, k);
        lemma_key_index(d, k);
        lemma_key_index(unknown_entries(d), k);
        let u = unknown_entries(d);
        if !is_known_key(e.last().0@) {
            let u2 = u.push(e.last());
            assert(u2.drop_last() =~= u);
            if e.last().0@ != k {
                let j = key_index(u, k);
                if j >= 0 {
                    assert(u2[j] == u[j]);
                }
            }
        }
        if e.last().0@ != k {
            let i = key_index(d, k);
            if i >= 0 {
                assert(e[i] == d[i]);
            }
        }
    }
}

/// Entries whose values all convert give the map of the converted values, the last entry with a
/// key winning.
proof fn lemma_convert_all(s: Seq<(String, CborValue)>)
    requires
        forall|i: int| 0 <= i < s.len() ==> (#[trigger] extra_from_cbor(s[i].1.model())) is Ok,
    ensures
        convert_extras(s) == Ok::<Map<Seq<char>, ExtraModel>, ExtraValueConversionError>(
            Map::new(
                |k: Seq<char>| key_index(s, k) >= 0,
                |k: Seq<char>| extra_from_cbor(s[key_index(s, k)].1.model())->Ok_0,
            ),
        ),
    decreases s.len(),
{
    if s.len() == 0 {
        assert(Map::new(
            |k: Seq<char>| key_index(s, k) >= 0,
            |k: Seq<char>| extra_from_cbor(s[key_index(s, k)].1.model())->Ok_0,
        ) =~= Map::<Seq<char>, ExtraModel>::empty());
    } else {
        let d = s.drop_last();
        assert forall|i: int| 0 <= i < d.len() implies (#[trigger] extra_from_cbor(
            d[i].1.model(),
        )) is Ok by {
            assert(d[i] == s[i]);
            assert(extra_from_cbor(s[i].1.model()) is Ok);
        }
        lemma_convert_all(d);
        assert(extra_from_cbor(s[s.len() - 1].1.model()) is Ok);
        let m = Map::new(
            |k: Seq<char>| key_index(d, k) >= 0,
            |k: Seq<char>| extra_from_cbor(d[key_index(d, k)].1.model())->Ok_0,
        );
        let want = Map::new(
            |k: Seq<char>| key_index(s, k) >= 0,
            |k: Seq<char>| extra_from_cbor(s[key_index(s, k)].1.model())->Ok_0,
        );
        assert forall|k: Seq<char>| #[trigger] want.contains_key(k) == m.insert(
            s.last().0@,
            extra_from_cbor(s.last().1.model())->Ok_0,
        ).contains_key(k) && (want.contains_key(k) ==> want[k] == m.insert(
            s.last().0@,
            extra_from_cbor(s.last().1.model())->Ok_0,
        )[k]) by {
            lemma_key_index(d, k);
            if s.last().0@ != k {
                let i = key_index(d, k);
                if i >= 0 {
                    assert(s[i] == d[i]);
                }
            }
        }
        assert(want =~= m.insert(s.last().0@, extra_from_cbor(s.last().1.model())->Ok_0));
    }
}

/// The known keys are distinct: each has its own position.
proof fn lemma_known_keys()
    ensures
        known_index(key_sc()) == 0,
        known_index(key_sn()) == 1,
        known_index(key_vn()) == 2,
        known_index(key_pn()) == 3,
        known_index(key_vs()) == 4,
        known_index(key_ps()) == 5,
        known_index(key_po()) == 6,
        known_index(key_pi()) == 7,
{
    assert(key_sn()[1] != key_sc()[1]);
    assert(key_vn()[0] != key_sc()[0]);
    assert(key_vn()[0] != key_sn()[0]);
    assert(key_pn()[0] != key_sc()[0]);
    assert(key_pn()[0] != key_sn()[0]);
    assert(key_pn()[0] != key_vn()[0]);
    assert(key_vs()[0] != key_sc()[0]);
    assert(key_vs()[0] != key_sn()[0]);
    assert(key_vs()[1] != key_vn()[1]);
    assert(key_vs()[0] != key_pn()[0]);
    assert(key_ps()[0] != key_sc()[0]);
    assert(key_ps()[0] != key_sn()[0]);
    assert(key_ps()[0] != key_vn()[0]);
    assert(key_ps()[1] != key_pn()[1]);
    assert(key_ps()[0] != key_vs()[0]);
    assert(key_po()[0] != key_sc()[0]);
    assert(key_po()[0] != key_sn()[0]);
    assert(key_po()[0] != key_vn()[0]);
    assert(key_po()[1] != key_pn()[1]);
    assert(key_po()[0] != key_vs()[0]);
    assert(key_po()[1] != key_ps()[1]);
    assert(key_pi()[0] != key_sc()[0]);
    assert(key_pi()[0] != key_sn()[0]);
    assert(key_pi()[0] != key_vn()[0]);
    assert(key_pi()[1] != key_pn()[1]);
    assert(key_pi()[0] != key_vs()[0]);
    assert(key_pi()[1] != key_ps()[1]);
    assert(key_pi()[1] != key_po()[1]);
}

/// Each entry of `unknown_entries(e)` is an entry of `e` with a key that is not known.
proof fn lemma_unknown_elem(e: Seq<(String, CborValue)>, i: int)
    requires
        0 <= i < unknown_entries(e).len(),
    ensures
        !is_known_key(unknown_entries(e)[i].0@),
        exists|j: int| 0 <= j < e.len() && e[j] == unknown_entries(e)[i],
    decreases e.len(),
{
    let d = e.drop_last();
    let u = unknown_entries(d);
    if is_known_key(e.last().0@) {
        lemma_unknown_elem(d, i);
        let j = choose|j: int| 0 <= j < d.len() && d[j] == u[i];
        assert(e[j] == d[j]);
    } else if i < u.len() {
        lemma_unknown_elem(d, i);
        let j = choose|j: int| 0 <= j < d.len() && d[j] == u[i];
        assert(e[j] == d[j]);
        assert(u.push(e.last())[i] == u[i]);
    } else {
        assert(e[e.len() - 1] == unknown_entries(e)[i]);
    }
}

/// The keys of the known payload are known keys.
proof fn lemma_known_payload_keys(m: InfoModel, k: Seq<char>)
    requires
        known_payload(m).contains_key(k),
    ensures
        is_known_key(k),
{
    lemma_known_keys();
}

/// Reading back the payload that TOH info is written as gives the info again, where the info
/// is in the form that reading gives: its extra values are well formed, hold signed integers only
/// where they are negative and have no known key, and its schema version is zero exactly when
/// any other known field is set.
pub proof fn lemma_payload_roundtrip(info: Info, payload: StrMap<CborValue>)
    requires
        info.wf(),
        forall|k: Seq<char>| #[trigger]
            info.extra@.contains_key(k) ==> canonical(info.extra@[k]) && !is_known_key(k),
        info.schema_version == if has_known_fields(info.model()) {
            Some(0u8)
        } else {
            None::<u8>
        },
        payload.wf(),
        payload_model(payload) == payload_of(info, true),
    ensures
        payload_info(info.vendor_id, info.product_id, entries_model(payload.entries@)) == Ok::<
            InfoModel,
            PayloadFault,
        >(info.model()),
{
    let e = payload.entries@;
    lemma_info_model(info.vendor_id, info.product_id, e);
    let m = info.model();
    let known = known_payload(m);
    let pm = payload_model(payload);
    lemma_known_keys();
    // Lookups go through the payload map.
    assert forall|k: Seq<char>| #[trigger]
        lookup(e, k) == if pm.contains_key(k) {
            Some(pm[k])
        } else {
            None::<CborModel>
        } by {
        lemma_key_index(e, k);
    }
    // Known keys hold the known fields.
    assert forall|k: Seq<char>| is_known_key(k) implies #[trigger] pm.contains_key(k)
        == known.contains_key(k) && (pm.contains_key(k) ==> pm[k] == known[k]) by {
        assert(!extra_payload(info).contains_key(k));
    }
    // Other keys hold the extra values.
    let u = unknown_entries(e);
    assert forall|i: int| 0 <= i < u.len() implies (#[trigger] extra_from_cbor(u[i].1.model()))
        == Ok::<ExtraModel, ExtraValueConversionError>(info.extra@[u[i].0@].model())
        && info.extra@.contains_key(u[i].0@) by {
        let k = u[i].0@;
        lemma_unknown_elem(e, i);
        let j = choose|j: int| 0 <= j < e.len() && e[j] == u[i];
        lemma_key_index(e, k);
        let ki = key_index(e, k);
        if ki != j {
            crate::strmap::lemma_sorted_distinct(e, ki, j);
        }
        assert(ki == j);
        assert(payload@.contains_key(k));
        assert(pm.contains_key(k));
        assert(pm[k] == u[i].1.model());
        if known.contains_key(k) {
            lemma_known_payload_keys(m, k);
        }
        assert(extra_payload(info).contains_key(k));
        assert(pm[k] == cbor_of(info.extra@[k]));
        assert(info.extra@[k].wf());
        assert(canonical(info.extra@[k]));
        lemma_cbor_roundtrip(info.extra@[k]);
    }
    lemma_convert_all(u);
    let got = Map::new(
        |k: Seq<char>| key_index(u, k) >= 0,
        |k: Seq<char>| extra_from_cbor(u[key_index(u, k)].1.model())->Ok_0,
    );
    assert forall|k: Seq<char>| #[trigger] got.contains_key(k) == m.extra.contains_key(k) && (
    got.contains_key(k) ==> got[k] == m.extra[k]) by {
        lemma_unknown_index(e, k);
        lemma_key_index(u, k);
        lemma_key_index(e, k);
        if info.extra@.contains_key(k) {
            assert(extra_payload(info).contains_key(k));
            assert(pm.contains_key(k));
        }
        if key_index(u, k) >= 0 {
            let i = key_index(u, k);
            assert(extra_from_cbor(u[i].1.model()) is Ok);
        }
        if !is_known_key(k) && pm.contains_key(k) {
            if known.contains_key(k) {
                lemma_known_payload_keys(m, k);
            }
            assert(extra_payload(info).contains_key(k));
        }
    }
    assert(got =~= m.extra);
}

/// Whether `e` is the error for the fault `f` in unpacking chip content `c`.
pub open spec fn is_content_error(e: ParseError, f: FrameFault, c: Seq<u8>) -> bool {
    match f {
        FrameFault::Short(n) => e == ParseError::NotEnoughData(
            crate::errors::MissingDataError { length: c.len() as usize, expected: n as usize },
        ),
        FrameFault::Magic => e matches ParseError::BadMagic(w) && w.value@ == c.take(4),
        FrameFault::Checksum(calc, exp) => e == ParseError::BadChecksum(
            crate::errors::ChecksumError { calculated: calc, expected: exp },
        ),
    }
}

impl Info {
    /// Unpacks chip content into its header fields and payload bytes, checking the magic, the
    /// length and the checksum.
    pub fn parse_frame(content: &[u8]) -> (res: Result<Frame, ParseError>)
        ensures
            match unpack_spec(content@) {
                Ok(m) => res matches Ok(f) && f.model() == m,
                Err(fault) => res matches Err(e) && is_content_error(e, fault, content@),
            },
    {
        match unpack(content) {
            Ok(frame) => Ok(frame),
            Err(FrameError::BadMagic(w)) => Err(ParseError::BadMagic(w)),
            Err(FrameError::BadChecksum(c)) => Err(ParseError::BadChecksum(c)),
            Err(FrameError::NotEnoughData(d)) => Err(ParseError::NotEnoughData(d)),
        }
    }

    /// Makes TOH info for `vendor_id` and `product_id` out of what decoding the payload gave.
    pub fn from_decoded(
        vendor_id: u16,
        product_id: u16,
        decoded: Result<StrMap<CborValue>, CBORParsingError>,
    ) -> (res: Result<Info, ParseError>)
        ensures
            decoded_info(vendor_id, product_id, decoded_model(decoded), res),
    {
        match decoded {
            Err(d) => Err(ParseError::PayloadParsingError(d)),
            Ok(payload) => Info::from_payload(vendor_id, product_id, payload),
        }
    }
}

/// TOH info with the ids `vendor_id` and `product_id` and nothing else.
pub open spec fn bare_info(vendor_id: u16, product_id: u16) -> InfoModel {
    InfoModel {
        vendor_id,
        product_id,
        schema_version: None,
        serial_number: None,
        vendor_name: None,
        product_name: None,
        vendor_website: None,
        product_website: None,
        leave_power_on: None,
        power_input_toh: None,
        extra: Map::empty(),
    }
}

impl Default for Info {
    fn default() -> (res: Info)
        ensures
            res.model() == bare_info(0, 0),
            res.wf(),
    {
        let res = Info {
            vendor_id: 0,
            product_id: 0,
            schema_version: None,
            serial_number: None,
            vendor_name: None,
            product_name: None,
            vendor_website: None,
            product_website: None,
            leave_power_on: None,
            power_input_toh: None,
            extra: StrMap::new(),
        };
        assert(res.model().extra =~= Map::<Seq<char>, ExtraModel>::empty());
        res
    }
}

/// Whether `res` is what making TOH info for `vendor_id` and `product_id` of the decoding
/// outcome `decoded` (the payload entries, keys with item models, or the decoding error) gives.
pub open spec fn decoded_info(
    vendor_id: u16,
    product_id: u16,
    decoded: Result<Seq<(Seq<char>, CborModel)>, CBORParsingError>,
    res: Result<Info, ParseError>,
) -> bool {
    match decoded {
        Err(d) => res matches Err(e) && e == ParseError::PayloadParsingError(d),
        Ok(s) => match payload_info(vendor_id, product_id, s) {
            Ok(m) => res matches Ok(info) && info.model() == m && info.wf(),
            Err(f) => res matches Err(e) && is_payload_error(e, f),
        },
    }
}

impl Info {
    /// Parses memory chip content: unpacks the header and the payload bytes, decodes the payload
    /// bytes as CBOR, and makes TOH info of the payload map. Content without payload gives the
    /// info with only the two ids.
    pub fn parse_from_bytes(content: &[u8]) -> (res: Result<Info, ParseError>)
        ensures
            match unpack_spec(content@) {
                Err(fault) => res matches Err(e) && is_content_error(e, fault, content@),
                Ok(m) => if m.payload.len() == 0 {
                    res matches Ok(info) && info.model() == bare_info(m.vendor_id, m.product_id)
                        && info.wf()
                } else {
                    decoded_info(m.vendor_id, m.product_id, cbor_payload(m.payload), res)
                },
            },
    {
        let frame = match Info::parse_frame(content) {
            Ok(frame) => frame,
            Err(e) => return Err(e),
        };
        if frame.payload.len() == 0 {
            let mut info = Info::default();
            info.vendor_id = frame.vendor_id;
            info.product_id = frame.product_id;
            return Ok(info);
        }
        let decoded = decode_cbor(frame.payload.as_slice());
        Info::from_decoded(frame.vendor_id, frame.product_id, decoded)
    }

    /// The chip content of this info: the payload map encoded with `encode`, where it is not
    /// empty, framed with the header.
    pub fn into_bytes<F: Fn(StrMap<CborValue>) -> Result<Vec<u8>, std::io::Error>>(
        &self,
        encode: F,
    ) -> (res: Result<Vec<u8>, std::io::Error>)
        requires
            forall|p: StrMap<CborValue>| encode.requires((p,)),
        ensures
            payload_of(*self, true) == Map::<Seq<char>, CborModel>::empty() ==> (res matches Ok(c)
                && c@ == framed(self.vendor_id, self.product_id, Seq::empty())),
            payload_of(*self, true) != Map::<Seq<char>, CborModel>::empty() ==> exists|
                p: StrMap<CborValue>,
                r: Result<Vec<u8>, std::io::Error>,
            |
                payload_model(p) == payload_of(*self, true) && p.wf() && encode.ensures((p,), r)
                    && match r {
                    Ok(bytes) => res matches Ok(c) && c@ == framed(
                        self.vendor_id,
                        self.product_id,
                        bytes@,
                    ),
                    Err(e) => res matches Err(x) && x == e,
                },
    {
        let payload = self.get_payload(true);
        if payload.is_empty() {
            proof {
                assert(payload@ =~= Map::<Seq<char>, CborValue>::empty());
                assert(payload_model(payload) =~= Map::<Seq<char>, CborModel>::empty());
            }
            let none: Vec<u8> = Vec::new();
            let content = pack(self.vendor_id, self.product_id, none.as_slice());
            assert(none@ =~= Seq::<u8>::empty());
            return Ok(content);
        }
        proof {
            let k = payload.entries@[0].0@;
            crate::strmap::lemma_entries_map_index(payload.entries@, 0);
            assert(payload_model(payload).contains_key(k));
            assert(!Map::<Seq<char>, CborModel>::empty().contains_key(k));
        }
        match encode(payload) {
            Ok(bytes) => {
                let content = pack(self.vendor_id, self.product_id, bytes.as_slice());
                Ok(content)
            },
            Err(e) => Err(e),
        }
    }
}

/// Content written for info whose payload is empty, the header alone, unpacks to the same two
/// ids and an empty payload, so it reads back as the info with those ids and nothing else; where
/// the info has no schema version, that is the info itself.
pub proof fn lemma_bare_image(info: Info)
    requires
        payload_of(info, true) == Map::<Seq<char>, CborModel>::empty(),
    ensures
        unpack_spec(framed(info.vendor_id, info.product_id, Seq::empty())) == Ok::<
            FrameModel,
            FrameFault,
        >(
            FrameModel {
                vendor_id: info.vendor_id,
                product_id: info.product_id,
                reserved: 0,
                payload: Seq::empty(),
            },
        ),
        info.schema_version is None ==> info.model() == bare_info(info.vendor_id, info.product_id),
{
    crate::frame::lemma_pack_unpack(info.vendor_id, info.product_id, Seq::empty());
    let m = info.model();
    let p = payload_of(info, true);
    if has_known_fields(m) {
        assert(known_payload(m).contains_key(key_sc()));
        assert(p.contains_key(key_sc()));
    }
    assert forall|k: Seq<char>| !info.extra@.contains_key(k) by {
        if info.extra@.contains_key(k) {
            assert(extra_payload(info).contains_key(k));
            assert(p.contains_key(k));
        }
    }
    assert(info.extra@ =~= Map::<Seq<char>, ExtraValue>::empty());
    assert(map_model(info.extra) =~= Map::<Seq<char>, ExtraModel>::empty());
}

/// The text of a TOH id as printed: `0x` and four lower case hexadecimal digits.
pub open spec fn id_text(id: u16) -> Seq<char> {
    seq!['0', 'x'] + crate::text::hex_fixed(id as nat, 4)
}

/// The text of a flag.
pub open spec fn flag_text(b: bool) -> Seq<char> {
    if b {
        seq!['t', 'r', 'u', 'e']
    } else {
        seq!['f', 'a', 'l', 's', 'e']
    }
}

/// The line that names `what` with the id `id`: the name and the id in brackets, or the id alone.
pub open spec fn named_id_line(what: Seq<char>, name: Option<Seq<char>>, id: u16) -> Seq<char> {
    match name {
        Some(n) => what + seq![':', ' '] + n + seq![' ', '('] + id_text(id) + seq![')'],
        None => what + seq![':', ' '] + id_text(id),
    }
}

/// The line for the value `v` of a field named `what`, if it is set.
pub open spec fn value_line(what: Seq<char>, v: Option<Seq<char>>) -> Seq<Seq<char>> {
    match v {
        Some(t) => seq![what + seq![':', ' '] + t + seq![' ']],
        None => Seq::empty(),
    }
}

/// The lines that describe the TOH info `m`: vendor and product, then each of serial number,
/// vendor website, product website, power out enable and power input that is set.
pub open spec fn summary_lines(m: InfoModel) -> Seq<Seq<char>> {
    seq![
        named_id_line("Vendor"@, m.vendor_name, m.vendor_id),
        named_id_line("Product"@, m.product_name, m.product_id),
    ] + value_line("Serial number"@, m.serial_number) + value_line(
        "Vendor website"@,
        m.vendor_website,
    ) + value_line("Product website"@, m.product_website) + value_line(
        "Power out enable"@,
        match m.leave_power_on {
            Some(b) => Some(flag_text(b)),
            None => None,
        },
    ) + value_line(
        "Power input TOH"@,
        match m.power_input_toh {
            Some(b) => Some(flag_text(b)),
            None => None,
        },
    )
}

/// The line that names `what` with the id `id`.
fn named_id(what: &str, name: &Option<String>, id: u16) -> (res: String)
    ensures
        res@ == named_id_line(what@, opt_text(*name), id),
{
    proof {
        reveal_strlit(": ");
        reveal_strlit(" (");
        reveal_strlit(")");
        reveal_strlit("0x");
    }
    let mut line = String::from_str(what);
    line.append(": ");
    match name {
        Some(n) => {
            line.append(n.as_str());
            line.append(" (");
            line.append("0x");
            crate::text::push_hex_fixed(&mut line, id as u64, 4);
            line.append(")");
        },
        None => {
            line.append("0x");
            crate::text::push_hex_fixed(&mut line, id as u64, 4);
        },
    }
    assert(line@ =~= named_id_line(what@, opt_text(*name), id));
    line
}

/// Adds the line for the value `v` of a field named `what`, if it is set.
fn push_value(lines: &mut Vec<String>, what: &str, v: Option<&str>)
    ensures
        texts(final(lines)@) == texts(old(lines)@) + value_line(
            what@,
            match v {
                Some(t) => Some(t@),
                None => None,
            },
        ),
{
    proof {
        reveal_strlit(": ");
        reveal_strlit(" ");
    }
    match v {
        Some(t) => {
            let mut line = String::from_str(what);
            line.append(": ");
            line.append(t);
            line.append(" ");
            assert(line@ =~= what@ + seq![':', ' '] + t@ + seq![' ']);
            let ghost before = texts(lines@);
            lines.push(line);
            assert(texts(lines@) =~= before + value_line(what@, Some(t@)));
        },
        None => {
            assert(texts(lines@) =~= texts(lines@) + Seq::<Seq<char>>::empty());
        },
    }
}

/// The text of the flag `b`.
fn flag(b: Option<bool>) -> (res: Option<&'static str>)
    ensures
        match b {
            Some(x) => res matches Some(t) && t@ == flag_text(x),
            None => res is None,
        },
{
    proof {
        reveal_strlit("true");
        reveal_strlit("false");
    }
    match b {
        Some(true) => Some("true"),
        Some(false) => Some("false"),
        None => None,
    }
}

impl Info {
    /// The lines that describe this info, as the chip content tool prints them.
    pub fn summary(&self) -> (res: Vec<String>)
        ensures
            texts(res@) == summary_lines(self.model()),
    {
        let mut lines: Vec<String> = Vec::new();
        lines.push(named_id("Vendor", &self.vendor_name, self.vendor_id));
        lines.push(named_id("Product", &self.product_name, self.product_id));
        proof {
            reveal_strlit("Vendor");
            reveal_strlit("Product");
        }
        let ghost start = texts(lines@);
        assert(start =~= seq![
            named_id_line("Vendor"@, self.model().vendor_name, self.vendor_id),
            named_id_line("Product"@, self.model().product_name, self.product_id),
        ]);
        let serial = match &self.serial_number {
            Some(s) => Some(s.as_str()),
            None => None,
        };
        push_value(&mut lines, "Serial number", serial);
        let vendor_website = match &self.vendor_website {
            Some(s) => Some(s.as_str()),
            None => None,
        };
        push_value(&mut lines, "Vendor website", vendor_website);
        let product_website = match &self.product_website {
            Some(s) => Some(s.as_str()),
            None => None,
        };
        push_value(&mut lines, "Product website", product_website);
        push_value(&mut lines, "Power out enable", flag(self.leave_power_on));
        push_value(&mut lines, "Power input TOH", flag(self.power_input_toh));
        assert(texts(lines@) =~= summary_lines(self.model()));
        lines
    }

    /// Whether the power stays on while the TOH is connected: where the info says so.
    pub fn keeps_power_on(&self) -> (res: bool)
        ensures
            res == (self.leave_power_on == Some(true)),
    {
        match self.leave_power_on {
            Some(b) => b,
            None => false,
        }
    }

    /// Whether power goes off after lent out bus access is returned: unless the borrower asks
    /// for it to stay on, or, where the borrower does not say, unless the info says so.
    pub fn powers_down_after_loan(&self, leave_power_on: Option<bool>) -> (res: bool)
        ensures
            res == !match leave_power_on {
                Some(b) => b,
                None => self.leave_power_on == Some(true),
            },
    {
        match leave_power_on {
            Some(b) => !b,
            None => !self.keeps_power_on(),
        }
    }
}

} // verus!
