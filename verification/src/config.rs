//! TOH configs.
//!
//! These are YAML files on the device, in a directory named by the vendor and product ids of the
//! TOH. They can override values that the memory chip gives and extend TOH functionality by
//! starting services on TOH connect. The files are read in the order of their names, and what a
//! later file says wins.


use crate::info::{opt_text, Info, InfoModel};
use crate::strmap::{
    compare_keys, key_less, lemma_key_less_asymmetric, lemma_key_less_total,
    lemma_key_less_transitive, KeyOrder, StrMap,
};
use vstd::relations::{sorted_by, total_ordering};
use crate::text::{
    ends_with, has_suffix, hex_fixed, join_path, path_join, push_hex_fixed, texts,
};
use crate::value::{map_model, models_of_map, ExtraModel, ExtraValue};
use std::marker::PhantomData;
use vstd::prelude::*;

verus! {

/// `b` where it is set, else `a`.
pub open spec fn prefer<T>(a: Option<T>, b: Option<T>) -> Option<T> {
    match b {
        Some(x) => Some(x),
        None => a,
    }
}

/// Values that override those of the memory chip.
#[derive(Debug)]
pub struct Override {
    pub vendor_name: Option<String>,
    pub product_name: Option<String>,
    pub vendor_website: Option<String>,
    pub product_website: Option<String>,
    pub leave_power_on: Option<bool>,
    pub power_input_toh: Option<bool>,
    /// Values of other keys.
    pub extra: StrMap<ExtraValue>,
}

/// Mathematical form of an [`Override`].
pub struct OverrideModel {
    pub vendor_name: Option<Seq<char>>,
    pub product_name: Option<Seq<char>>,
    pub vendor_website: Option<Seq<char>>,
    pub product_website: Option<Seq<char>>,
    pub leave_power_on: Option<bool>,
    pub power_input_toh: Option<bool>,
    pub extra: Map<Seq<char>, ExtraModel>,
}

/// The overrides `a` with those of `b` put over them: each value that `b` sets wins.
pub open spec fn combine_overrides(a: OverrideModel, b: OverrideModel) -> OverrideModel {
    OverrideModel {
        vendor_name: prefer(a.vendor_name, b.vendor_name),
        product_name: prefer(a.product_name, b.product_name),
        vendor_website: prefer(a.vendor_website, b.vendor_website),
        product_website: prefer(a.product_website, b.product_website),
        leave_power_on: prefer(a.leave_power_on, b.leave_power_on),
        power_input_toh: prefer(a.power_input_toh, b.power_input_toh),
        extra: a.extra.union_prefer_right(b.extra),
    }
}

/// TOH info `m` with the overrides `o` applied: each value that `o` sets replaces that of `m`.
/// The ids, the schema version and the serial number are not overridden.
pub open spec fn override_info(m: InfoModel, o: OverrideModel) -> InfoModel {
    InfoModel {
        vendor_id: m.vendor_id,
        product_id: m.product_id,
        schema_version: m.schema_version,
        serial_number: m.serial_number,
        vendor_name: prefer(m.vendor_name, o.vendor_name),
        product_name: prefer(m.product_name, o.product_name),
        vendor_website: prefer(m.vendor_website, o.vendor_website),
        product_website: prefer(m.product_website, o.product_website),
        leave_power_on: prefer(m.leave_power_on, o.leave_power_on),
        power_input_toh: prefer(m.power_input_toh, o.power_input_toh),
        extra: m.extra.union_prefer_right(o.extra),
    }
}

/// The overrides that set nothing.
pub open spec fn no_overrides() -> OverrideModel {
    OverrideModel {
        vendor_name: None,
        product_name: None,
        vendor_website: None,
        product_website: None,
        leave_power_on: None,
        power_input_toh: None,
        extra: Map::empty(),
    }
}

/// The models of a union are the union of the models.
proof fn lemma_models_union(a: Map<Seq<char>, ExtraValue>, b: Map<Seq<char>, ExtraValue>)
    ensures
        models_of_map(a.union_prefer_right(b)) == models_of_map(a).union_prefer_right(
            models_of_map(b),
        ),
{
    assert(models_of_map(a.union_prefer_right(b)) =~= models_of_map(a).union_prefer_right(
        models_of_map(b),
    ));
}

impl Override {
    /// The mathematical form of the overrides.
    pub open spec fn model(&self) -> OverrideModel {
        OverrideModel {
            vendor_name: opt_text(self.vendor_name),
            product_name: opt_text(self.product_name),
            vendor_website: opt_text(self.vendor_website),
            product_website: opt_text(self.product_website),
            leave_power_on: self.leave_power_on,
            power_input_toh: self.power_input_toh,
            extra: map_model(self.extra),
        }
    }

    /// Whether the extra values are in key order and well formed.
    pub open spec fn wf(&self) -> bool {
        &&& self.extra.wf()
        &&& forall|k: Seq<char>| #[trigger] self.extra@.contains_key(k) ==> self.extra@[k].wf()
    }

    /// Overrides that set nothing.
    pub fn new() -> (res: Self)
        ensures
            res.wf(),
            res.model() == no_overrides(),
    {
        let res = Override {
            vendor_name: None,
            product_name: None,
            vendor_website: None,
            product_website: None,
            leave_power_on: None,
            power_input_toh: None,
            extra: StrMap::new(),
        };
        assert(res.model().extra =~= Map::<Seq<char>, ExtraModel>::empty());
        res
    }

    /// Puts the overrides of `other` over these: each value that `other` sets wins.
    pub fn with_other(&mut self, other: Override)
        requires
            old(self).wf(),
            other.wf(),
        ensures
            final(self).wf(),
            final(self).model() == combine_overrides(old(self).model(), other.model()),
    {
        let Override {
            vendor_name,
            product_name,
            vendor_website,
            product_website,
            leave_power_on,
            power_input_toh,
            extra,
        } = other;
        if vendor_name.is_some() {
            self.vendor_name = vendor_name;
        }
        if product_name.is_some() {
            self.product_name = product_name;
        }
        if vendor_website.is_some() {
            self.vendor_website = vendor_website;
        }
        if product_website.is_some() {
            self.product_website = product_website;
        }
        if leave_power_on.is_some() {
            self.leave_power_on = leave_power_on;
        }
        if power_input_toh.is_some() {
            self.power_input_toh = power_input_toh;
        }
        let ghost before = self.extra@;
        self.extra.extend(extra);
        proof {
            lemma_models_union(before, other.extra@);
        }
    }
}

/// Overrides from [`Configs`].
///
/// These are applied to [`Info`] instances.
#[derive(Debug)]
pub struct Overrides {
    pub overrides: Override,
}

impl Overrides {
    /// Applies the overrides to `info`.
    pub fn apply_overrides(self, info: &mut Info)
        requires
            old(info).wf(),
            self.overrides.wf(),
        ensures
            final(info).wf(),
            final(info).model() == override_info(old(info).model(), self.overrides.model()),
            self.overrides.model().vendor_name matches Some(v) ==> final(info).model().vendor_name == Some(v),
            self.overrides.model().vendor_name is None ==> final(info).model().vendor_name == old(info).model().vendor_name,
            self.overrides.model().product_name matches Some(v) ==> final(info).model().product_name == Some(v),
            self.overrides.model().product_name is None ==> final(info).model().product_name == old(info).model().product_name,
            self.overrides.model().vendor_website matches Some(v) ==> final(info).model().vendor_website == Some(v),
            self.overrides.model().vendor_website is None ==> final(info).model().vendor_website == old(info).model().vendor_website,
            self.overrides.model().product_website matches Some(v) ==> final(info).model().product_website == Some(v),
            self.overrides.model().product_website is None ==> final(info).model().product_website == old(info).model().product_website,
            self.overrides.model().leave_power_on matches Some(v) ==> final(info).model().leave_power_on == Some(v),
            self.overrides.model().leave_power_on is None ==> final(info).model().leave_power_on == old(info).model().leave_power_on,
            self.overrides.model().power_input_toh matches Some(v) ==> final(info).model().power_input_toh == Some(v),
            self.overrides.model().power_input_toh is None ==> final(info).model().power_input_toh == old(info).model().power_input_toh,
    {
        let Override {
            vendor_name,
            product_name,
            vendor_website,
            product_website,
            leave_power_on,
            power_input_toh,
            extra,
        } = self.overrides;
        if vendor_name.is_some() {
            info.vendor_name = vendor_name;
        }
        if product_name.is_some() {
            info.product_name = product_name;
        }
        if vendor_website.is_some() {
            info.vendor_website = vendor_website;
        }
        if product_website.is_some() {
            info.product_website = product_website;
        }
        if leave_power_on.is_some() {
            info.leave_power_on = leave_power_on;
        }
        if power_input_toh.is_some() {
            info.power_input_toh = power_input_toh;
        }
        let ghost before = info.extra@;
        info.extra.extend(extra);
        proof {
            lemma_models_union(before, self.overrides.extra@);
        }
    }
}

impl Info {
    /// Applies overrides from configs to this info.
    ///
    /// Consumes the overrides.
    pub fn apply_overrides(&mut self, overrides: Overrides)
        requires
            old(self).wf(),
            overrides.overrides.wf(),
        ensures
            final(self).wf(),
            final(self).model() == override_info(old(self).model(), overrides.overrides.model()),
            overrides.overrides.model().vendor_name matches Some(v) ==> final(self).model().vendor_name == Some(v),
            overrides.overrides.model().vendor_name is None ==> final(self).model().vendor_name == old(self).model().vendor_name,
            overrides.overrides.model().product_name matches Some(v) ==> final(self).model().product_name == Some(v),
            overrides.overrides.model().product_name is None ==> final(self).model().product_name == old(self).model().product_name,
            overrides.overrides.model().vendor_website matches Some(v) ==> final(self).model().vendor_website == Some(v),
            overrides.overrides.model().vendor_website is None ==> final(self).model().vendor_website == old(self).model().vendor_website,
            overrides.overrides.model().product_website matches Some(v) ==> final(self).model().product_website == Some(v),
            overrides.overrides.model().product_website is None ==> final(self).model().product_website == old(self).model().product_website,
            overrides.overrides.model().leave_power_on matches Some(v) ==> final(self).model().leave_power_on == Some(v),
            overrides.overrides.model().leave_power_on is None ==> final(self).model().leave_power_on == old(self).model().leave_power_on,
            overrides.overrides.model().power_input_toh matches Some(v) ==> final(self).model().power_input_toh == Some(v),
            overrides.overrides.model().power_input_toh is None ==> final(self).model().power_input_toh == old(self).model().power_input_toh,
    {
        overrides.apply_overrides(self);
    }
}

/// Each value that the overrides set wins and each they leave unset stays, extra values by key
/// alike; the ids, the schema version and the serial number stay.
pub proof fn lemma_override_fields(m: InfoModel, o: OverrideModel)
    ensures
        o.vendor_name matches Some(v) ==> override_info(m, o).vendor_name == Some(v),
        o.vendor_name is None ==> override_info(m, o).vendor_name == m.vendor_name,
        o.product_name matches Some(v) ==> override_info(m, o).product_name == Some(v),
        o.product_name is None ==> override_info(m, o).product_name == m.product_name,
        o.vendor_website matches Some(v) ==> override_info(m, o).vendor_website == Some(v),
        o.vendor_website is None ==> override_info(m, o).vendor_website == m.vendor_website,
        o.product_website matches Some(v) ==> override_info(m, o).product_website == Some(v),
        o.product_website is None ==> override_info(m, o).product_website == m.product_website,
        o.leave_power_on matches Some(v) ==> override_info(m, o).leave_power_on == Some(v),
        o.leave_power_on is None ==> override_info(m, o).leave_power_on == m.leave_power_on,
        o.power_input_toh matches Some(v) ==> override_info(m, o).power_input_toh == Some(v),
        o.power_input_toh is None ==> override_info(m, o).power_input_toh == m.power_input_toh,
        override_info(m, o).vendor_id == m.vendor_id,
        override_info(m, o).product_id == m.product_id,
        override_info(m, o).schema_version == m.schema_version,
        override_info(m, o).serial_number == m.serial_number,
        forall|k: Seq<char>|
            #[trigger] o.extra.contains_key(k) ==> override_info(m, o).extra.contains_key(k)
                && override_info(m, o).extra[k] == o.extra[k],
        forall|k: Seq<char>|
            !o.extra.contains_key(k) ==> (#[trigger] override_info(m, o).extra.contains_key(k)
                == m.extra.contains_key(k)) && (m.extra.contains_key(k) ==> override_info(
                m,
                o,
            ).extra[k] == m.extra[k]),
{
}

/// Applying two sets of overrides one after the other is applying them combined.
pub proof fn lemma_override_compose(m: InfoModel, a: OverrideModel, b: OverrideModel)
    ensures
        override_info(override_info(m, a), b) == override_info(m, combine_overrides(a, b)),
{
    assert(override_info(override_info(m, a), b).extra =~= override_info(
        m,
        combine_overrides(a, b),
    ).extra);
}

/// Combining overrides is associative.
pub proof fn lemma_combine_associative(a: OverrideModel, b: OverrideModel, c: OverrideModel)
    ensures
        combine_overrides(combine_overrides(a, b), c) == combine_overrides(
            a,
            combine_overrides(b, c),
        ),
{
    assert(combine_overrides(combine_overrides(a, b), c).extra =~= combine_overrides(
        a,
        combine_overrides(b, c),
    ).extra);
}

/// Overrides that set nothing change nothing.
pub proof fn lemma_no_overrides(m: InfoModel)
    ensures
        override_info(m, no_overrides()) == m,
{
    assert(override_info(m, no_overrides()).extra =~= m.extra);
}

/// Whether the path `p` is absolute, as `std::path::Path::is_absolute` tells it.
pub open spec fn is_absolute_path(p: Seq<char>) -> bool {
    p.len() > 0 && p[0] == '/'
}

/// Whether `path` is absolute: on Unix, whether it starts with the root `/`.
fn path_is_absolute(path: &str) -> (res: bool)
    ensures
        res == is_absolute_path(path@),
{
    path.unicode_len() > 0 && path.get_char(0) == '/'
}

/// The parts of the path `p` between its `/` separators, in their order, empty ones included.
pub open spec fn slash_segments(p: Seq<char>) -> Seq<Seq<char>>
    decreases p.len(),
{
    if p.len() == 0 {
        seq![Seq::empty()]
    } else if p.last() == '/' {
        slash_segments(p.drop_last()).push(Seq::empty())
    } else {
        let s = slash_segments(p.drop_last());
        s.update(s.len() - 1, s.last().push(p.last()))
    }
}

/// Whether the segment `s` of a path is left out of its components: it is empty (repeated,
/// leading or trailing separators) or `.`.
pub open spec fn is_skipped_segment(s: Seq<char>) -> bool {
    s.len() == 0 || s == seq!['.']
}

/// The components of the path `p`, each as its text, as `std::path::Path::components` splits it
/// on Unix: the root `/` where the path begins with it, or `.` where its first segment is `.`;
/// then each segment that is neither empty nor `.`.
pub open spec fn path_components(p: Seq<char>) -> Seq<Seq<char>> {
    let segments = slash_segments(p);
    let head = if is_absolute_path(p) {
        seq![seq!['/']]
    } else if segments[0] == seq!['.'] {
        seq![seq!['.']]
    } else {
        Seq::empty()
    };
    head + segments.filter(|s: Seq<char>| !is_skipped_segment(s))
}

/// The file name of the path `p`, as `std::path::Path::file_name` gives it: its last component,
/// where that is a normal one, not the root, `.` or `..`.
pub open spec fn path_file_name(p: Seq<char>) -> Option<Seq<char>> {
    let c = path_components(p);
    if c.len() > 0 && c.last() != seq!['/'] && c.last() != seq!['.'] && c.last() != seq!['.', '.'] {
        Some(c.last())
    } else {
        None
    }
}

/// Whether the path `p` has a file name.
pub open spec fn path_has_file_name(p: Seq<char>) -> bool {
    path_file_name(p) is Some
}

/// `std::path::Path::file_name`: the file name of `path`, a part of it, where it has one.
///
/// The contract claims that the result is [`path_file_name`], the last component where it is a
/// normal one.
#[verifier::external_body]
fn file_name<'a>(path: &'a str) -> (res: Option<&'a str>)
    ensures
        match res {
            Some(name) => path_file_name(path@) == Some(name@),
            None => path_file_name(path@) is None,
        },
{
    std::path::Path::new(path).file_name().and_then(|name| name.to_str())
}

/// `std::path::Path::components`: the components of `path`, each as its text.
///
/// The contract claims that they are [`path_components`]: the root or a leading `.`, then the
/// segments between separators that are neither empty nor `.`.
#[verifier::external_body]
fn components(path: &str) -> (res: Vec<String>)
    ensures
        res@.len() == path_components(path@).len(),
        forall|i: int| 0 <= i < res@.len() ==> #[trigger] res@[i]@ == path_components(path@)[i],
{
    std::path::Path::new(path).components().map(|c| c.as_os_str().to_string_lossy().into_owned()).collect()
}

/// Bad executable path provided.
#[derive(Debug, Clone, Copy, PartialEq, Eq)]
pub enum InvalidExecutable {
    /// Path did not contain a file name.
    NoFileName,
    /// Executable path must be an absolute path.
    NotAbsolutePath,
}

/// Path of an executable: an absolute path that has a file name.
#[derive(Debug, PartialEq)]
pub struct Executable {
    path: String,
}

impl Executable {
    #[verifier::type_invariant]
    spec fn inv(self) -> bool {
        is_absolute_path(self.path@) && path_has_file_name(self.path@)
    }

    /// The path.
    pub closed spec fn view(&self) -> Seq<char> {
        self.path@
    }

    /// Checks that `path` is absolute and has a file name.
    pub fn new(path: String) -> (res: Result<Executable, InvalidExecutable>)
        ensures
            match res {
                Ok(e) => e.view() == path@ && is_absolute_path(path@) && path_has_file_name(path@),
                Err(InvalidExecutable::NotAbsolutePath) => !is_absolute_path(path@),
                Err(InvalidExecutable::NoFileName) => is_absolute_path(path@) && !path_has_file_name(
                    path@,
                ),
            },
    {
        if !path_is_absolute(path.as_str()) {
            Err(InvalidExecutable::NotAbsolutePath)
        } else if file_name(path.as_str()).is_none() {
            Err(InvalidExecutable::NoFileName)
        } else {
            Ok(Executable { path })
        }
    }

    /// The path.
    pub fn as_str(&self) -> (res: &str)
        ensures
            res@ == self.view(),
            is_absolute_path(res@),
            path_has_file_name(res@),
    {
        proof {
            use_type_invariant(self);
        }
        self.path.as_str()
    }
}

/// Bad executable line provided.
#[derive(Debug, Clone, Copy, PartialEq, Eq)]
pub enum BadExecutable {
    /// There must be at least an absolute path to the executable.
    Missing,
    /// Invalid executable.
    Invalid(InvalidExecutable),
}

/// An executable with its arguments.
#[derive(Debug, PartialEq)]
pub struct Exec {
    pub bin: Executable,
    pub args: Vec<String>,
}

impl Exec {
    /// Makes an executable line of `items`: the path of the executable, then its arguments.
    pub fn from_items(items: Vec<String>) -> (res: Result<Exec, BadExecutable>)
        ensures
            items@.len() == 0 ==> res == Err::<Exec, BadExecutable>(BadExecutable::Missing),
            items@.len() > 0 ==> match res {
                Ok(e) => e.bin.view() == items@[0]@ && is_absolute_path(items@[0]@)
                    && path_has_file_name(items@[0]@) && e.args@ == items@.skip(1),
                Err(BadExecutable::Invalid(InvalidExecutable::NotAbsolutePath)) =>
                    !is_absolute_path(items@[0]@),
                Err(BadExecutable::Invalid(InvalidExecutable::NoFileName)) => is_absolute_path(
                    items@[0]@,
                ) && !path_has_file_name(items@[0]@),
                Err(BadExecutable::Missing) => false,
            },
    {
        let mut items = items;
        if items.len() == 0 {
            return Err(BadExecutable::Missing);
        }
        let ghost orig = items@;
        let first = items.remove(0);
        assert(items@ =~= orig.skip(1));
        match Executable::new(first) {
            Ok(bin) => Ok(Exec { bin, args: items }),
            Err(e) => Err(BadExecutable::Invalid(e)),
        }
    }

    /// Path of the executable.
    pub fn path(&self) -> (res: &str)
        ensures
            res@ == self.bin.view(),
    {
        self.bin.as_str()
    }

    /// The argument vector: the file name of the path, then the arguments.
    pub fn args(&self) -> (res: Vec<&str>)
        ensures
            res@.len() == self.args@.len() + 1,
            path_file_name(self.bin.view()) == Some(res@[0]@),
            forall|i: int| 0 <= i < self.args@.len() ==> #[trigger] res@[i + 1]@ == self.args@[i]@,
    {
        let path = self.bin.as_str();
        let name = match file_name(path) {
            Some(name) => name,
            None => path,
        };
        let mut res: Vec<&str> = Vec::new();
        res.push(name);
        let mut i: usize = 0;
        while i < self.args.len()
            invariant
                i <= self.args@.len(),
                res@.len() == i + 1,
                path_file_name(self.bin.view()) == Some(res@[0]@),
                forall|j: int| 0 <= j < i ==> #[trigger] res@[j + 1]@ == self.args@[j]@,
            decreases self.args@.len() - i,
        {
            res.push(self.args[i].as_str());
            i = i + 1;
        }
        res
    }
}

/// The `ExecStart` or `ExecStop` entry for `exec`: the path, the argument vector, and whether a
/// failing exit is ignored, which it is not.
pub fn exec_line(exec: &Exec) -> (res: (&str, Vec<&str>, bool))
    ensures
        res.0@ == exec.bin.view(),
        res.1@.len() == exec.args@.len() + 1,
        path_file_name(exec.bin.view()) == Some(res.1@[0]@),
        forall|i: int| 0 <= i < exec.args@.len() ==> #[trigger] res.1@[i + 1]@ == exec.args@[i]@,
        !res.2,
{
    (exec.path(), exec.args(), false)
}

/// Type of a transient service.
#[derive(Debug, Clone, Copy, PartialEq, Eq, Structural)]
pub enum ServiceType {
    Simple,
    Exec,
    Oneshot,
}

impl Default for ServiceType {
    fn default() -> (res: ServiceType)
        ensures
            res == ServiceType::Simple,
    {
        ServiceType::Simple
    }
}

impl ServiceType {
    /// The name of the service type as systemd takes it.
    pub fn as_str(&self) -> (res: &'static str)
        ensures
            res@ == match self {
                ServiceType::Simple => "simple"@,
                ServiceType::Exec => "exec"@,
                ServiceType::Oneshot => "oneshot"@,
            },
    {
        match self {
            ServiceType::Simple => "simple",
            ServiceType::Exec => "exec",
            ServiceType::Oneshot => "oneshot",
        }
    }
}

/// A service that is created for the TOH.
#[derive(Debug)]
pub struct TransientService {
    pub description: String,
    pub service_type: ServiceType,
    pub service_exec: Exec,
    pub exec_stop: Option<Exec>,
}

/// Kind of unit.
#[derive(Debug)]
pub enum Unit {
    TransientService(TransientService),
    Service,
}

/// A systemd unit to start for the TOH.
#[derive(Debug)]
pub struct SystemdUnit {
    pub name: String,
    /// Whether the unit is started also when the TOH is already connected as the service starts.
    pub run_on_start: bool,
    pub unit_type: Unit,
}

/// The default of [`SystemdUnit::run_on_start`].
pub fn yes() -> (res: bool)
    ensures
        res,
{
    true
}

/// The name of `name` as a service unit: it as it is where it ends in `.service`, else with
/// `.service` added.
pub open spec fn service_name(name: Seq<char>) -> Seq<char> {
    if has_suffix(name, ".service"@) {
        name
    } else {
        name + ".service"@
    }
}

/// Name of the unit for systemd.
pub fn unit_name(unit: &SystemdUnit) -> (res: String)
    ensures
        res@ == service_name(unit.name@),
{
    let suffix = ".service";
    if ends_with(unit.name.as_str(), suffix) {
        unit.name.clone()
    } else {
        let mut res = unit.name.clone();
        res.append(suffix);
        res
    }
}

/// A service name stays as it is when it is made a service name again.
pub proof fn lemma_service_name_idempotent(name: Seq<char>)
    ensures
        service_name(service_name(name)) == service_name(name),
{
    let suffix = ".service"@;
    if !has_suffix(name, suffix) {
        let n = name + suffix;
        assert(n.skip(n.len() - suffix.len()) =~= suffix);
    }
}

/// A target device to bind on the TOH bus.
#[derive(Debug)]
pub struct Device {
    /// Address of the target on the bus.
    pub address: u8,
    /// Name of the driver, if any.
    pub name: Option<String>,
}

/// Access definitions.
#[derive(Debug)]
pub struct Access {
    /// Binaries that can access i2c-dev.
    pub i2c_dev: Vec<Executable>,
}

/// One config file.
#[derive(Debug)]
pub struct Config {
    pub overrides: Option<Override>,
    pub system_unit: Option<SystemdUnit>,
    pub user_unit: Option<SystemdUnit>,
    pub access: Option<Access>,
    pub devices: Vec<Device>,
}

/// `s` with `o` added at its end, if it is set.
pub open spec fn push_opt<T>(s: Seq<T>, o: Option<T>) -> Seq<T> {
    match o {
        Some(x) => s.push(x),
        None => s,
    }
}

/// The overrides of the configs `c` combined in their order, later ones winning.
pub open spec fn overrides_of(c: Seq<Config>) -> OverrideModel
    decreases c.len(),
{
    if c.len() == 0 {
        no_overrides()
    } else {
        match c.last().overrides {
            Some(o) => combine_overrides(overrides_of(c.drop_last()), o.model()),
            None => overrides_of(c.drop_last()),
        }
    }
}

/// The system units of the configs `c`, in their order.
pub open spec fn system_units_of(c: Seq<Config>) -> Seq<SystemdUnit>
    decreases c.len(),
{
    if c.len() == 0 {
        Seq::empty()
    } else {
        push_opt(system_units_of(c.drop_last()), c.last().system_unit)
    }
}

/// The user units of the configs `c`, in their order.
pub open spec fn user_units_of(c: Seq<Config>) -> Seq<SystemdUnit>
    decreases c.len(),
{
    if c.len() == 0 {
        Seq::empty()
    } else {
        push_opt(user_units_of(c.drop_last()), c.last().user_unit)
    }
}

/// The executables allowed to access i2c-dev by the configs `c`, in their order.
pub open spec fn i2c_dev_of(c: Seq<Config>) -> Seq<Executable>
    decreases c.len(),
{
    if c.len() == 0 {
        Seq::empty()
    } else {
        i2c_dev_of(c.drop_last()) + match c.last().access {
            Some(a) => a.i2c_dev@,
            None => Seq::<Executable>::empty(),
        }
    }
}

/// The devices of the configs `c`, in their order.
pub open spec fn devices_of(c: Seq<Config>) -> Seq<Device>
    decreases c.len(),
{
    if c.len() == 0 {
        Seq::empty()
    } else {
        devices_of(c.drop_last()) + c.last().devices@
    }
}

/// Configs for TOH.
#[derive(Debug)]
pub struct Configs {
    pub overrides: Override,
    pub system_units: Vec<SystemdUnit>,
    pub user_units: Vec<SystemdUnit>,
    pub access: Access,
    pub devices: Vec<Device>,
}

impl Configs {
    /// Whether the overrides are well formed.
    pub open spec fn wf(&self) -> bool {
        self.overrides.wf()
    }

    /// Configs that say nothing.
    pub fn new() -> (res: Self)
        ensures
            res.wf(),
            res.overrides.model() == no_overrides(),
            res.system_units@.len() == 0,
            res.user_units@.len() == 0,
            res.access.i2c_dev@.len() == 0,
            res.devices@.len() == 0,
    {
        Configs {
            overrides: Override::new(),
            system_units: Vec::new(),
            user_units: Vec::new(),
            access: Access { i2c_dev: Vec::new() },
            devices: Vec::new(),
        }
    }

    /// Adds what the config file `config` says, which comes after what is there.
    pub fn update(&mut self, config: Config)
        requires
            old(self).wf(),
            config.overrides matches Some(o) ==> o.wf(),
        ensures
            final(self).wf(),
            final(self).overrides.model() == match config.overrides {
                Some(o) => combine_overrides(old(self).overrides.model(), o.model()),
                None => old(self).overrides.model(),
            },
            final(self).system_units@ == push_opt(old(self).system_units@, config.system_unit),
            final(self).user_units@ == push_opt(old(self).user_units@, config.user_unit),
            final(self).access.i2c_dev@ == old(self).access.i2c_dev@ + match config.access {
                Some(a) => a.i2c_dev@,
                None => Seq::<Executable>::empty(),
            },
            final(self).devices@ == old(self).devices@ + config.devices@,
    {
        let Config { overrides, system_unit, user_unit, access, devices } = config;
        if let Some(overrides) = overrides {
            self.overrides.with_other(overrides);
        }
        if let Some(system_unit) = system_unit {
            self.system_units.push(system_unit);
        }
        if let Some(user_unit) = user_unit {
            self.user_units.push(user_unit);
        }
        if let Some(access) = access {
            let mut i2c_dev = access.i2c_dev;
            self.access.i2c_dev.append(&mut i2c_dev);
        } else {
            assert(self.access.i2c_dev@ =~= self.access.i2c_dev@ + Seq::<Executable>::empty());
        }
        let mut devices = devices;
        self.devices.append(&mut devices);
    }

    /// The configs that the config files `configs` give together, read in their order: later
    /// overrides win, and units, permissions and devices add up. Without config files there are
    /// no configs.
    pub fn from_configs(configs: Vec<Config>) -> (res: Option<Configs>)
        requires
            forall|i: int|
                0 <= i < configs@.len() ==> ((#[trigger] configs@[i]).overrides matches Some(o)
                    ==> o.wf()),
        ensures
            configs@.len() == 0 ==> res is None,
            configs@.len() > 0 ==> (res matches Some(c) && c.wf() && c.overrides.model()
                == overrides_of(configs@) && c.system_units@ == system_units_of(configs@)
                && c.user_units@ == user_units_of(configs@) && c.access.i2c_dev@ == i2c_dev_of(
                configs@,
            ) && c.devices@ == devices_of(configs@)),
    {
        if configs.len() == 0 {
            return None;
        }
        let ghost orig = configs@;
        let mut rest = configs;
        let mut res = Configs::new();
        let mut n: usize = 0;
        let total = rest.len();
        proof {
            assert(rest@ =~= orig.skip(0));
            assert(orig.take(0) =~= Seq::<Config>::empty());
            assert(res.access.i2c_dev@ =~= Seq::<Executable>::empty());
            assert(res.devices@ =~= Seq::<Device>::empty());
            assert(res.system_units@ =~= Seq::<SystemdUnit>::empty());
            assert(res.user_units@ =~= Seq::<SystemdUnit>::empty());
        }
        while rest.len() > 0
            invariant
                orig.len() == total,
                n + rest@.len() == orig.len(),
                rest@ == orig.skip(n as int),
                forall|i: int|
                    0 <= i < orig.len() ==> ((#[trigger] orig[i]).overrides matches Some(o) ==> o.wf()),
                res.wf(),
                res.overrides.model() == overrides_of(orig.take(n as int)),
                res.system_units@ == system_units_of(orig.take(n as int)),
                res.user_units@ == user_units_of(orig.take(n as int)),
                res.access.i2c_dev@ == i2c_dev_of(orig.take(n as int)),
                res.devices@ == devices_of(orig.take(n as int)),
            decreases rest@.len(),
        {
            let c = rest.remove(0);
            proof {
                assert(c == orig[n as int]);
                assert(orig.take(n as int + 1).drop_last() =~= orig.take(n as int));
                assert(orig.take(n as int + 1).last() == c);
            }
            res.update(c);
            n = n + 1;
            proof {
                assert(rest@ =~= orig.skip(n as int));
            }
        }
        proof {
            assert(orig.take(n as int) =~= orig);
        }
        Some(res)
    }

    /// Splits the config into overrides, devices, unit configurations and permissions.
    pub fn split(self) -> (res: (Overrides, Devices, Units<Stopped>, Permissions))
        ensures
            res.0.overrides == self.overrides,
            res.1.0@ == self.devices@,
            res.2.system_units@ == self.system_units@,
            res.2.user_units@ == self.user_units@,
            res.3.wf(),
            forall|c: Seq<Seq<char>>|
                has_components(res.3.i2c_dev_exe_paths@, c) == has_components(
                    self.access.i2c_dev@,
                    c,
                ),
            forall|i: int|
                0 <= i < res.3.i2c_dev_exe_paths@.len() ==> self.access.i2c_dev@.contains(
                    #[trigger] res.3.i2c_dev_exe_paths@[i],
                ),
    {
        let Configs { overrides, system_units, user_units, access, devices } = self;
        (
            Overrides { overrides },
            Devices(devices),
            Units { system_units, user_units, _state: PhantomData },
            Permissions { i2c_dev_exe_paths: dedup_paths(access.i2c_dev) },
        )
    }
}

/// Assumed unit state.
pub trait State {}

/// Services have been stopped.
#[derive(Debug)]
pub struct Stopped;

/// Services have been started.
#[derive(Debug)]
pub struct Started;

impl State for Stopped {}

impl State for Started {}

/// Systemd units from [`Configs`]: system and user units to start for the TOH.
#[derive(Debug)]
pub struct Units<S: State + Send> {
    pub system_units: Vec<SystemdUnit>,
    pub user_units: Vec<SystemdUnit>,
    pub _state: PhantomData<S>,
}

/// Positions of the units of `units` that are started: all of them, or where `on_service_start`
/// is set, those that run on start.
pub open spec fn start_indices(units: Seq<SystemdUnit>, on_service_start: bool) -> Seq<usize>
    decreases units.len(),
{
    if units.len() == 0 {
        Seq::empty()
    } else if !on_service_start || units.last().run_on_start {
        start_indices(units.drop_last(), on_service_start).push((units.len() - 1) as usize)
    } else {
        start_indices(units.drop_last(), on_service_start)
    }
}

/// Positions of the units of `units` to start.
fn units_to_start(units: &Vec<SystemdUnit>, on_service_start: bool) -> (res: Vec<usize>)
    ensures
        res@ == start_indices(units@, on_service_start),
{
    let mut res: Vec<usize> = Vec::new();
    let mut i: usize = 0;
    while i < units.len()
        invariant
            i <= units@.len(),
            res@ == start_indices(units@.take(i as int), on_service_start),
        decreases units@.len() - i,
    {
        proof {
            assert(units@.take(i + 1).drop_last() =~= units@.take(i as int));
        }
        if !on_service_start || units[i].run_on_start {
            res.push(i);
        }
        i = i + 1;
    }
    assert(units@.take(i as int) =~= units@);
    res
}

impl Units<Stopped> {
    /// Positions of the system units and of the user units to start: all of them, or where
    /// `on_service_start` is set (the TOH was already connected as the service started), those
    /// that run on start.
    pub fn units_to_start(&self, on_service_start: bool) -> (res: (Vec<usize>, Vec<usize>))
        ensures
            res.0@ == start_indices(self.system_units@, on_service_start),
            res.1@ == start_indices(self.user_units@, on_service_start),
    {
        (
            units_to_start(&self.system_units, on_service_start),
            units_to_start(&self.user_units, on_service_start),
        )
    }

    /// The units, once they have been started.
    pub fn started(self) -> (res: Units<Started>)
        ensures
            res.system_units@ == self.system_units@,
            res.user_units@ == self.user_units@,
    {
        Units { system_units: self.system_units, user_units: self.user_units, _state: PhantomData }
    }
}

impl Units<Started> {
    /// The units, once they have been stopped.
    pub fn stopped(self) -> (res: Units<Stopped>)
        ensures
            res.system_units@ == self.system_units@,
            res.user_units@ == self.user_units@,
    {
        Units { system_units: self.system_units, user_units: self.user_units, _state: PhantomData }
    }
}

/// Access permissions from [`Configs`].
#[derive(Debug)]
pub struct Permissions {
    /// Binaries that can access i2c-dev, no two with the same path components.
    pub i2c_dev_exe_paths: Vec<Executable>,
}

/// Whether no two of the executables `s` have the same path components.
pub open spec fn distinct_paths(s: Seq<Executable>) -> bool {
    forall|i: int, j: int|
        0 <= i < j < s.len() ==> path_components(#[trigger] s[i].view()) != path_components(
            #[trigger] s[j].view(),
        )
}

/// Whether one of the executables `s` has the path components `c`.
pub open spec fn has_components(s: Seq<Executable>, c: Seq<Seq<char>>) -> bool {
    exists|i: int| 0 <= i < s.len() && path_components(#[trigger] s[i].view()) == c
}

/// Who may access i2c-dev depends only on the path components of the allowed executables:
/// lists with the same components, such as a list and the list without repeated paths, allow
/// the same processes.
pub proof fn lemma_allowed_by_components(a: Seq<Executable>, b: Seq<Executable>, exe: Seq<char>)
    requires
        forall|c: Seq<Seq<char>>| has_components(a, c) == has_components(b, c),
    ensures
        i2c_dev_allowed(a, exe) == i2c_dev_allowed(b, exe),
{
    let pc = path_components(exe);
    assert(has_components(a, pc) == has_components(b, pc));
}

/// Whether one of the executables `s` has the path components of `path`.
fn contains_path(s: &Vec<Executable>, path: &str) -> (res: bool)
    ensures
        res == has_components(s@, path_components(path@)),
{
    let comps = components(path);
    let ghost pc = path_components(path@);
    let mut i: usize = 0;
    while i < s.len()
        invariant
            i <= s@.len(),
            pc == path_components(path@),
            comps@.len() == pc.len(),
            forall|j: int| 0 <= j < comps@.len() ==> #[trigger] comps@[j]@ == pc[j],
            forall|j: int| 0 <= j < i ==> path_components(#[trigger] s@[j].view()) != pc,
        decreases s@.len() - i,
    {
        let p = s[i].as_str();
        let other = components(p);
        let ghost a = path_components(s@[i as int].view());
        assert(p@ == s@[i as int].view());
        if same_texts(&other, &comps) {
            assert forall|j: int| 0 <= j < a.len() implies a[j] == pc[j] by {
                assert(other@[j]@ == a[j]);
                assert(comps@[j]@ == pc[j]);
            }
            assert(a =~= pc);
            return true;
        }
        proof {
            if a == pc {
                assert forall|j: int| 0 <= j < other@.len() implies #[trigger] other@[j]@
                    == comps@[j]@ by {}
            }
        }
        i = i + 1;
    }
    false
}

/// The executables `paths` with each one left out whose path components an earlier one has.
fn dedup_paths(paths: Vec<Executable>) -> (res: Vec<Executable>)
    ensures
        distinct_paths(res@),
        forall|c: Seq<Seq<char>>| has_components(res@, c) == has_components(paths@, c),
        forall|i: int| 0 <= i < res@.len() ==> paths@.contains(#[trigger] res@[i]),
{
    let ghost orig = paths@;
    let mut rest = paths;
    let mut res: Vec<Executable> = Vec::new();
    let mut n: usize = 0;
    let total = rest.len();
    proof {
        assert(rest@ =~= orig.skip(0));
    }
    while rest.len() > 0
        invariant
            orig.len() == total,
            n + rest@.len() == orig.len(),
            rest@ == orig.skip(n as int),
            distinct_paths(res@),
            forall|c: Seq<Seq<char>>| has_components(res@, c) == has_components(orig.take(n as int), c),
            forall|i: int| 0 <= i < res@.len() ==> orig.contains(#[trigger] res@[i]),
        decreases rest@.len(),
    {
        let e = rest.remove(0);
        let ghost before = res@;
        let ghost t = orig.take(n as int);
        let ghost t1 = orig.take(n as int + 1);
        proof {
            assert(e == orig[n as int]);
            assert(t1 =~= t.push(e));
        }
        if !contains_path(&res, e.as_str()) {
            res.push(e);
            proof {
                assert forall|i: int, j: int| 0 <= i < j < res@.len() implies path_components(
                    #[trigger] res@[i].view(),
                ) != path_components(#[trigger] res@[j].view()) by {
                    if j == res@.len() - 1 && path_components(res@[i].view()) == path_components(
                        e.view(),
                    ) {
                        assert(before[i] == res@[i]);
                        assert(has_components(before, path_components(e.view())));
                    }
                }
                assert forall|c: Seq<Seq<char>>| has_components(res@, c) == has_components(t1, c) by {
                    if has_components(res@, c) {
                        let i = choose|i: int| 0 <= i < res@.len() && path_components(#[trigger] res@[i].view()) == c;
                        if i < before.len() {
                            assert(before[i] == res@[i]);
                            assert(has_components(before, c));
                            let k = choose|k: int| 0 <= k < t.len() && path_components(#[trigger] t[k].view()) == c;
                            assert(t1[k] == t[k]);
                        } else {
                            assert(t1[n as int] == e);
                        }
                    }
                    if has_components(t1, c) {
                        let k = choose|k: int| 0 <= k < t1.len() && path_components(#[trigger] t1[k].view()) == c;
                        if k < t.len() {
                            assert(t[k] == t1[k]);
                            assert(has_components(t, c));
                            assert(has_components(before, c));
                            let i = choose|i: int| 0 <= i < before.len() && path_components(#[trigger] before[i].view()) == c;
                            assert(res@[i] == before[i]);
                        } else {
                            assert(res@[before.len() as int] == e);
                        }
                    }
                }
                assert forall|i: int| 0 <= i < res@.len() implies orig.contains(#[trigger] res@[i]) by {
                    if i < before.len() {
                        assert(before[i] == res@[i]);
                    } else {
                        assert(orig[n as int] == e);
                    }
                }
            }
        } else {
            proof {
                assert forall|c: Seq<Seq<char>>| has_components(res@, c) == has_components(t1, c) by {
                    if has_components(t1, c) {
                        let k = choose|k: int| 0 <= k < t1.len() && path_components(#[trigger] t1[k].view()) == c;
                        if k < t.len() {
                            assert(t[k] == t1[k]);
                            assert(has_components(t, c));
                        } else {
                            assert(t1[k] == e);
                        }
                    }
                    if has_components(res@, c) {
                        assert(has_components(t, c));
                        let k = choose|k: int| 0 <= k < t.len() && path_components(#[trigger] t[k].view()) == c;
                        assert(t1[k] == t[k]);
                    }
                }
            }
        }
        n = n + 1;
        proof {
            assert(rest@ =~= orig.skip(n as int));
        }
    }
    proof {
        assert(orig.take(n as int) =~= orig);
    }
    res
}

/// Whether `s` ends with the elements of `t`.
pub open spec fn seq_ends_with(s: Seq<Seq<char>>, t: Seq<Seq<char>>) -> bool {
    t.len() <= s.len() && s.skip(s.len() - t.len()) == t
}

/// Whether the process executable at `exe` may access i2c-dev under the executables `allowed`:
/// its path does not end in a ` (deleted)` component and has the components of one of them.
pub open spec fn i2c_dev_allowed(allowed: Seq<Executable>, exe: Seq<char>) -> bool {
    &&& !seq_ends_with(path_components(exe), path_components(" (deleted)"@))
    &&& exists|i: int|
        0 <= i < allowed.len() && path_components(#[trigger] allowed[i].view()) == path_components(
            exe,
        )
}

/// Whether the texts `a` and `b` hold the same texts.
fn same_texts(a: &Vec<String>, b: &Vec<String>) -> (res: bool)
    ensures
        res == (a@.len() == b@.len() && forall|i: int| 0 <= i < a@.len() ==> #[trigger] a@[i]@ == b@[i]@),
{
    if a.len() != b.len() {
        return false;
    }
    let mut i: usize = 0;
    while i < a.len()
        invariant
            a@.len() == b@.len(),
            i <= a@.len(),
            forall|j: int| 0 <= j < i ==> #[trigger] a@[j]@ == b@[j]@,
        decreases a@.len() - i,
    {
        if a[i] != b[i] {
            return false;
        }
        i = i + 1;
    }
    true
}

impl Permissions {
    /// Whether no two of the executables have the same path components.
    pub open spec fn wf(&self) -> bool {
        distinct_paths(self.i2c_dev_exe_paths@)
    }

    /// Checks whether the process whose executable is at `exe_path` is allowed to access the
    /// i2c-dev device.
    pub fn is_allowed_for_i2c_dev(&self, exe_path: &str) -> (res: bool)
        ensures
            res == i2c_dev_allowed(self.i2c_dev_exe_paths@, exe_path@),
    {
        let comps = components(exe_path);
        let deleted = components(" (deleted)");
        let ghost pc = path_components(exe_path@);
        let ghost pd = path_components(" (deleted)"@);
        let mut suffix = deleted.len() <= comps.len();
        if suffix {
            let n_comps = comps.len();
            let off = comps.len() - deleted.len();
            let mut i: usize = 0;
            while i < deleted.len()
                invariant
                    n_comps == comps@.len(),
                    off + deleted@.len() == comps@.len(),
                    deleted@.len() <= comps@.len(),
                    i <= deleted@.len(),
                    suffix ==> forall|j: int| 0 <= j < i ==> #[trigger] pc[off + j] == pd[j],
                    !suffix ==> !seq_ends_with(pc, pd),
                    comps@.len() == pc.len(),
                    deleted@.len() == pd.len(),
                    forall|j: int| 0 <= j < comps@.len() ==> #[trigger] comps@[j]@ == pc[j],
                    forall|j: int| 0 <= j < deleted@.len() ==> #[trigger] deleted@[j]@ == pd[j],
                decreases deleted@.len() - i,
            {
                if suffix && comps[off + i] != deleted[i] {
                    assert(pc.skip(off as int)[i as int] == pc[off + i]);
                    suffix = false;
                }
                i = i + 1;
            }
            if suffix {
                assert forall|j: int| 0 <= j < pd.len() implies pc.skip(off as int)[j] == pd[j] by {
                    assert(pc[off + j] == pd[j]);
                }
                assert(pc.skip(off as int) =~= pd);
            }
        }
        if suffix {
            return false;
        }
        let mut i: usize = 0;
        while i < self.i2c_dev_exe_paths.len()
            invariant
                i <= self.i2c_dev_exe_paths@.len(),
                comps@.len() == pc.len(),
                !seq_ends_with(pc, pd),
                pc == path_components(exe_path@),
                pd == path_components(" (deleted)"@),
                forall|j: int| 0 <= j < comps@.len() ==> #[trigger] comps@[j]@ == pc[j],
                forall|j: int|
                    0 <= j < i ==> path_components(#[trigger] self.i2c_dev_exe_paths@[j].view())
                        != pc,
            decreases self.i2c_dev_exe_paths@.len() - i,
        {
            let path = self.i2c_dev_exe_paths[i].as_str();
            let allowed = components(path);
            let ghost a = path_components(self.i2c_dev_exe_paths@[i as int].view());
            assert(path@ == self.i2c_dev_exe_paths@[i as int].view());
            assert(a == path_components(path@));
            if same_texts(&allowed, &comps) {
                assert forall|j: int| 0 <= j < a.len() implies a[j] == pc[j] by {
                    assert(allowed@[j]@ == a[j]);
                    assert(comps@[j]@ == pc[j]);
                }
                assert(a =~= pc);
                return true;
            }
            proof {
                let a = path_components(self.i2c_dev_exe_paths@[i as int].view());
                if a == pc {
                    assert forall|j: int| 0 <= j < allowed@.len() implies #[trigger] allowed@[j]@
                        == comps@[j]@ by {}
                }
            }
            i = i + 1;
        }
        false
    }
}

/// Bound target devices on the bus from [`Configs`].
#[derive(Debug)]
pub struct Devices(pub Vec<Device>);

/// Path of the directory of the config files of the TOH with `vendor_id` and `product_id`: the
/// config directory, then the vendor id and the product id, each in four lower case hexadecimal
/// digits.
pub open spec fn config_dir_path(vendor_id: u16, product_id: u16) -> Seq<char> {
    path_join(
        path_join(crate::paths::CONFIG_PATH@, hex_fixed(vendor_id as nat, 4)),
        hex_fixed(product_id as nat, 4),
    )
}

/// Path of the directory of the config files of the TOH with `vendor_id` and `product_id`.
pub fn config_dir(vendor_id: u16, product_id: u16) -> (res: String)
    ensures
        res@ == config_dir_path(vendor_id, product_id),
{
    let mut vendor = String::new();
    push_hex_fixed(&mut vendor, vendor_id as u64, 4);
    let mut product = String::new();
    push_hex_fixed(&mut product, product_id as u64, 4);
    assert(vendor@ =~= hex_fixed(vendor_id as nat, 4));
    assert(product@ =~= hex_fixed(product_id as nat, 4));
    let dir = join_path(crate::paths::CONFIG_PATH, vendor.as_str());
    join_path(dir.as_str(), product.as_str())
}

/// Position of the last `.` in `s`, if there is one.
pub open spec fn last_dot(s: Seq<char>) -> Option<int>
    decreases s.len(),
{
    if s.len() == 0 {
        None
    } else if s.last() == '.' {
        Some(s.len() - 1)
    } else {
        last_dot(s.drop_last())
    }
}

/// The extension of the file name `name`, as `std::path::Path::extension` documents it: the text
/// after the last `.`, where there is a `.` that does not begin the name.
pub open spec fn file_extension(name: Seq<char>) -> Option<Seq<char>> {
    match last_dot(name) {
        Some(i) => if i == 0 {
            None
        } else {
            Some(name.skip(i + 1))
        },
        None => None,
    }
}

/// Whether the file named `name` is a config file: its extension is `yaml`.
pub open spec fn is_config_file(name: Seq<char>) -> bool {
    file_extension(name) == Some(seq!['y', 'a', 'm', 'l'])
}

/// The names among `names` that are config files, in their order.
pub open spec fn config_names(names: Seq<String>) -> Seq<Seq<char>>
    decreases names.len(),
{
    if names.len() == 0 {
        Seq::empty()
    } else if is_config_file(names.last()@) {
        config_names(names.drop_last()).push(names.last()@)
    } else {
        config_names(names.drop_last())
    }
}

/// The order of file names: the order of strings.
pub open spec fn name_le() -> spec_fn(Seq<char>, Seq<char>) -> bool {
    |a: Seq<char>, b: Seq<char>| a == b || key_less(a, b)
}

proof fn lemma_name_le_total()
    ensures
        total_ordering(name_le()),
{
    assert forall|a: Seq<char>, b: Seq<char>| #[trigger] (name_le())(a, b) && (name_le())(b, a)
        implies a == b by {
        if a != b {
            lemma_key_less_asymmetric(a, b);
        }
    }
    assert forall|a: Seq<char>, b: Seq<char>, c: Seq<char>| #[trigger] (name_le())(a, b) && #[trigger] (
    name_le())(b, c) implies (name_le())(a, c) by {
        if a != b && b != c {
            lemma_key_less_transitive(a, b, c);
        }
    }
    assert forall|a: Seq<char>, b: Seq<char>| #[trigger] (name_le())(a, b) || (name_le())(b, a) by {
        lemma_key_less_total(a, b);
    }
}

/// Whether the file named `name` is a config file.
fn config_file(name: &str) -> (res: bool)
    ensures
        res == is_config_file(name@),
{
    let n = name.unicode_len();
    let mut i: usize = n;
    assert(name@.take(n as int) =~= name@);
    while i > 0
        invariant
            i <= n,
            n == name@.len(),
            last_dot(name@) == last_dot(name@.take(i as int)),
        decreases i,
    {
        proof {
            assert(name@.take(i as int).drop_last() =~= name@.take(i - 1));
        }
        if name.get_char(i - 1) == '.' {
            if i - 1 == 0 {
                return false;
            }
            let ext = name.substring_char(i, n);
            proof {
                reveal_strlit("yaml");
                assert("yaml"@ =~= seq!['y', 'a', 'm', 'l']);
            }
            return compare_keys(ext, "yaml") == KeyOrder::Equal;
        }
        i = i - 1;
    }
    false
}

/// The names of the config files among the file names `names` of a config directory, in the
/// order they are read in: the names with extension `yaml`, in the order of strings.
pub fn config_file_names(names: &Vec<String>) -> (res: Vec<String>)
    ensures
        texts(res@) == config_names(names@).sort_by(name_le()),
{
    let mut res: Vec<String> = Vec::new();
    let mut i: usize = 0;
    proof {
        assert(names@.take(0) =~= Seq::<String>::empty());
        assert(texts(res@) =~= Seq::<Seq<char>>::empty());
    }
    while i < names.len()
        invariant
            i <= names@.len(),
            sorted_by(texts(res@), name_le()),
            texts(res@).to_multiset() == config_names(names@.take(i as int)).to_multiset(),
        decreases names@.len() - i,
    {
        proof {
            assert(names@.take(i + 1).drop_last() =~= names@.take(i as int));
            assert(names@.take(i + 1).last() == names@[i as int]);
        }
        let name = &names[i];
        if config_file(name.as_str()) {
            let mut j: usize = 0;
            while j < res.len() && compare_keys(res[j].as_str(), name.as_str()) != KeyOrder::Greater
                invariant
                    j <= res@.len(),
                    forall|k: int| 0 <= k < j ==> (name_le())(#[trigger] res@[k]@, name@),
                decreases res@.len() - j,
            {
                j = j + 1;
            }
            let ghost before = texts(res@);
            res.insert(j, name.clone());
            proof {
                let after = texts(res@);
                assert(after =~= before.insert(j as int, name@));
                assert forall|a: int, b: int| 0 <= a < b < after.len() implies #[trigger] (name_le())(
                    after[a],
                    after[b],
                ) by {
                    if b < j {
                        assert((name_le())(before[a], before[b]));
                    } else if b == j {
                    } else if a < j {
                        assert((name_le())(before[a], before[b - 1]));
                    } else if a == j {
                        assert(key_less(name@, before[j as int]));
                        if b - 1 > j {
                            assert((name_le())(before[j as int], before[b - 1]));
                            if before[j as int] != before[b - 1] {
                                lemma_key_less_transitive(name@, before[j as int], before[b - 1]);
                            }
                        }
                    } else {
                        assert((name_le())(before[a - 1], before[b - 1]));
                    }
                }
                vstd::seq_lib::to_multiset_insert(before, j as int, name@);
                vstd::seq_lib::to_multiset_build(config_names(names@.take(i as int)), name@);
            }
        }
        i = i + 1;
    }
    proof {
        assert(names@.take(i as int) =~= names@);
        lemma_name_le_total();
        config_names(names@).lemma_sort_by_ensures(name_le());
        vstd::seq_lib::lemma_sorted_unique(
            texts(res@),
            config_names(names@).sort_by(name_le()),
            name_le(),
        );
    }
    res
}

} // verus!
