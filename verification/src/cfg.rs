//! The build specification: its data model and the module merge rules.
//!
//! A specification is a set of optional fields.  Merging two specifications
//! adopts a field that only one side carries, unions set-like fields,
//! concatenates the extra-repository list, and fails with a conflict when
//! both sides carry different scalar values for the same field.

use vstd::prelude::*;

verus! {

/// Mathematical model of an extra repository.
pub struct ExtraV {
    pub name: Seq<char>,
    pub key: Seq<char>,
    pub src: Seq<char>,
    pub add: Seq<Seq<char>>,
}

/// Mathematical model of a build specification.
pub struct ConfigV {
    pub arch: Option<Seq<char>>,
    pub dist: Option<Seq<char>>,
    pub archive_areas: Option<Seq<char>>,
    pub recommends: Option<bool>,
    pub apt: Option<Seq<char>>,
    pub includes: Option<Seq<Seq<char>>>,
    pub exclude: Option<Seq<Seq<char>>>,
    pub snaps: Option<Seq<Seq<char>>>,
    pub extras: Option<Seq<ExtraV>>,
    pub keyringer: Option<bool>,
    pub dark_mode: Option<bool>,
    pub de_boot_opts: Option<Seq<char>>,
    pub requires: Option<Seq<Seq<char>>>,
    pub e_service: Option<Seq<Seq<char>>>,
    pub d_service: Option<Seq<Seq<char>>>,
    pub lang: Option<Seq<char>>,
}

/// An extra repository: a named source line with its signing-key URL and
/// the packages to install once the key is in place.
#[derive(Debug)]
pub struct Extra {
    pub name: String,
    pub key: String,
    pub src: String,
    pub add: Vec<String>,
}

impl DeepView for Extra {
    type V = ExtraV;

    open spec fn deep_view(&self) -> ExtraV {
        ExtraV { name: self.name@, key: self.key@, src: self.src@, add: self.add.deep_view() }
    }
}

/// A build specification.  Every field is optional: absence is distinct
/// from an explicit empty collection.
#[derive(Debug)]
pub struct Config {
    pub arch: Option<String>,
    pub dist: Option<String>,
    pub archive_areas: Option<String>,
    pub recommends: Option<bool>,
    pub apt: Option<String>,
    pub includes: Option<Vec<String>>,
    pub exclude: Option<Vec<String>>,
    pub snaps: Option<Vec<String>>,
    pub extras: Option<Vec<Extra>>,
    pub keyringer: Option<bool>,
    pub dark_mode: Option<bool>,
    pub de_boot_opts: Option<String>,
    pub requires: Option<Vec<String>>,
    pub e_service: Option<Vec<String>>,
    pub d_service: Option<Vec<String>>,
    pub lang: Option<String>,
}

impl View for Config {
    type V = ConfigV;

    open spec fn view(&self) -> ConfigV {
        ConfigV {
            arch: self.arch.deep_view(),
            dist: self.dist.deep_view(),
            archive_areas: self.archive_areas.deep_view(),
            recommends: self.recommends,
            apt: self.apt.deep_view(),
            includes: self.includes.deep_view(),
            exclude: self.exclude.deep_view(),
            snaps: self.snaps.deep_view(),
            extras: self.extras.deep_view(),
            keyringer: self.keyringer,
            dark_mode: self.dark_mode,
            de_boot_opts: self.de_boot_opts.deep_view(),
            requires: self.requires.deep_view(),
            e_service: self.e_service.deep_view(),
            d_service: self.d_service.deep_view(),
            lang: self.lang.deep_view(),
        }
    }
}

impl Config {
    /// A specification with every field unset.
    pub fn empty() -> (r: Config)
        ensures
            r@ == empty_config(),
    {
        Config {
            arch: None,
            dist: None,
            archive_areas: None,
            recommends: None,
            apt: None,
            includes: None,
            exclude: None,
            snaps: None,
            extras: None,
            keyringer: None,
            dark_mode: None,
            de_boot_opts: None,
            requires: None,
            e_service: None,
            d_service: None,
            lang: None,
        }
    }
}

/// The model of a specification with every field unset.
pub open spec fn empty_config() -> ConfigV {
    ConfigV {
        arch: None,
        dist: None,
        archive_areas: None,
        recommends: None,
        apt: None,
        includes: None,
        exclude: None,
        snaps: None,
        extras: None,
        keyringer: None,
        dark_mode: None,
        de_boot_opts: None,
        requires: None,
        e_service: None,
        d_service: None,
        lang: None,
    }
}

/// Errors of specification loading and merging.
#[derive(Debug)]
pub enum ConfigError {
    /// A module named in a `requires` set has no entry in the module table.
    NotFound { module: String },
    /// A module requires itself, directly or through other modules.
    Cycle { module: String },
    /// Two sources supply different values for the same scalar field.
    Conflict { field: String, value_a: String, value_b: String, source_module: String },
}

/// Mathematical model of a `ConfigError`.
pub enum ConfigErrV {
    NotFound { module: Seq<char> },
    Cycle { module: Seq<char> },
    Conflict { field: Seq<char>, value_a: Seq<char>, value_b: Seq<char>, source_module: Seq<char> },
}

impl View for ConfigError {
    type V = ConfigErrV;

    open spec fn view(&self) -> ConfigErrV {
        match self {
            ConfigError::NotFound { module } => ConfigErrV::NotFound { module: module@ },
            ConfigError::Cycle { module } => ConfigErrV::Cycle { module: module@ },
            ConfigError::Conflict { field, value_a, value_b, source_module } => {
                ConfigErrV::Conflict {
                    field: field@,
                    value_a: value_a@,
                    value_b: value_b@,
                    source_module: source_module@,
                }
            },
        }
    }
}

/// The text form of a boolean, as it appears in conflict reports and
/// patched config files.
pub open spec fn bool_str(b: bool) -> Seq<char> {
    if b {
        "true"@
    } else {
        "false"@
    }
}

/// Renders a boolean as `"true"` or `"false"`.
pub fn bool_string(b: bool) -> (r: String)
    ensures
        r@ == bool_str(b),
{
    if b {
        "true".to_owned()
    } else {
        "false".to_owned()
    }
}

/// Both sides carry a value and the values differ.
pub open spec fn conflicts<T>(a: Option<T>, b: Option<T>) -> bool {
    a is Some && b is Some && a->0 != b->0
}

/// The first conflicting scalar field of two specifications, with the two
/// offending values in text form, checked in field declaration order.
/// Field names use the spelling of the specification file.
pub open spec fn spec_conflict(a: ConfigV, b: ConfigV) -> Option<(Seq<char>, Seq<char>, Seq<char>)> {
    if conflicts(a.arch, b.arch) {
        Some(("arch"@, a.arch->0, b.arch->0))
    } else if conflicts(a.dist, b.dist) {
        Some(("dist"@, a.dist->0, b.dist->0))
    } else if conflicts(a.archive_areas, b.archive_areas) {
        Some(("archiveAreas"@, a.archive_areas->0, b.archive_areas->0))
    } else if conflicts(a.recommends, b.recommends) {
        Some(("recommends"@, bool_str(a.recommends->0), bool_str(b.recommends->0)))
    } else if conflicts(a.apt, b.apt) {
        Some(("apt"@, a.apt->0, b.apt->0))
    } else if conflicts(a.keyringer, b.keyringer) {
        Some(("keyringer"@, bool_str(a.keyringer->0), bool_str(b.keyringer->0)))
    } else if conflicts(a.dark_mode, b.dark_mode) {
        Some(("darkMode"@, bool_str(a.dark_mode->0), bool_str(b.dark_mode->0)))
    } else if conflicts(a.de_boot_opts, b.de_boot_opts) {
        Some(("deBootOpts"@, a.de_boot_opts->0, b.de_boot_opts->0))
    } else if conflicts(a.lang, b.lang) {
        Some(("lang"@, a.lang->0, b.lang->0))
    } else {
        None
    }
}

/// The two specifications agree on every scalar field they share.
pub open spec fn compatible(a: ConfigV, b: ConfigV) -> bool {
    spec_conflict(a, b) is None
}

/// Merge of one scalar field: the left value wins when both are present
/// (merging is only meaningful when they agree).
pub open spec fn merge_scalar<T>(a: Option<T>, b: Option<T>) -> Option<T> {
    if a is Some {
        a
    } else {
        b
    }
}

/// Union of two name sequences: `x`, then every element of `y` not already
/// seen, first occurrence kept.
pub open spec fn seq_union<T>(x: Seq<T>, y: Seq<T>) -> Seq<T>
    decreases y.len(),
{
    if y.len() == 0 {
        x
    } else {
        let prev = seq_union(x, y.drop_last());
        if prev.contains(y.last()) {
            prev
        } else {
            prev.push(y.last())
        }
    }
}

/// Merge of one set-like field: union when both are present.
pub open spec fn merge_set(a: Option<Seq<Seq<char>>>, b: Option<Seq<Seq<char>>>) -> Option<
    Seq<Seq<char>>,
> {
    if a is Some && b is Some {
        Some(seq_union(a->0, b->0))
    } else if a is Some {
        a
    } else {
        b
    }
}

/// Merge of one array field: concatenation when both are present.
pub open spec fn merge_array<T>(a: Option<Seq<T>>, b: Option<Seq<T>>) -> Option<Seq<T>> {
    if a is Some && b is Some {
        Some(a->0 + b->0)
    } else if a is Some {
        a
    } else {
        b
    }
}

/// Field-wise merge of two compatible specifications.
pub open spec fn spec_merge(a: ConfigV, b: ConfigV) -> ConfigV {
    ConfigV {
        arch: merge_scalar(a.arch, b.arch),
        dist: merge_scalar(a.dist, b.dist),
        archive_areas: merge_scalar(a.archive_areas, b.archive_areas),
        recommends: merge_scalar(a.recommends, b.recommends),
        apt: merge_scalar(a.apt, b.apt),
        includes: merge_set(a.includes, b.includes),
        exclude: merge_set(a.exclude, b.exclude),
        snaps: merge_set(a.snaps, b.snaps),
        extras: merge_array(a.extras, b.extras),
        keyringer: merge_scalar(a.keyringer, b.keyringer),
        dark_mode: merge_scalar(a.dark_mode, b.dark_mode),
        de_boot_opts: merge_scalar(a.de_boot_opts, b.de_boot_opts),
        requires: merge_set(a.requires, b.requires),
        e_service: merge_set(a.e_service, b.e_service),
        d_service: merge_set(a.d_service, b.d_service),
        lang: merge_scalar(a.lang, b.lang),
    }
}

/// Appends a copy of the string `s` to `out`.
pub(crate) fn push_string_clone(out: &mut Vec<String>, s: &String)
    ensures
        final(out).deep_view() == old(out).deep_view().push(s@),
{
    out.push(s.clone());
    proof {
        assert forall|k: int| 0 <= k < out@.len() implies out.deep_view()[k] == old(
            out,
        ).deep_view().push(s@)[k] by {
            if k < out@.len() - 1 {
                assert(out@[k] == old(out)@[k]);
            } else {
                assert(out@[k]@ == s@);
            }
        }
        assert(out.deep_view() =~= old(out).deep_view().push(s@));
    }
}

/// Appends an owned string to `out`.
pub(crate) fn push_string(out: &mut Vec<String>, s: String)
    ensures
        final(out).deep_view() == old(out).deep_view().push(s@),
{
    out.push(s);
    proof {
        assert forall|k: int| 0 <= k < out@.len() implies out.deep_view()[k] == old(
            out,
        ).deep_view().push(s@)[k] by {
            if k < out@.len() - 1 {
                assert(out@[k] == old(out)@[k]);
            }
        }
        assert(out.deep_view() =~= old(out).deep_view().push(s@));
    }
}

/// Appends a copy of the extra repository `e` to `out`.
pub(crate) fn push_extra_clone(out: &mut Vec<Extra>, e: &Extra)
    ensures
        final(out).deep_view() == old(out).deep_view().push(e.deep_view()),
{
    let c = clone_extra(e);
    out.push(c);
    proof {
        assert forall|k: int| 0 <= k < out@.len() implies out.deep_view()[k] == old(
            out,
        ).deep_view().push(e.deep_view())[k] by {
            if k < out@.len() - 1 {
                assert(out@[k] == old(out)@[k]);
            } else {
                assert(out@[k].deep_view() == e.deep_view());
            }
        }
        assert(out.deep_view() =~= old(out).deep_view().push(e.deep_view()));
    }
}

/// Clones a string vector, element for element.
pub(crate) fn clone_string_vec(v: &Vec<String>) -> (r: Vec<String>)
    ensures
        r.deep_view() == v.deep_view(),
{
    let mut r: Vec<String> = Vec::new();
    let mut i: usize = 0;
    while i < v.len()
        invariant
            i <= v@.len(),
            r.deep_view() == v.deep_view().take(i as int),
        decreases v@.len() - i,
    {
        push_string_clone(&mut r, &v[i]);
        i = i + 1;
        proof {
            assert(v.deep_view()[i - 1] == v@[i - 1]@);
            assert(v.deep_view().take(i as int) =~= v.deep_view().take(i - 1).push(
                v.deep_view()[i - 1],
            ));
        }
    }
    proof {
        assert(v.deep_view().take(v@.len() as int) =~= v.deep_view());
    }
    r
}

/// Clones an optional string.
pub(crate) fn clone_opt_string(o: &Option<String>) -> (r: Option<String>)
    ensures
        r.deep_view() == o.deep_view(),
{
    match o {
        Some(s) => Some(s.clone()),
        None => None,
    }
}

/// Clones an optional string vector.
pub(crate) fn clone_opt_string_vec(o: &Option<Vec<String>>) -> (r: Option<Vec<String>>)
    ensures
        r.deep_view() == o.deep_view(),
{
    match o {
        Some(v) => Some(clone_string_vec(v)),
        None => None,
    }
}

/// Clones an extra repository.
pub(crate) fn clone_extra(e: &Extra) -> (r: Extra)
    ensures
        r.deep_view() == e.deep_view(),
{
    Extra {
        name: e.name.clone(),
        key: e.key.clone(),
        src: e.src.clone(),
        add: clone_string_vec(&e.add),
    }
}

/// Clones a vector of extra repositories.
pub(crate) fn clone_extra_vec(v: &Vec<Extra>) -> (r: Vec<Extra>)
    ensures
        r.deep_view() == v.deep_view(),
{
    let mut r: Vec<Extra> = Vec::new();
    let mut i: usize = 0;
    while i < v.len()
        invariant
            i <= v@.len(),
            r.deep_view() == v.deep_view().take(i as int),
        decreases v@.len() - i,
    {
        push_extra_clone(&mut r, &v[i]);
        i = i + 1;
        proof {
            assert(v.deep_view()[i - 1] == v@[i - 1].deep_view());
            assert(v.deep_view().take(i as int) =~= v.deep_view().take(i - 1).push(
                v.deep_view()[i - 1],
            ));
        }
    }
    proof {
        assert(v.deep_view().take(v@.len() as int) =~= v.deep_view());
    }
    r
}

/// Clones a whole specification.
pub fn clone_config(c: &Config) -> (r: Config)
    ensures
        r@ == c@,
{
    Config {
        arch: clone_opt_string(&c.arch),
        dist: clone_opt_string(&c.dist),
        archive_areas: clone_opt_string(&c.archive_areas),
        recommends: c.recommends,
        apt: clone_opt_string(&c.apt),
        includes: clone_opt_string_vec(&c.includes),
        exclude: clone_opt_string_vec(&c.exclude),
        snaps: clone_opt_string_vec(&c.snaps),
        extras: match &c.extras {
            Some(v) => Some(clone_extra_vec(v)),
            None => None,
        },
        keyringer: c.keyringer,
        dark_mode: c.dark_mode,
        de_boot_opts: clone_opt_string(&c.de_boot_opts),
        requires: clone_opt_string_vec(&c.requires),
        e_service: clone_opt_string_vec(&c.e_service),
        d_service: clone_opt_string_vec(&c.d_service),
        lang: clone_opt_string(&c.lang),
    }
}

/// True iff some element of `v` equals `s` as text.
pub(crate) fn contains_string(v: &Vec<String>, s: &String) -> (r: bool)
    ensures
        r == v.deep_view().contains(s@),
{
    let mut i: usize = 0;
    while i < v.len()
        invariant
            i <= v@.len(),
            forall|k: int| 0 <= k < i ==> v.deep_view()[k] != s@,
        decreases v@.len() - i,
    {
        if v[i] == *s {
            proof {
                assert(v.deep_view()[i as int] == s@);
            }
            return true;
        }
        proof {
            assert(v.deep_view()[i as int] == v@[i as int]@);
        }
        i = i + 1;
    }
    proof {
        assert(forall|k: int| 0 <= k < v.deep_view().len() ==> v.deep_view()[k] != s@);
    }
    false
}

/// Union of two string vectors: `x`, then each element of `y` not already
/// present, in order of first occurrence.
pub(crate) fn union_string_vecs(x: &Vec<String>, y: &Vec<String>) -> (r: Vec<String>)
    ensures
        r.deep_view() == seq_union(x.deep_view(), y.deep_view()),
{
    let mut out = clone_string_vec(x);
    let mut j: usize = 0;
    while j < y.len()
        invariant
            j <= y@.len(),
            out.deep_view() == seq_union(x.deep_view(), y.deep_view().take(j as int)),
        decreases y@.len() - j,
    {
        proof {
            assert(y.deep_view().take(j + 1).drop_last() =~= y.deep_view().take(j as int));
            assert(y.deep_view().take(j + 1).last() == y.deep_view()[j as int]);
        }
        proof {
            assert(y.deep_view()[j as int] == y@[j as int]@);
        }
        if !contains_string(&out, &y[j]) {
            push_string_clone(&mut out, &y[j]);
        }
        j = j + 1;
    }
    proof {
        assert(y.deep_view().take(y@.len() as int) =~= y.deep_view());
    }
    out
}

/// The elements of `items` with every repeated element dropped, first
/// occurrence kept.
pub open spec fn spec_dedup(items: Seq<Seq<char>>) -> Seq<Seq<char>>
    decreases items.len(),
{
    if items.len() == 0 {
        Seq::<Seq<char>>::empty()
    } else {
        let prev = spec_dedup(items.drop_last());
        if prev.contains(items.last()) {
            prev
        } else {
            prev.push(items.last())
        }
    }
}

/// Drops every repeated element of `v`, keeping first occurrences, in
/// order.
pub fn dedup_strings(v: &Vec<String>) -> (r: Vec<String>)
    ensures
        r.deep_view() == spec_dedup(v.deep_view()),
{
    let mut out: Vec<String> = Vec::new();
    proof {
        assert(out.deep_view() =~= spec_dedup(v.deep_view().take(0)));
    }
    let mut j: usize = 0;
    while j < v.len()
        invariant
            j <= v@.len(),
            out.deep_view() == spec_dedup(v.deep_view().take(j as int)),
        decreases v@.len() - j,
    {
        proof {
            assert(v.deep_view()[j as int] == v@[j as int]@);
            assert(v.deep_view().take(j + 1).drop_last() =~= v.deep_view().take(j as int));
            assert(v.deep_view().take(j + 1).last() == v.deep_view()[j as int]);
        }
        if !contains_string(&out, &v[j]) {
            push_string_clone(&mut out, &v[j]);
        }
        j = j + 1;
    }
    proof {
        assert(v.deep_view().take(v@.len() as int) =~= v.deep_view());
    }
    out
}

/// Merges one optional scalar string field, left value winning.
pub(crate) fn merge_opt_string(a: &Option<String>, b: &Option<String>) -> (r: Option<String>)
    ensures
        r.deep_view() == merge_scalar(a.deep_view(), b.deep_view()),
{
    match a {
        Some(x) => Some(x.clone()),
        None => clone_opt_string(b),
    }
}

/// Merges one optional set-like field: union when both are present.
pub(crate) fn merge_opt_set(a: &Option<Vec<String>>, b: &Option<Vec<String>>) -> (r: Option<
    Vec<String>,
>)
    ensures
        r.deep_view() == merge_set(a.deep_view(), b.deep_view()),
{
    match (a, b) {
        (Some(x), Some(y)) => Some(union_string_vecs(x, y)),
        (Some(x), None) => Some(clone_string_vec(x)),
        (None, y) => clone_opt_string_vec(y),
    }
}

/// Merges two specifications field by field.  A field present on one side
/// only is adopted; set fields are unioned and the extra-repository lists
/// concatenated; two different scalar values for the same field are a
/// conflict, reported for the first such field in declaration order with
/// an empty source-module tag.
pub fn merge(this_config: &Config, other_config: &Config) -> (r: Result<Config, ConfigError>)
    ensures
        r is Ok <==> compatible(this_config@, other_config@),
        r matches Ok(m) ==> m@ == spec_merge(this_config@, other_config@),
        r matches Err(e) ==> spec_conflict(this_config@, other_config@) matches Some(t) && e@
            == (ConfigErrV::Conflict {
            field: t.0,
            value_a: t.1,
            value_b: t.2,
            source_module: Seq::<char>::empty(),
        }),
{
    let a = this_config;
    let b = other_config;
    if let (Some(x), Some(y)) = (&a.arch, &b.arch) {
        if !(*x == *y) {
            return Err(conflict_error("arch", x.clone(), y.clone()));
        }
    }
    if let (Some(x), Some(y)) = (&a.dist, &b.dist) {
        if !(*x == *y) {
            return Err(conflict_error("dist", x.clone(), y.clone()));
        }
    }
    if let (Some(x), Some(y)) = (&a.archive_areas, &b.archive_areas) {
        if !(*x == *y) {
            return Err(conflict_error("archiveAreas", x.clone(), y.clone()));
        }
    }
    if let (Some(x), Some(y)) = (&a.recommends, &b.recommends) {
        if !(*x == *y) {
            return Err(conflict_error("recommends", bool_string(*x), bool_string(*y)));
        }
    }
    if let (Some(x), Some(y)) = (&a.apt, &b.apt) {
        if !(*x == *y) {
            return Err(conflict_error("apt", x.clone(), y.clone()));
        }
    }
    if let (Some(x), Some(y)) = (&a.keyringer, &b.keyringer) {
        if !(*x == *y) {
            return Err(conflict_error("keyringer", bool_string(*x), bool_string(*y)));
        }
    }
    if let (Some(x), Some(y)) = (&a.dark_mode, &b.dark_mode) {
        if !(*x == *y) {
            return Err(conflict_error("darkMode", bool_string(*x), bool_string(*y)));
        }
    }
    if let (Some(x), Some(y)) = (&a.de_boot_opts, &b.de_boot_opts) {
        if !(*x == *y) {
            return Err(conflict_error("deBootOpts", x.clone(), y.clone()));
        }
    }
    if let (Some(x), Some(y)) = (&a.lang, &b.lang) {
        if !(*x == *y) {
            return Err(conflict_error("lang", x.clone(), y.clone()));
        }
    }
    Ok(merged_fields(a, b))
}

/// Builds the field-wise merge of two specifications, with no conflict
/// checking: the left scalar wins where both sides carry one.
fn merged_fields(a: &Config, b: &Config) -> (r: Config)
    ensures
        r@ == spec_merge(a@, b@),
{
    let merged = Config {
        arch: merge_opt_string(&a.arch, &b.arch),
        dist: merge_opt_string(&a.dist, &b.dist),
        archive_areas: merge_opt_string(&a.archive_areas, &b.archive_areas),
        recommends: if a.recommends.is_some() {
            a.recommends
        } else {
            b.recommends
        },
        apt: merge_opt_string(&a.apt, &b.apt),
        includes: merge_opt_set(&a.includes, &b.includes),
        exclude: merge_opt_set(&a.exclude, &b.exclude),
        snaps: merge_opt_set(&a.snaps, &b.snaps),
        extras: match (&a.extras, &b.extras) {
            (Some(x), Some(y)) => {
                let mut xs = clone_extra_vec(x);
                let mut ys = clone_extra_vec(y);
                xs.append(&mut ys);
                proof {
                    assert(xs.deep_view() =~= a.extras.deep_view()->0 + b.extras.deep_view()->0);
                }
                Some(xs)
            },
            (Some(x), None) => Some(clone_extra_vec(x)),
            (None, Some(y)) => Some(clone_extra_vec(y)),
            (None, None) => None,
        },
        keyringer: if a.keyringer.is_some() {
            a.keyringer
        } else {
            b.keyringer
        },
        dark_mode: if a.dark_mode.is_some() {
            a.dark_mode
        } else {
            b.dark_mode
        },
        de_boot_opts: merge_opt_string(&a.de_boot_opts, &b.de_boot_opts),
        requires: merge_opt_set(&a.requires, &b.requires),
        e_service: merge_opt_set(&a.e_service, &b.e_service),
        d_service: merge_opt_set(&a.d_service, &b.d_service),
        lang: merge_opt_string(&a.lang, &b.lang),
    };
    merged
}

/// Builds the conflict error for one scalar field, with no source module
/// recorded yet.
fn conflict_error(field: &str, value_a: String, value_b: String) -> (r: ConfigError)
    ensures
        r@ == (ConfigErrV::Conflict {
            field: field@,
            value_a: value_a@,
            value_b: value_b@,
            source_module: Seq::<char>::empty(),
        }),
{
    ConfigError::Conflict {
        field: field.to_owned(),
        value_a,
        value_b,
        source_module: String::new(),
    }
}

/// What `add` returns: the merge of the two specifications, with a
/// conflict blamed on the named source module.
pub open spec fn spec_add_cfg(a: ConfigV, name: Seq<char>, b: ConfigV) -> Result<
    ConfigV,
    ConfigErrV,
> {
    match spec_conflict(a, b) {
        Some(t) => Err(
            ConfigErrV::Conflict { field: t.0, value_a: t.1, value_b: t.2, source_module: name },
        ),
        None => Ok(spec_merge(a, b)),
    }
}

/// Merges the specification of the module `source_module` into
/// `this_config`; a conflict is blamed on that module.
pub fn add(this_config: &Config, source_module: &str, other: &Config) -> (r: Result<
    Config,
    ConfigError,
>)
    ensures
        r matches Ok(m) ==> spec_add_cfg(this_config@, source_module@, other@) matches Ok(mv)
            && m@ == mv,
        r matches Err(e) ==> spec_add_cfg(this_config@, source_module@, other@) matches Err(ev)
            && e@ == ev,
{
    match merge(this_config, other) {
        Ok(m) => Ok(m),
        Err(e) => {
            match e {
                ConfigError::Conflict { field, value_a, value_b, source_module: _ } => {
                    Err(
                        ConfigError::Conflict {
                            field,
                            value_a,
                            value_b,
                            source_module: source_module.to_owned(),
                        },
                    )
                },
                other_err => Err(other_err),
            }
        },
    }
}

/// The set of texts an element sequence covers.
pub proof fn lemma_seq_union_to_set<T>(x: Seq<T>, y: Seq<T>)
    ensures
        seq_union(x, y).to_set() == x.to_set().union(y.to_set()),
    decreases y.len(),
{
    broadcast use vstd::seq_lib::group_seq_properties;

    if y.len() == 0 {
        assert(y.to_set() =~= Set::<T>::empty());
        assert(seq_union(x, y).to_set() =~= x.to_set().union(y.to_set()));
    } else {
        lemma_seq_union_to_set(x, y.drop_last());
        let prev = seq_union(x, y.drop_last());
        assert(y.to_set() =~= y.drop_last().to_set().insert(y.last()));
        if prev.contains(y.last()) {
            assert(prev.to_set().contains(y.last()));
            assert(seq_union(x, y).to_set() =~= x.to_set().union(y.to_set()));
        } else {
            assert(prev.push(y.last()).to_set() =~= prev.to_set().insert(y.last()));
            assert(seq_union(x, y).to_set() =~= x.to_set().union(y.to_set()));
        }
    }
}

/// Union keeps elements distinct when the left side is distinct.
pub proof fn lemma_seq_union_no_duplicates<T>(x: Seq<T>, y: Seq<T>)
    requires
        x.no_duplicates(),
    ensures
        seq_union(x, y).no_duplicates(),
    decreases y.len(),
{
    broadcast use vstd::seq_lib::group_seq_properties;

    if y.len() > 0 {
        lemma_seq_union_no_duplicates(x, y.drop_last());
    }
}

/// Merging is commutative for compatible specifications: the two merge
/// orders agree on every scalar field, cover the same sets for every
/// set-like field, and carry the same extra repositories up to order.
pub proof fn lemma_merge_commutative(a: ConfigV, b: ConfigV)
    requires
        compatible(a, b),
    ensures
        compatible(b, a),
        spec_merge(a, b).arch == spec_merge(b, a).arch,
        spec_merge(a, b).dist == spec_merge(b, a).dist,
        spec_merge(a, b).archive_areas == spec_merge(b, a).archive_areas,
        spec_merge(a, b).recommends == spec_merge(b, a).recommends,
        spec_merge(a, b).apt == spec_merge(b, a).apt,
        spec_merge(a, b).keyringer == spec_merge(b, a).keyringer,
        spec_merge(a, b).dark_mode == spec_merge(b, a).dark_mode,
        spec_merge(a, b).de_boot_opts == spec_merge(b, a).de_boot_opts,
        spec_merge(a, b).lang == spec_merge(b, a).lang,
        set_field_commutes(spec_merge(a, b).includes, spec_merge(b, a).includes),
        set_field_commutes(spec_merge(a, b).exclude, spec_merge(b, a).exclude),
        set_field_commutes(spec_merge(a, b).snaps, spec_merge(b, a).snaps),
        set_field_commutes(spec_merge(a, b).requires, spec_merge(b, a).requires),
        set_field_commutes(spec_merge(a, b).e_service, spec_merge(b, a).e_service),
        set_field_commutes(spec_merge(a, b).d_service, spec_merge(b, a).d_service),
        array_field_commutes(spec_merge(a, b).extras, spec_merge(b, a).extras),
{
    if a.includes is Some && b.includes is Some {
        lemma_seq_union_to_set(a.includes->0, b.includes->0);
        lemma_seq_union_to_set(b.includes->0, a.includes->0);
        assert(seq_union(a.includes->0, b.includes->0).to_set() =~= seq_union(
            b.includes->0,
            a.includes->0,
        ).to_set());
    }
    if a.exclude is Some && b.exclude is Some {
        lemma_seq_union_to_set(a.exclude->0, b.exclude->0);
        lemma_seq_union_to_set(b.exclude->0, a.exclude->0);
        assert(seq_union(a.exclude->0, b.exclude->0).to_set() =~= seq_union(
            b.exclude->0,
            a.exclude->0,
        ).to_set());
    }
    if a.snaps is Some && b.snaps is Some {
        lemma_seq_union_to_set(a.snaps->0, b.snaps->0);
        lemma_seq_union_to_set(b.snaps->0, a.snaps->0);
        assert(seq_union(a.snaps->0, b.snaps->0).to_set() =~= seq_union(
            b.snaps->0,
            a.snaps->0,
        ).to_set());
    }
    if a.requires is Some && b.requires is Some {
        lemma_seq_union_to_set(a.requires->0, b.requires->0);
        lemma_seq_union_to_set(b.requires->0, a.requires->0);
        assert(seq_union(a.requires->0, b.requires->0).to_set() =~= seq_union(
            b.requires->0,
            a.requires->0,
        ).to_set());
    }
    if a.e_service is Some && b.e_service is Some {
        lemma_seq_union_to_set(a.e_service->0, b.e_service->0);
        lemma_seq_union_to_set(b.e_service->0, a.e_service->0);
        assert(seq_union(a.e_service->0, b.e_service->0).to_set() =~= seq_union(
            b.e_service->0,
            a.e_service->0,
        ).to_set());
    }
    if a.d_service is Some && b.d_service is Some {
        lemma_seq_union_to_set(a.d_service->0, b.d_service->0);
        lemma_seq_union_to_set(b.d_service->0, a.d_service->0);
        assert(seq_union(a.d_service->0, b.d_service->0).to_set() =~= seq_union(
            b.d_service->0,
            a.d_service->0,
        ).to_set());
    }
    if a.extras is Some && b.extras is Some {
        vstd::seq_lib::lemma_seq_union_to_multiset_commutative(a.extras->0, b.extras->0);
    }
}

/// Merging is associative for compatible specifications: merging `c`
/// into the merge of `a` and `b` agrees, field for field, with merging
/// the merge of `b` and `c` into `a`, the sets as sets and the extra
/// repositories up to order; and neither grouping meets a conflict.
pub proof fn lemma_merge_associative(a: ConfigV, b: ConfigV, c: ConfigV)
    requires
        compatible(a, b),
        compatible(spec_merge(a, b), c),
    ensures
        compatible(b, c),
        compatible(a, spec_merge(b, c)),
        spec_merge(spec_merge(a, b), c).arch == spec_merge(a, spec_merge(b, c)).arch,
        spec_merge(spec_merge(a, b), c).dist == spec_merge(a, spec_merge(b, c)).dist,
        spec_merge(spec_merge(a, b), c).archive_areas == spec_merge(
            a,
            spec_merge(b, c),
        ).archive_areas,
        spec_merge(spec_merge(a, b), c).recommends == spec_merge(a, spec_merge(b, c)).recommends,
        spec_merge(spec_merge(a, b), c).apt == spec_merge(a, spec_merge(b, c)).apt,
        spec_merge(spec_merge(a, b), c).keyringer == spec_merge(a, spec_merge(b, c)).keyringer,
        spec_merge(spec_merge(a, b), c).dark_mode == spec_merge(a, spec_merge(b, c)).dark_mode,
        spec_merge(spec_merge(a, b), c).de_boot_opts == spec_merge(
            a,
            spec_merge(b, c),
        ).de_boot_opts,
        spec_merge(spec_merge(a, b), c).lang == spec_merge(a, spec_merge(b, c)).lang,
        set_field_commutes(
            spec_merge(spec_merge(a, b), c).includes,
            spec_merge(a, spec_merge(b, c)).includes,
        ),
        set_field_commutes(
            spec_merge(spec_merge(a, b), c).exclude,
            spec_merge(a, spec_merge(b, c)).exclude,
        ),
        set_field_commutes(
            spec_merge(spec_merge(a, b), c).snaps,
            spec_merge(a, spec_merge(b, c)).snaps,
        ),
        set_field_commutes(
            spec_merge(spec_merge(a, b), c).requires,
            spec_merge(a, spec_merge(b, c)).requires,
        ),
        set_field_commutes(
            spec_merge(spec_merge(a, b), c).e_service,
            spec_merge(a, spec_merge(b, c)).e_service,
        ),
        set_field_commutes(
            spec_merge(spec_merge(a, b), c).d_service,
            spec_merge(a, spec_merge(b, c)).d_service,
        ),
        array_field_commutes(
            spec_merge(spec_merge(a, b), c).extras,
            spec_merge(a, spec_merge(b, c)).extras,
        ),
{
    if a.includes is Some && b.includes is Some && c.includes is Some {
        lemma_union_to_set_assoc(a.includes->0, b.includes->0, c.includes->0);
    }
    if a.exclude is Some && b.exclude is Some && c.exclude is Some {
        lemma_union_to_set_assoc(a.exclude->0, b.exclude->0, c.exclude->0);
    }
    if a.snaps is Some && b.snaps is Some && c.snaps is Some {
        lemma_union_to_set_assoc(a.snaps->0, b.snaps->0, c.snaps->0);
    }
    if a.requires is Some && b.requires is Some && c.requires is Some {
        lemma_union_to_set_assoc(a.requires->0, b.requires->0, c.requires->0);
    }
    if a.e_service is Some && b.e_service is Some && c.e_service is Some {
        lemma_union_to_set_assoc(a.e_service->0, b.e_service->0, c.e_service->0);
    }
    if a.d_service is Some && b.d_service is Some && c.d_service is Some {
        lemma_union_to_set_assoc(a.d_service->0, b.d_service->0, c.d_service->0);
    }
    if a.extras is Some && b.extras is Some && c.extras is Some {
        let x = a.extras->0;
        let y = b.extras->0;
        let z = c.extras->0;
        vstd::seq_lib::lemma_multiset_commutative(x, y);
        vstd::seq_lib::lemma_multiset_commutative(x + y, z);
        vstd::seq_lib::lemma_multiset_commutative(y, z);
        vstd::seq_lib::lemma_multiset_commutative(x, y + z);
        assert(((x + y) + z).to_multiset() =~= (x + (y + z)).to_multiset());
    }
}

/// Both groupings of a three-way union cover the same set.
proof fn lemma_union_to_set_assoc<T>(x: Seq<T>, y: Seq<T>, z: Seq<T>)
    ensures
        seq_union(seq_union(x, y), z).to_set() == seq_union(x, seq_union(y, z)).to_set(),
{
    lemma_seq_union_to_set(x, y);
    lemma_seq_union_to_set(seq_union(x, y), z);
    lemma_seq_union_to_set(y, z);
    lemma_seq_union_to_set(x, seq_union(y, z));
    assert(seq_union(seq_union(x, y), z).to_set() =~= seq_union(x, seq_union(y, z)).to_set());
}

/// Two optional set fields agree: same presence, covering the same set.
pub open spec fn set_field_commutes(p: Option<Seq<Seq<char>>>, q: Option<Seq<Seq<char>>>) -> bool {
    &&& p is Some <==> q is Some
    &&& p matches Some(s) ==> q matches Some(t) && s.to_set() == t.to_set()
}

/// Two optional array fields agree: same presence, same elements counted
/// with multiplicity.
pub open spec fn array_field_commutes(p: Option<Seq<ExtraV>>, q: Option<Seq<ExtraV>>) -> bool {
    &&& p is Some <==> q is Some
    &&& p matches Some(s) ==> q matches Some(t) && s.to_multiset() == t.to_multiset()
}

} // verus!
