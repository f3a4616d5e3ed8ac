//! The apply pipeline: from a resolved specification to the exact edits
//! and hook texts that materialize the builder's configuration tree.
//!
//! Planning is pure: `plan_apply` turns a resolved specification into a
//! `Plan` that lists every setting to patch, every source line and staged
//! key, and every hook text to write.  The caller carries the plan out;
//! a specification that must be rejected yields an error before anything
//! is written.

use vstd::prelude::*;

use crate::cfg::bool_str;
use crate::cfg::bool_string;
use crate::cfg::clone_string_vec;
use crate::cfg::dedup_strings;
use crate::cfg::push_string;
use crate::cfg::push_string_clone;
use crate::cfg::spec_dedup;
use crate::cfg::Config;
use crate::cfg::ConfigError;
use crate::cfg::ConfigErrV;
use crate::cfg::ConfigV;
use crate::cfg::Extra;
use crate::cfg::ExtraV;
use crate::text::app_str;
use crate::text::from_chars;
use crate::text::to_chars;

verus! {

/// Returns its argument as an owned `String`.
pub fn s(_s: &str) -> (r: String)
    ensures
        r@ == _s@,
{
    _s.to_owned()
}

/// Errors of the apply pipeline.
#[derive(Debug)]
pub enum BuildError {
    /// An extra repository bears a name the pipeline reserves for its own
    /// assets.
    ReservedNameConflict { name: String },
    /// The specification asks for something the pipeline does not
    /// support.
    UnimplementedFeature { feature: String },
    /// A signing key could not be fetched.
    KeyFetchFailure { url: String },
    /// An external tool exited with a failure.
    ExternalToolFailure { tool: String, exit_code: i32 },
    /// The specification itself could not be resolved.
    Config(ConfigError),
}

/// Mathematical model of a `BuildError`.
pub enum BuildErrV {
    ReservedNameConflict { name: Seq<char> },
    UnimplementedFeature { feature: Seq<char> },
    KeyFetchFailure { url: Seq<char> },
    ExternalToolFailure { tool: Seq<char>, exit_code: i32 },
    Config(ConfigErrV),
}

impl View for BuildError {
    type V = BuildErrV;

    open spec fn view(&self) -> BuildErrV {
        match self {
            BuildError::ReservedNameConflict { name } => BuildErrV::ReservedNameConflict {
                name: name@,
            },
            BuildError::UnimplementedFeature { feature } => BuildErrV::UnimplementedFeature {
                feature: feature@,
            },
            BuildError::KeyFetchFailure { url } => BuildErrV::KeyFetchFailure { url: url@ },
            BuildError::ExternalToolFailure { tool, exit_code } => BuildErrV::ExternalToolFailure {
                tool: tool@,
                exit_code: *exit_code,
            },
            BuildError::Config(e) => BuildErrV::Config(e@),
        }
    }
}

/// One `KEY="value"` setting to patch into a config file.
#[derive(Debug)]
pub struct Setting {
    pub key: String,
    pub value: String,
}

impl DeepView for Setting {
    type V = (Seq<char>, Seq<char>);

    open spec fn deep_view(&self) -> (Seq<char>, Seq<char>) {
        (self.key@, self.value@)
    }
}

/// Everything one extra repository contributes to the tree: its source
/// line, where that line goes, and where its fetched key is staged.
#[derive(Debug)]
pub struct RepoAdd {
    pub name: String,
    pub line: String,
    pub list_path: String,
    pub key_url: String,
    pub key_path: String,
}

/// Mathematical model of a `RepoAdd`.
pub struct RepoAddV {
    pub name: Seq<char>,
    pub line: Seq<char>,
    pub list_path: Seq<char>,
    pub key_url: Seq<char>,
    pub key_path: Seq<char>,
}

impl DeepView for RepoAdd {
    type V = RepoAddV;

    open spec fn deep_view(&self) -> RepoAddV {
        RepoAddV {
            name: self.name@,
            line: self.line@,
            list_path: self.list_path@,
            key_url: self.key_url@,
            key_path: self.key_path@,
        }
    }
}

/// The full set of edits and hook texts that applying a specification
/// comes to.  Settings patch `config/bootstrap` and `config/common`;
/// paths are relative to the build directory.
#[derive(Debug)]
pub struct Plan {
    pub dist: String,
    pub bootstrap_settings: Vec<Setting>,
    pub common_settings: Vec<Setting>,
    pub repo_adds: Vec<RepoAdd>,
    pub keyrings: Vec<Setting>,
    pub keyringer_assets: bool,
    pub theme_hook: Option<String>,
    pub snap_packages: Vec<String>,
    pub snap_cache_dir: String,
    pub snap_hook: Option<String>,
    pub services_hook: Option<String>,
    pub apt_install_hook: Option<String>,
    pub package_list: String,
}

/// Mathematical model of a `Plan`.
pub struct PlanV {
    pub dist: Seq<char>,
    pub bootstrap_settings: Seq<(Seq<char>, Seq<char>)>,
    pub common_settings: Seq<(Seq<char>, Seq<char>)>,
    pub repo_adds: Seq<RepoAddV>,
    pub keyrings: Seq<(Seq<char>, Seq<char>)>,
    pub keyringer_assets: bool,
    pub theme_hook: Option<Seq<char>>,
    pub snap_packages: Seq<Seq<char>>,
    pub snap_cache_dir: Seq<char>,
    pub snap_hook: Option<Seq<char>>,
    pub services_hook: Option<Seq<char>>,
    pub apt_install_hook: Option<Seq<char>>,
    pub package_list: Seq<char>,
}

impl View for Plan {
    type V = PlanV;

    open spec fn view(&self) -> PlanV {
        PlanV {
            dist: self.dist@,
            bootstrap_settings: self.bootstrap_settings.deep_view(),
            common_settings: self.common_settings.deep_view(),
            repo_adds: self.repo_adds.deep_view(),
            keyrings: self.keyrings.deep_view(),
            keyringer_assets: self.keyringer_assets,
            theme_hook: self.theme_hook.deep_view(),
            snap_packages: self.snap_packages.deep_view(),
            snap_cache_dir: self.snap_cache_dir@,
            snap_hook: self.snap_hook.deep_view(),
            services_hook: self.services_hook.deep_view(),
            apt_install_hook: self.apt_install_hook.deep_view(),
            package_list: self.package_list@,
        }
    }
}

/// A scalar field's value, or its fixed default.
pub open spec fn str_or(o: Option<Seq<char>>, d: Seq<char>) -> Seq<char> {
    if o is Some {
        o->0
    } else {
        d
    }
}

/// A set field's entries, or none.
pub open spec fn seq_or_empty(o: Option<Seq<Seq<char>>>) -> Seq<Seq<char>> {
    if o is Some {
        o->0
    } else {
        Seq::<Seq<char>>::empty()
    }
}

/// The distribution the builder is configured for.
pub open spec fn dist_of(c: ConfigV) -> Seq<char> {
    str_or(c.dist, "bookworm"@)
}

/// The target architecture.
pub open spec fn arch_of(c: ConfigV) -> Seq<char> {
    str_or(c.arch, "amd64"@)
}

/// The archive areas the image draws from.
pub open spec fn areas_of(c: ConfigV) -> Seq<char> {
    str_or(c.archive_areas, "main contrib non-free non-free-firmware"@)
}

/// The package manager the image uses.
pub open spec fn apt_of(c: ConfigV) -> Seq<char> {
    str_or(c.apt, "apt"@)
}

/// Whether recommended packages are installed; on by default.
pub open spec fn recommends_of(c: ConfigV) -> bool {
    if c.recommends is Some {
        c.recommends->0
    } else {
        true
    }
}

/// Whether the keyring-agent assets are materialized; on by default.
pub open spec fn keyringer_of(c: ConfigV) -> bool {
    if c.keyringer is Some {
        c.keyringer->0
    } else {
        true
    }
}

/// The extra repositories, or none.
pub open spec fn extras_of(c: ConfigV) -> Seq<ExtraV> {
    if c.extras is Some {
        c.extras->0
    } else {
        Seq::<ExtraV>::empty()
    }
}

/// The baseline entries always merged into the debootstrap `--include=`
/// list.
pub open spec fn baseline_entries() -> Seq<Seq<char>> {
    seq!["apt-transport-https"@, "ca-certificates,openssl"@]
}

/// A repository name the pipeline keeps for its own assets: an extra
/// repository may not use it.
pub open spec fn is_reserved(name: Seq<char>) -> bool {
    name == "keyringer"@
}

/// The name of the first extra repository that bears a reserved name, at
/// position `i` or later.
pub open spec fn first_reserved_from(extras: Seq<ExtraV>, i: int) -> Option<Seq<char>>
    decreases extras.len() - i,
    when i >= 0
{
    if i >= extras.len() {
        None
    } else if is_reserved(extras[i].name) {
        Some(extras[i].name)
    } else {
        first_reserved_from(extras, i + 1)
    }
}

/// The name of the first extra repository that bears a reserved name.
pub open spec fn first_reserved(extras: Seq<ExtraV>) -> Option<Seq<char>> {
    first_reserved_from(extras, 0)
}

/// The specification asks for package exclusion.
pub open spec fn exclusion_requested(c: ConfigV) -> bool {
    c.exclude matches Some(x) && x.len() > 0
}

/// The source line of one extra repository, pinned to the architecture
/// and to the key the keyring directory will hold under the repository's
/// name.
pub open spec fn spec_repo_line(arch: Seq<char>, x: ExtraV) -> Seq<char> {
    "deb [arch="@ + arch + " signed-by=/etc/apt/keyrings/"@ + x.name + ".gpg] "@ + x.src
}

/// Everything one extra repository contributes, as a model value.
pub open spec fn spec_repo_add(arch: Seq<char>, x: ExtraV) -> RepoAddV {
    RepoAddV {
        name: x.name,
        line: spec_repo_line(arch, x),
        list_path: "config/includes.chroot_after_packages/etc/apt/sources.list.d/"@ + x.name
            + ".list"@,
        key_url: x.key,
        key_path: "config/includes.chroot_after_packages/tmp/apt-keyrings-cache-debr/"@ + x.name
            + ".gpg"@,
    }
}

/// The contributions of all extra repositories, in order.
pub open spec fn spec_repo_adds(arch: Seq<char>, extras: Seq<ExtraV>) -> Seq<RepoAddV> {
    Seq::new(extras.len(), |i: int| spec_repo_add(arch, extras[i]))
}

/// The keyring map: each extra repository's name paired with its key URL.
pub open spec fn spec_keyrings(extras: Seq<ExtraV>) -> Seq<(Seq<char>, Seq<char>)> {
    Seq::new(extras.len(), |i: int| (extras[i].name, extras[i].key))
}

/// The packages the extra repositories schedule for the apt-install
/// hook, in order, flattened.
pub open spec fn spec_all_adds(extras: Seq<ExtraV>) -> Seq<Seq<char>>
    decreases extras.len(),
{
    if extras.len() == 0 {
        Seq::<Seq<char>>::empty()
    } else {
        spec_all_adds(extras.drop_last()) + extras.last().add
    }
}

/// The service units enabled before the user's own requests: the
/// keyring-agent units when its assets are materialized, the one-shot
/// snap installer when snaps are requested.
pub open spec fn spec_e_services(c: ConfigV) -> Seq<Seq<char>> {
    spec_dedup(
        (if keyringer_of(c) {
            seq!["keyringer.service"@, "keyringer.timer"@]
        } else {
            Seq::<Seq<char>>::empty()
        }) + (if spec_dedup(seq_or_empty(c.snaps)).len() > 0 {
            seq!["snapd_installer.service"@]
        } else {
            Seq::<Seq<char>>::empty()
        }) + seq_or_empty(c.e_service),
    )
}

/// The service units to disable.
pub open spec fn spec_d_services(c: ConfigV) -> Seq<Seq<char>> {
    spec_dedup(seq_or_empty(c.d_service))
}

/// The package list written for the installer: `pkg-config` when the
/// keyring agent ships, then the specification's own entries, without
/// duplicates.
pub open spec fn spec_package_list(c: ConfigV) -> Seq<Seq<char>> {
    spec_dedup(
        (if keyringer_of(c) {
            seq!["pkg-config"@]
        } else {
            Seq::<Seq<char>>::empty()
        }) + seq_or_empty(c.includes),
    )
}

/// The items joined with newlines.
pub open spec fn join_lines(items: Seq<Seq<char>>) -> Seq<char>
    decreases items.len(),
{
    if items.len() == 0 {
        Seq::<char>::empty()
    } else if items.len() == 1 {
        items[0]
    } else {
        join_lines(items.drop_last()) + seq!['\n'] + items.last()
    }
}

/// The cache directory the snap installer works from.
pub open spec fn snap_cache_dir_spec() -> Seq<char> {
    "/tmp/snap-cache-debr"@
}

/// The whole plan a well-formed specification comes to.
pub open spec fn spec_plan(c: ConfigV) -> PlanV {
    let snaps = spec_dedup(seq_or_empty(c.snaps));
    let adds = spec_dedup(spec_all_adds(extras_of(c)));
    let e_svc = spec_e_services(c);
    let d_svc = spec_d_services(c);
    PlanV {
        dist: dist_of(c),
        bootstrap_settings: seq![
            ("LB_ARCHITECTURE"@, arch_of(c)),
            ("LB_ARCHIVE_AREAS"@, areas_of(c)),
            ("LB_PARENT_ARCHIVE_AREAS"@, areas_of(c)),
        ],
        common_settings: seq![
            ("LB_APT"@, apt_of(c)),
            ("LB_APT_RECOMMENDS"@, bool_str(recommends_of(c))),
            (
                "DEBOOTSTRAP_OPTIONS"@,
                crate::deboot::spec_parse(str_or(c.de_boot_opts, ""@), baseline_entries()),
            ),
        ],
        repo_adds: spec_repo_adds(arch_of(c), extras_of(c)),
        keyrings: spec_keyrings(extras_of(c)),
        keyringer_assets: keyringer_of(c),
        theme_hook: if c.dark_mode == Some(true) {
            Some(crate::hooks::spec_gnome_dark_hook())
        } else {
            None
        },
        snap_packages: snaps,
        snap_cache_dir: snap_cache_dir_spec(),
        snap_hook: if snaps.len() > 0 {
            Some(crate::hooks::spec_snap_install_hook(snaps, snap_cache_dir_spec()))
        } else {
            None
        },
        services_hook: if e_svc.len() > 0 || d_svc.len() > 0 {
            Some(crate::hooks::spec_gen_services_hook(e_svc, d_svc))
        } else {
            None
        },
        apt_install_hook: if adds.len() > 0 {
            Some(crate::hooks::spec_gen_apt_install_hook(adds))
        } else {
            None
        },
        package_list: join_lines(spec_package_list(c)),
    }
}

/// A scalar field's value, or the given default.
fn str_or_x(o: &Option<String>, d: &str) -> (r: String)
    ensures
        r@ == str_or(o.deep_view(), d@),
{
    match o {
        Some(x) => x.clone(),
        None => d.to_owned(),
    }
}

/// A set field's entries, or an empty vector.
fn seq_or_empty_x(o: &Option<Vec<String>>) -> (r: Vec<String>)
    ensures
        r.deep_view() == seq_or_empty(o.deep_view()),
{
    match o {
        Some(v) => clone_string_vec(v),
        None => {
            let r: Vec<String> = Vec::new();
            proof {
                assert(r.deep_view() =~= Seq::<Seq<char>>::empty());
            }
            r
        },
    }
}

/// Appends the clones of all elements of `v` onto `out`.
fn extend_strings(out: &mut Vec<String>, v: &Vec<String>)
    ensures
        final(out).deep_view() == old(out).deep_view() + v.deep_view(),
{
    proof {
        assert(out.deep_view() =~= out.deep_view() + v.deep_view().take(0));
    }
    let mut i: usize = 0;
    while i < v.len()
        invariant
            i <= v@.len(),
            out.deep_view() == old(out).deep_view() + v.deep_view().take(i as int),
        decreases v@.len() - i,
    {
        proof {
            assert(v.deep_view()[i as int] == v@[i as int]@);
        }
        push_string_clone(out, &v[i]);
        i = i + 1;
        proof {
            assert(out.deep_view() =~= old(out).deep_view() + v.deep_view().take(i as int));
        }
    }
    proof {
        assert(v.deep_view().take(v@.len() as int) =~= v.deep_view());
    }
}

/// Appends a setting to `out`.
pub(crate) fn push_setting(out: &mut Vec<Setting>, st: Setting)
    ensures
        final(out).deep_view() == old(out).deep_view().push(st.deep_view()),
{
    out.push(st);
    proof {
        assert forall|k: int| 0 <= k < out@.len() implies out.deep_view()[k] == old(
            out,
        ).deep_view().push(st.deep_view())[k] by {
            if k < out@.len() - 1 {
                assert(out@[k] == old(out)@[k]);
            }
        }
        assert(out.deep_view() =~= old(out).deep_view().push(st.deep_view()));
    }
}

/// Appends a repository contribution to `out`.
fn push_repo(out: &mut Vec<RepoAdd>, r: RepoAdd)
    ensures
        final(out).deep_view() == old(out).deep_view().push(r.deep_view()),
{
    out.push(r);
    proof {
        assert forall|k: int| 0 <= k < out@.len() implies out.deep_view()[k] == old(
            out,
        ).deep_view().push(r.deep_view())[k] by {
            if k < out@.len() - 1 {
                assert(out@[k] == old(out)@[k]);
            }
        }
        assert(out.deep_view() =~= old(out).deep_view().push(r.deep_view()));
    }
}

/// Builds the source line of one extra repository.
fn repo_line_for(arch: &String, x: &Extra) -> (r: String)
    ensures
        r@ == spec_repo_line(arch@, x.deep_view()),
{
    let mut out: Vec<char> = Vec::new();
    app_str(&mut out, "deb [arch=");
    app_str(&mut out, arch.as_str());
    app_str(&mut out, " signed-by=/etc/apt/keyrings/");
    app_str(&mut out, x.name.as_str());
    app_str(&mut out, ".gpg] ");
    app_str(&mut out, x.src.as_str());
    proof {
        assert(out@ =~= spec_repo_line(arch@, x.deep_view()));
    }
    from_chars(&out)
}

/// Builds everything one extra repository contributes.
fn repo_add_for(arch: &String, x: &Extra) -> (r: RepoAdd)
    ensures
        r.deep_view() == spec_repo_add(arch@, x.deep_view()),
{
    let line = repo_line_for(arch, x);
    let mut lp: Vec<char> = Vec::new();
    app_str(&mut lp, "config/includes.chroot_after_packages/etc/apt/sources.list.d/");
    app_str(&mut lp, x.name.as_str());
    app_str(&mut lp, ".list");
    let mut kp: Vec<char> = Vec::new();
    app_str(&mut kp, "config/includes.chroot_after_packages/tmp/apt-keyrings-cache-debr/");
    app_str(&mut kp, x.name.as_str());
    app_str(&mut kp, ".gpg");
    let r = RepoAdd {
        name: x.name.clone(),
        line,
        list_path: from_chars(&lp),
        key_url: x.key.clone(),
        key_path: from_chars(&kp),
    };
    proof {
        assert(r.deep_view().list_path =~= spec_repo_add(arch@, x.deep_view()).list_path);
        assert(r.deep_view().key_path =~= spec_repo_add(arch@, x.deep_view()).key_path);
    }
    r
}

/// Builds the contributions of all extra repositories, in order.
fn repo_adds_for(arch: &String, extras: &Vec<Extra>) -> (r: Vec<RepoAdd>)
    ensures
        r.deep_view() == spec_repo_adds(arch@, extras.deep_view()),
{
    let mut out: Vec<RepoAdd> = Vec::new();
    let mut i: usize = 0;
    while i < extras.len()
        invariant
            i <= extras@.len(),
            out.deep_view() == spec_repo_adds(arch@, extras.deep_view()).take(i as int),
        decreases extras@.len() - i,
    {
        proof {
            assert(extras.deep_view()[i as int] == extras@[i as int].deep_view());
        }
        let ra = repo_add_for(arch, &extras[i]);
        push_repo(&mut out, ra);
        i = i + 1;
        proof {
            assert(out.deep_view() =~= spec_repo_adds(arch@, extras.deep_view()).take(i as int));
        }
    }
    proof {
        assert(spec_repo_adds(arch@, extras.deep_view()).take(extras@.len() as int)
            =~= spec_repo_adds(arch@, extras.deep_view()));
    }
    out
}

/// Builds the keyring map of all extra repositories.
fn keyrings_for(extras: &Vec<Extra>) -> (r: Vec<Setting>)
    ensures
        r.deep_view() == spec_keyrings(extras.deep_view()),
{
    let mut out: Vec<Setting> = Vec::new();
    let mut i: usize = 0;
    while i < extras.len()
        invariant
            i <= extras@.len(),
            out.deep_view() == spec_keyrings(extras.deep_view()).take(i as int),
        decreases extras@.len() - i,
    {
        proof {
            assert(extras.deep_view()[i as int] == extras@[i as int].deep_view());
        }
        let st = Setting { key: extras[i].name.clone(), value: extras[i].key.clone() };
        push_setting(&mut out, st);
        i = i + 1;
        proof {
            assert(out.deep_view() =~= spec_keyrings(extras.deep_view()).take(i as int));
        }
    }
    proof {
        assert(spec_keyrings(extras.deep_view()).take(extras@.len() as int) =~= spec_keyrings(
            extras.deep_view(),
        ));
    }
    out
}

/// Flattens the package-add sets of all extra repositories, in order.
fn all_adds_for(extras: &Vec<Extra>) -> (r: Vec<String>)
    ensures
        r.deep_view() == spec_all_adds(extras.deep_view()),
{
    let mut out: Vec<String> = Vec::new();
    proof {
        assert(out.deep_view() =~= spec_all_adds(extras.deep_view().take(0)));
    }
    let mut i: usize = 0;
    while i < extras.len()
        invariant
            i <= extras@.len(),
            out.deep_view() == spec_all_adds(extras.deep_view().take(i as int)),
        decreases extras@.len() - i,
    {
        proof {
            assert(extras.deep_view()[i as int] == extras@[i as int].deep_view());
            assert(extras.deep_view().take(i + 1).drop_last() =~= extras.deep_view().take(
                i as int,
            ));
            assert(extras.deep_view().take(i + 1).last() == extras.deep_view()[i as int]);
        }
        extend_strings(&mut out, &extras[i].add);
        i = i + 1;
    }
    proof {
        assert(extras.deep_view().take(extras@.len() as int) =~= extras.deep_view());
    }
    out
}

/// Joins the items with newlines.
fn join_lines_x(items: &Vec<String>) -> (r: String)
    ensures
        r@ == join_lines(items.deep_view()),
{
    let mut out: Vec<char> = Vec::new();
    let mut i: usize = 0;
    while i < items.len()
        invariant
            i <= items@.len(),
            out@ == join_lines(items.deep_view().take(i as int)),
        decreases items@.len() - i,
    {
        proof {
            assert(items.deep_view()[i as int] == items@[i as int]@);
        }
        if i > 0 {
            out.push('\n');
        }
        app_str(&mut out, items[i].as_str());
        i = i + 1;
        proof {
            let dv = items.deep_view();
            assert(dv.take(i as int).drop_last() =~= dv.take(i - 1));
            assert(dv.take(i as int).last() == dv[i - 1]);
            assert(out@ =~= join_lines(dv.take(i as int)));
        }
    }
    proof {
        assert(items.deep_view().take(items@.len() as int) =~= items.deep_view());
    }
    from_chars(&out)
}

/// Finds the first extra repository whose name is reserved.
fn first_reserved_x(extras: &Vec<Extra>) -> (r: Option<String>)
    ensures
        match r {
            Some(n) => first_reserved(extras.deep_view()) == Some(n@),
            None => first_reserved(extras.deep_view()) is None,
        },
{
    let kw = "keyringer".to_owned();
    let mut i: usize = 0;
    while i < extras.len()
        invariant
            i <= extras@.len(),
            kw@ == "keyringer"@,
            first_reserved(extras.deep_view()) == first_reserved_from(
                extras.deep_view(),
                i as int,
            ),
        decreases extras@.len() - i,
    {
        proof {
            assert(extras.deep_view()[i as int] == extras@[i as int].deep_view());
        }
        if extras[i].name == kw {
            return Some(extras[i].name.clone());
        }
        i = i + 1;
    }
    None
}

/// Compiles a resolved specification into the full plan of edits and
/// hook texts, or rejects it: an extra repository bearing a reserved
/// name, or a request for package exclusion, is refused here, before
/// anything has been written.
pub fn plan_apply(config: &Config) -> (r: Result<Plan, BuildError>)
    ensures
        r is Ok <==> first_reserved(extras_of(config@)) is None && !exclusion_requested(config@),
        r matches Ok(p) ==> p@ == spec_plan(config@),
        first_reserved(extras_of(config@)) matches Some(n) ==> r matches Err(e) && e@
            == (BuildErrV::ReservedNameConflict { name: n }),
        first_reserved(extras_of(config@)) is None && exclusion_requested(config@) ==> (r matches Err(
            e,
        ) && e@ == (BuildErrV::UnimplementedFeature { feature: "exclude"@ })),
{
    let extras: Vec<Extra> = match &config.extras {
        Some(v) => crate::cfg::clone_extra_vec(v),
        None => Vec::new(),
    };
    proof {
        assert(extras.deep_view() =~= extras_of(config@));
    }
    if let Some(n) = first_reserved_x(&extras) {
        return Err(BuildError::ReservedNameConflict { name: n });
    }
    match &config.exclude {
        Some(x) => {
            if x.len() > 0 {
                return Err(BuildError::UnimplementedFeature { feature: "exclude".to_owned() });
            }
        },
        None => {},
    }
    let dist = str_or_x(&config.dist, "bookworm");
    let arch = str_or_x(&config.arch, "amd64");
    let areas = str_or_x(&config.archive_areas, "main contrib non-free non-free-firmware");
    let apt = str_or_x(&config.apt, "apt");
    let recommends_on = match config.recommends {
        Some(b) => b,
        None => true,
    };
    let keyringer = match config.keyringer {
        Some(b) => b,
        None => true,
    };
    let mut bootstrap_settings: Vec<Setting> = Vec::new();
    push_setting(
        &mut bootstrap_settings,
        Setting { key: s("LB_ARCHITECTURE"), value: arch.clone() },
    );
    push_setting(
        &mut bootstrap_settings,
        Setting { key: s("LB_ARCHIVE_AREAS"), value: areas.clone() },
    );
    push_setting(
        &mut bootstrap_settings,
        Setting { key: s("LB_PARENT_ARCHIVE_AREAS"), value: areas.clone() },
    );
    let de_boot = str_or_x(&config.de_boot_opts, "");
    let mut baseline: Vec<String> = Vec::new();
    push_string(&mut baseline, s("apt-transport-https"));
    push_string(&mut baseline, s("ca-certificates,openssl"));
    proof {
        assert(baseline.deep_view() =~= baseline_entries());
    }
    let deboot_opts = crate::deboot::parse(&de_boot, baseline);
    let mut common_settings: Vec<Setting> = Vec::new();
    push_setting(&mut common_settings, Setting { key: s("LB_APT"), value: apt.clone() });
    push_setting(
        &mut common_settings,
        Setting { key: s("LB_APT_RECOMMENDS"), value: bool_string(recommends_on) },
    );
    push_setting(
        &mut common_settings,
        Setting { key: s("DEBOOTSTRAP_OPTIONS"), value: deboot_opts },
    );
    let repo_adds = repo_adds_for(&arch, &extras);
    let keyrings = keyrings_for(&extras);
    let adds_all = all_adds_for(&extras);
    let adds = dedup_strings(&adds_all);
    let apt_install_hook = if adds.len() > 0 {
        Some(crate::hooks::gen_apt_install_hook(&adds))
    } else {
        None
    };
    let theme_hook = match config.dark_mode {
        Some(true) => Some(crate::hooks::gnome_set_dark()),
        _ => None,
    };
    let snaps_all = seq_or_empty_x(&config.snaps);
    let snap_packages = dedup_strings(&snaps_all);
    let snap_cache_dir = s("/tmp/snap-cache-debr");
    let snap_hook = if snap_packages.len() > 0 {
        Some(crate::hooks::snap_install_text(&snap_packages, snap_cache_dir.as_str()))
    } else {
        None
    };
    let mut e_base: Vec<String> = Vec::new();
    if keyringer {
        push_string(&mut e_base, s("keyringer.service"));
        push_string(&mut e_base, s("keyringer.timer"));
    }
    if snap_packages.len() > 0 {
        push_string(&mut e_base, s("snapd_installer.service"));
    }
    let e_extra = seq_or_empty_x(&config.e_service);
    extend_strings(&mut e_base, &e_extra);
    proof {
        assert(e_base.deep_view() =~= (if keyringer_of(config@) {
            seq!["keyringer.service"@, "keyringer.timer"@]
        } else {
            Seq::<Seq<char>>::empty()
        }) + (if spec_dedup(seq_or_empty(config@.snaps)).len() > 0 {
            seq!["snapd_installer.service"@]
        } else {
            Seq::<Seq<char>>::empty()
        }) + seq_or_empty(config@.e_service));
    }
    let e_svc = dedup_strings(&e_base);
    let d_base = seq_or_empty_x(&config.d_service);
    let d_svc = dedup_strings(&d_base);
    let services_hook = if e_svc.len() > 0 || d_svc.len() > 0 {
        Some(crate::hooks::gen_services_hook(&e_svc, &d_svc))
    } else {
        None
    };
    let mut pkg_base: Vec<String> = Vec::new();
    if keyringer {
        push_string(&mut pkg_base, s("pkg-config"));
    }
    let pkg_extra = seq_or_empty_x(&config.includes);
    extend_strings(&mut pkg_base, &pkg_extra);
    proof {
        assert(pkg_base.deep_view() =~= (if keyringer_of(config@) {
            seq!["pkg-config"@]
        } else {
            Seq::<Seq<char>>::empty()
        }) + seq_or_empty(config@.includes));
    }
    let pkg_list = dedup_strings(&pkg_base);
    let package_list = join_lines_x(&pkg_list);
    let plan = Plan {
        dist,
        bootstrap_settings,
        common_settings,
        repo_adds,
        keyrings,
        keyringer_assets: keyringer,
        theme_hook,
        snap_packages,
        snap_cache_dir,
        snap_hook,
        services_hook,
        apt_install_hook,
        package_list,
    };
    proof {
        assert(plan@.bootstrap_settings =~= spec_plan(config@).bootstrap_settings);
        assert(plan@.common_settings =~= spec_plan(config@).common_settings);
        assert(plan@ == spec_plan(config@));
    }
    Ok(plan)
}

/// Rewrites a raw argument list for dispatch to the builder: after the
/// first `lb` token, every argument that begins with a dash gets a `--`
/// separator inserted in front of it, so the builder sees it as its own.
pub fn preprocess(args: &mut Vec<String>)
    ensures
        final(args).deep_view() == spec_preprocess(old(args).deep_view()),
{
    let lb = "lb".to_owned();
    let mut out: Vec<String> = Vec::new();
    let mut lb_found = false;
    let n: usize = args.len();
    proof {
        assert(spec_preprocess(args.deep_view()) =~= out.deep_view() + spec_preprocess_from(
            args.deep_view(),
            0,
            false,
        ));
    }
    let mut i: usize = 0;
    while i < n
        invariant
            i <= n,
            n == args@.len(),
            lb@ == "lb"@,
            spec_preprocess(args.deep_view()) == out.deep_view() + spec_preprocess_from(
                args.deep_view(),
                i as int,
                lb_found,
            ),
        decreases n - i,
    {
        proof {
            assert(args.deep_view()[i as int] == args@[i as int]@);
        }
        let dash = starts_with_dash(&args[i]);
        if lb_found && dash {
            push_string(&mut out, s("--"));
            push_string_clone(&mut out, &args[i]);
        } else {
            if !lb_found && args[i] == lb {
                lb_found = true;
            }
            push_string_clone(&mut out, &args[i]);
        }
        i = i + 1;
        proof {
            assert(spec_preprocess(args.deep_view()) =~= out.deep_view() + spec_preprocess_from(
                args.deep_view(),
                i as int,
                lb_found,
            ));
        }
    }
    proof {
        assert(out.deep_view() =~= spec_preprocess(args.deep_view()));
    }
    *args = out;
}

/// The argument begins with a dash.
pub open spec fn spec_starts_with_dash(s: Seq<char>) -> bool {
    s.len() > 0 && s[0] == '-'
}

/// Tests whether the argument begins with a dash.
fn starts_with_dash(a: &String) -> (r: bool)
    ensures
        r == spec_starts_with_dash(a@),
{
    let ac = to_chars(a.as_str());
    ac.len() > 0 && ac[0] == '-'
}

/// The argument list from position `i` on, rewritten: with the `lb`
/// token already seen, each dash-led argument gets a `--` in front.
pub open spec fn spec_preprocess_from(args: Seq<Seq<char>>, i: int, lb_found: bool) -> Seq<
    Seq<char>,
>
    decreases args.len() - i,
    when i >= 0
{
    if i >= args.len() {
        Seq::<Seq<char>>::empty()
    } else if lb_found && spec_starts_with_dash(args[i]) {
        seq!["--"@, args[i]] + spec_preprocess_from(args, i + 1, true)
    } else {
        seq![args[i]] + spec_preprocess_from(args, i + 1, lb_found || args[i] == "lb"@)
    }
}

/// The whole argument list, rewritten.
pub open spec fn spec_preprocess(args: Seq<Seq<char>>) -> Seq<Seq<char>> {
    spec_preprocess_from(args, 0, false)
}

} // verus!
