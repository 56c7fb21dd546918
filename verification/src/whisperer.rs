//! The decisions of the kernel whisperer, the tool that prints the
//! configuration-derived guest kernel command line of each runtime-rs
//! RuntimeClass of an installation.

use vstd::prelude::*;
use vstd::string::*;
use crate::guest_cmdline::{build_kernel_cmdline, final_params, qemu_cmdline, qemu_params, CmdlineError, HypervisorConfig};
use crate::kernel_params::first_keyless_error;
use crate::order::{lex_le, stable_sort_indices, stably_sorted};
use crate::runtime_manifest::{RuntimeEntry, RuntimeManifest};
use crate::paths::{file_name_of, join_path, joined, parent_of, path_file_name, path_parent, paths_equal, same_path};
use crate::text::{has_prefix, owned, starts_with, str_eq, strip_prefix, strip_prefix_of, strip_suffix, strip_suffix_of};

verus! {

/// The only hypervisor whose guest command line can be assembled.
pub const QEMU: &'static str = "qemu";

/// Schema version of the report the tool prints.
pub const REPORT_VERSION: u32 = 1;

/// Highest manifest schema version this tool understands.
pub const SUPPORTED_VERSION: u32 = 1;

/// A RuntimeClass to describe, and where its configuration lives.
#[derive(Debug)]
pub struct Target {
    pub runtime_class: String,
    pub shim: Option<String>,
    pub config: String,
    /// Whether runtime-rs serves the class; `None` when nothing says.
    pub runtime_rs: Option<bool>,
    /// Hypervisor named by the manifest.
    pub hypervisor: Option<String>,
}

pub open spec fn opt_view(o: Option<String>) -> Option<Seq<char>> {
    match o {
        Some(s) => Some(s@),
        None => None,
    }
}

pub type TargetView = (Seq<char>, Option<Seq<char>>, Seq<char>, Option<bool>, Option<Seq<char>>);

impl View for Target {
    type V = TargetView;

    open spec fn view(&self) -> TargetView {
        (self.runtime_class@, opt_view(self.shim), self.config@, self.runtime_rs, opt_view(self.hypervisor))
    }
}

pub open spec fn target_views(v: Seq<Target>) -> Seq<TargetView> {
    v.map_values(|t: Target| t@)
}

fn copy_opt(s: &Option<String>) -> (r: Option<String>)
    ensures
        opt_view(r) == opt_view(*s),
{
    match s {
        Some(v) => Some(v.clone()),
        None => None,
    }
}

impl Target {
    pub fn duplicate(&self) -> (r: Target)
        ensures
            r@ == self@,
    {
        Target {
            runtime_class: self.runtime_class.clone(),
            shim: copy_opt(&self.shim),
            config: self.config.clone(),
            runtime_rs: self.runtime_rs,
            hypervisor: copy_opt(&self.hypervisor),
        }
    }
}

/// A RuntimeClass the tool described.
#[derive(Debug, Clone)]
pub struct RuntimeClassOutput {
    pub runtime_class: String,
    pub shim: Option<String>,
    pub cmdline: String,
}

/// A runtime-rs RuntimeClass found but not described, and why.
#[derive(Debug, Clone)]
pub struct SkippedRuntimeClass {
    pub runtime_class: String,
    pub reason: String,
}

/// What became of one target.
#[derive(Debug)]
pub enum Outcome {
    Described(RuntimeClassOutput),
    Skipped(SkippedRuntimeClass),
}

/// The report the tool prints.
#[derive(Debug)]
pub struct Report {
    pub version: u32,
    /// Architecture the report was produced on.
    pub architecture: String,
    pub runtime_classes: Vec<RuntimeClassOutput>,
    /// runtime-rs RuntimeClasses found but not described.
    pub skipped: Vec<SkippedRuntimeClass>,
}

/// Why the tool cannot describe an installation.
#[derive(Debug)]
pub enum WhispererError {
    /// No RuntimeClass can be derived from this configuration path.
    NoRuntimeClass(String),
    /// Neither an installation root nor a configuration was given.
    NoTargets,
    /// An installation without a manifest holds no configurations.
    NoConfigurations(String),
    /// The configuration does not define the hypervisor it names.
    HypervisorNotDefined { hypervisor: String, config: String },
    /// The command line could not be built.
    Cmdline(CmdlineError),
    /// The manifest is newer than this tool.
    UnsupportedManifestVersion(u32),
}

impl WhispererError {
    /// The error as a person reads it.
    pub open spec fn describe(self) -> Seq<char> {
        match self {
            WhispererError::NoRuntimeClass(p) => "cannot derive runtime class from configuration path "@ + p@,
            WhispererError::NoTargets => "provide --kata-root and/or one or more --config paths"@,
            WhispererError::NoConfigurations(d) => "no runtime configuration files found under "@ + d@,
            WhispererError::HypervisorNotDefined { hypervisor, config } => "hypervisor "@ + hypervisor@
                + " is not defined in "@ + config@,
            WhispererError::Cmdline(e) => e.describe(),
            WhispererError::UnsupportedManifestVersion(_) =>
                "manifest has a version which this build does not understand (supports up to 1)"@,
        }
    }

    pub fn message(&self) -> (r: String)
        ensures
            r@ == self.describe(),
    {
        match self {
            WhispererError::NoRuntimeClass(p) => {
                let mut m = owned("cannot derive runtime class from configuration path ");
                m.append(p.as_str());
                m
            },
            WhispererError::NoTargets => owned("provide --kata-root and/or one or more --config paths"),
            WhispererError::NoConfigurations(d) => {
                let mut m = owned("no runtime configuration files found under ");
                m.append(d.as_str());
                m
            },
            WhispererError::HypervisorNotDefined { hypervisor, config } => {
                let mut m = owned("hypervisor ");
                m.append(hypervisor.as_str());
                m.append(" is not defined in ");
                m.append(config.as_str());
                m
            },
            WhispererError::Cmdline(e) => e.message(),
            WhispererError::UnsupportedManifestVersion(_) => owned(
                "manifest has a version which this build does not understand (supports up to 1)",
            ),
        }
    }
}

/// Whether this tool can read a manifest.
pub fn check_manifest_version(manifest: &RuntimeManifest) -> (r: Result<(), WhispererError>)
    ensures
        r is Ok <==> manifest.version <= SUPPORTED_VERSION,
        r matches Err(e) ==> e == WhispererError::UnsupportedManifestVersion(manifest.version),
{
    if manifest.version > SUPPORTED_VERSION {
        Err(WhispererError::UnsupportedManifestVersion(manifest.version))
    } else {
        Ok(())
    }
}

/// The RuntimeClass of a configuration: the name of the directory holding
/// it, prefixed with `kata-` unless it already is.
pub open spec fn runtime_class_of(config_path: Seq<char>) -> Option<Seq<char>> {
    match parent_of(config_path) {
        None => None,
        Some(parent) => match file_name_of(parent) {
            None => None,
            Some(name) => if has_prefix(name, "kata-"@) {
                Some(name)
            } else {
                Some("kata-"@ + name)
            },
        },
    }
}

/// The RuntimeClass a configuration file serves. kata-deploy installs
/// configurations under `runtimes/<shim>/` or `custom-runtimes/<handler>/`,
/// so the class comes from that directory, not from the file name.
pub fn runtime_class_for_config(config_path: &str) -> (r: Result<String, WhispererError>)
    ensures
        match runtime_class_of(config_path@) {
            Some(c) => (r matches Ok(s) && s@ == c),
            None => (r matches Err(WhispererError::NoRuntimeClass(p)) && p@ == config_path@),
        },
{
    let parent = match path_parent(config_path) {
        Some(p) => p,
        None => return Err(WhispererError::NoRuntimeClass(owned(config_path))),
    };
    let name = match path_file_name(parent.as_str()) {
        Some(n) => n,
        None => return Err(WhispererError::NoRuntimeClass(owned(config_path))),
    };
    if starts_with(name.as_str(), "kata-") {
        Ok(name)
    } else {
        let mut class = owned("kata-");
        class.append(name.as_str());
        Ok(class)
    }
}

/// Every RuntimeClass derived from a configuration path is a Kata one: its
/// name begins with `kata-`.
pub proof fn lemma_runtime_class_has_kata_prefix(config_path: Seq<char>)
    ensures
        runtime_class_of(config_path) matches Some(c) ==> has_prefix(c, "kata-"@),
{
    if let Some(parent) = parent_of(config_path) {
        if let Some(name) = file_name_of(parent) {
            if !has_prefix(name, "kata-"@) {
                assert(("kata-"@ + name).subrange(0, "kata-"@.len() as int) =~= "kata-"@);
            }
        }
    }
}

/// The shim a `configuration-<shim>.toml` file configures.
pub open spec fn shim_of(config_path: Seq<char>) -> Option<Seq<char>> {
    match file_name_of(config_path) {
        None => None,
        Some(name) => match strip_prefix_of(name, "configuration-"@) {
            None => None,
            Some(rest) => strip_suffix_of(rest, ".toml"@),
        },
    }
}

/// The shim a `configuration-<shim>.toml` file configures.
pub fn shim_for_config(config_path: &str) -> (r: Option<String>)
    ensures
        opt_view(r) == shim_of(config_path@),
{
    let name = match path_file_name(config_path) {
        Some(n) => n,
        None => return None,
    };
    let rest = match strip_prefix(name.as_str(), "configuration-") {
        Some(r) => r,
        None => return None,
    };
    strip_suffix(rest.as_str(), ".toml")
}

/// The file name of a shim's configuration: `configuration-<shim>.toml`.
pub fn shim_config_file_name(shim: &str) -> (r: String)
    ensures
        r@ == "configuration-"@ + shim@ + ".toml"@,
{
    let mut f = owned("configuration-");
    f.append(shim);
    f.append(".toml");
    f
}

/// Which runtime serves a shim, from where the installation keeps its
/// shipped configuration: under `runtime-rs/` for runtime-rs, directly
/// under the defaults directory for the Go runtime, and neither when it
/// keeps none.
pub fn runtime_rs_from_layout(in_runtime_rs_dir: bool, in_defaults_dir: bool) -> (r: Option<bool>)
    ensures
        r == if in_runtime_rs_dir {
            Some(true)
        } else if in_defaults_dir {
            Some(false)
        } else {
            None::<bool>
        },
{
    if in_runtime_rs_dir {
        Some(true)
    } else if in_defaults_dir {
        Some(false)
    } else {
        None
    }
}

/// The target of one manifest entry.
pub open spec fn manifest_target(kata_root: Seq<char>, e: RuntimeEntry) -> TargetView {
    (e.runtime_class@, Some(e.shim@), joined(kata_root, e.config@), Some(e.runtime_rs), Some(e.hypervisor@))
}

/// One target per manifest entry, configuration paths taken relative to
/// the installation root.
pub fn targets_from_manifest(kata_root: &str, manifest: &RuntimeManifest) -> (r: Vec<Target>)
    ensures
        target_views(r@) == manifest.runtimes@.map_values(|e: RuntimeEntry| manifest_target(kata_root@, e)),
{
    let ghost want = manifest.runtimes@.map_values(|e: RuntimeEntry| manifest_target(kata_root@, e));
    let mut out: Vec<Target> = Vec::new();
    let mut i: usize = 0;
    while i < manifest.runtimes.len()
        invariant
            want == manifest.runtimes@.map_values(|e: RuntimeEntry| manifest_target(kata_root@, e)),
            i <= manifest.runtimes@.len(),
            target_views(out@) == want.take(i as int),
        decreases manifest.runtimes@.len() - i,
    {
        let e = &manifest.runtimes[i];
        let t = Target {
            runtime_class: e.runtime_class.clone(),
            shim: Some(e.shim.clone()),
            config: join_path(kata_root, e.config.as_str()),
            runtime_rs: Some(e.runtime_rs),
            hypervisor: Some(e.hypervisor.clone()),
        };
        let ghost before = target_views(out@);
        out.push(t);
        assert(target_views(out@) =~= before.push(want[i as int]));
        assert(want.take(i + 1) =~= want.take(i as int).push(want[i as int]));
        i = i + 1;
    }
    assert(want.take(want.len() as int) =~= want);
    out
}

/// The target of a configuration found on disk or named on the command
/// line.
pub fn target_for_config(config: &str, runtime_rs: Option<bool>) -> (r: Result<Target, WhispererError>)
    ensures
        match runtime_class_of(config@) {
            Some(c) => (r matches Ok(t) && t@ == (c, shim_of(config@), config@, runtime_rs, None::<Seq<char>>)),
            None => (r matches Err(WhispererError::NoRuntimeClass(p)) && p@ == config@),
        },
{
    let runtime_class = runtime_class_for_config(config)?;
    Ok(Target {
        runtime_class,
        shim: shim_for_config(config),
        config: owned(config),
        runtime_rs,
        hypervisor: None,
    })
}

/// Why a hypervisor other than QEMU is skipped.
pub open spec fn unsupported_reason(hypervisor: Seq<char>) -> Seq<char> {
    "hypervisor "@ + hypervisor + " is not supported yet; only qemu is"@
}

fn unsupported_hypervisor(hypervisor: &str) -> (r: String)
    ensures
        r@ == unsupported_reason(hypervisor@),
{
    let mut m = owned("hypervisor ");
    m.append(hypervisor);
    m.append(" is not supported yet; only qemu is");
    m
}

/// The outcome of a target whose manifest already names a hypervisor other
/// than QEMU: skipped, without reading its configuration.
pub fn skip_before_load(target: &Target) -> (r: Option<Outcome>)
    ensures
        match target.hypervisor {
            Some(h) if h@ != QEMU@ => (r matches Some(Outcome::Skipped(s)) && s.runtime_class@
                == target.runtime_class@ && s.reason@ == unsupported_reason(h@)),
            _ => r is None,
        },
{
    match &target.hypervisor {
        Some(h) => if !str_eq(h.as_str(), QEMU) {
            Some(
                Outcome::Skipped(
                    SkippedRuntimeClass {
                        runtime_class: target.runtime_class.clone(),
                        reason: unsupported_hypervisor(h.as_str()),
                    },
                ),
            )
        } else {
            None
        },
        None => None,
    }
}

/// The outcome of a target once its configuration is loaded: skipped when
/// the configuration runs a hypervisor other than QEMU, an error when it
/// does not define the hypervisor it names, and otherwise the command line,
/// or the error that kept it from being built.
pub fn outcome_for_loaded_config(
    target: &Target,
    resolved_path: &str,
    hypervisor_name: &str,
    hypervisor_config: Option<&HypervisorConfig>,
    use_dax: bool,
) -> (r: Result<Outcome, WhispererError>)
    ensures
        hypervisor_name@ != QEMU@ ==> (r matches Ok(Outcome::Skipped(s)) && s.runtime_class@
            == target.runtime_class@ && s.reason@ == unsupported_reason(hypervisor_name@)),
        hypervisor_name@ == QEMU@ && hypervisor_config is None ==> (r matches Err(
            WhispererError::HypervisorNotDefined { hypervisor, config },
        ) && hypervisor@ == hypervisor_name@ && config@ == resolved_path@),
        hypervisor_name@ == QEMU@ && hypervisor_config is Some ==> match qemu_cmdline(
            *hypervisor_config.unwrap(),
            use_dax,
        ) {
            Some(s) => (r matches Ok(Outcome::Described(o)) && o.runtime_class@ == target.runtime_class@
                && opt_view(o.shim) == opt_view(target.shim) && o.cmdline@ == s),
            None => match qemu_params(*hypervisor_config.unwrap(), use_dax) {
                Err(f) => (r matches Err(WhispererError::Cmdline(CmdlineError::Rootfs(e))) && e@ == f),
                Ok(base) => (r matches Err(WhispererError::Cmdline(CmdlineError::Render(e)))
                    && first_keyless_error(final_params(*hypervisor_config.unwrap(), base), e)),
            },
        },
{
    if !str_eq(hypervisor_name, QEMU) {
        return Ok(
            Outcome::Skipped(
                SkippedRuntimeClass {
                    runtime_class: target.runtime_class.clone(),
                    reason: unsupported_hypervisor(hypervisor_name),
                },
            ),
        );
    }
    let config = match hypervisor_config {
        Some(c) => c,
        None => {
            return Err(
                WhispererError::HypervisorNotDefined {
                    hypervisor: owned(hypervisor_name),
                    config: owned(resolved_path),
                },
            )
        },
    };
    match build_kernel_cmdline(hypervisor_name, config, use_dax) {
        Ok(cmdline) => Ok(
            Outcome::Described(
                RuntimeClassOutput {
                    runtime_class: target.runtime_class.clone(),
                    shim: copy_opt(&target.shim),
                    cmdline,
                },
            ),
        ),
        Err(e) => Err(WhispererError::Cmdline(e)),
    }
}

} // verus!

verus! {

/// A target the Go runtime serves, which this tool leaves out.
pub open spec fn is_go_runtime(t: TargetView) -> bool {
    t.3 == Some(false)
}

/// The targets not served by the Go runtime, in order.
pub open spec fn runtime_rs_targets(s: Seq<TargetView>) -> Seq<TargetView>
    decreases s.len(),
{
    if s.len() == 0 {
        s
    } else {
        let r = runtime_rs_targets(s.drop_last());
        if is_go_runtime(s.last()) {
            r
        } else {
            r.push(s.last())
        }
    }
}

pub open spec fn class_keys(s: Seq<TargetView>) -> Seq<Seq<char>> {
    s.map_values(|t: TargetView| t.0)
}

pub open spec fn reorder(s: Seq<TargetView>, order: Seq<usize>) -> Seq<TargetView> {
    order.map_values(|i: usize| s[i as int])
}

/// A target repeating the one kept before it: same RuntimeClass, same
/// configuration.
pub open spec fn same_target(later: TargetView, earlier: TargetView) -> bool {
    later.0 == earlier.0 && same_path(later.2, earlier.2)
}

/// The targets without any that repeats the last one kept, as
/// `Vec::dedup_by` removes them.
pub open spec fn dedup_targets(s: Seq<TargetView>) -> Seq<TargetView>
    decreases s.len(),
{
    if s.len() == 0 {
        s
    } else {
        let r = dedup_targets(s.drop_last());
        if r.len() > 0 && same_target(s.last(), r.last()) {
            r
        } else {
            r.push(s.last())
        }
    }
}

/// The targets to describe: those not served by the Go runtime, stably
/// sorted by RuntimeClass, without repeats of the same RuntimeClass and
/// configuration; together with how many Go runtime targets were left out.
/// No targets at all is an error.
pub fn select_targets(targets: Vec<Target>) -> (r: Result<(Vec<Target>, usize), WhispererError>)
    ensures
        targets@.len() == 0 <==> (r matches Err(e) && e == WhispererError::NoTargets),
        r matches Ok((v, go)) ==> {
            let kept = runtime_rs_targets(target_views(targets@));
            &&& go == targets@.len() - kept.len()
            &&& exists|order: Seq<usize>|
                stably_sorted(class_keys(kept), order) && target_views(v@) == dedup_targets(reorder(kept, order))
            &&& forall|i: int, j: int| 0 <= i < j < v@.len() ==> lex_le(#[trigger] v@[i].runtime_class@, #[trigger] v@[j].runtime_class@)
            &&& forall|i: int| 0 <= i < v@.len() ==> (#[trigger] v@[i]).runtime_rs != Some(false)
            &&& forall|i: int|
                0 < i < v@.len() ==> !same_target(#[trigger] v@[i]@, v@[i - 1]@)
        },
{
    if targets.len() == 0 {
        return Err(WhispererError::NoTargets);
    }
    let ghost all = target_views(targets@);
    let mut kept: Vec<Target> = Vec::new();
    let mut go: usize = 0;
    let mut i: usize = 0;
    while i < targets.len()
        invariant
            all == target_views(targets@),
            i <= targets@.len(),
            target_views(kept@) == runtime_rs_targets(all.take(i as int)),
            go + kept@.len() == i,
        decreases targets@.len() - i,
    {
        assert(all.take(i + 1).drop_last() =~= all.take(i as int));
        assert(all.take(i + 1).last() == targets@[i as int]@);
        if targets[i].runtime_rs == Some(false) {
            go = go + 1;
        } else {
            let ghost before = target_views(kept@);
            kept.push(targets[i].duplicate());
            assert(target_views(kept@) =~= before.push(targets@[i as int]@));
        }
        i = i + 1;
    }
    assert(all.take(all.len() as int) =~= all);
    let ghost kv = target_views(kept@);
    let mut keys: Vec<String> = Vec::new();
    let mut k: usize = 0;
    while k < kept.len()
        invariant
            kv == target_views(kept@),
            k <= kept@.len(),
            keys@.map_values(|s: String| s@) == class_keys(kv).take(k as int),
        decreases kept@.len() - k,
    {
        let ghost before = keys@.map_values(|s: String| s@);
        keys.push(kept[k].runtime_class.clone());
        assert(keys@.map_values(|s: String| s@) =~= before.push(kv[k as int].0));
        assert(class_keys(kv).take(k + 1) =~= class_keys(kv).take(k as int).push(kv[k as int].0));
        k = k + 1;
    }
    assert(class_keys(kv).take(kv.len() as int) =~= class_keys(kv));
    let order = stable_sort_indices(&keys);
    let ghost sorted = reorder(kv, order@);
    let mut out: Vec<Target> = Vec::new();
    let mut j: usize = 0;
    while j < order.len()
        invariant
            kv == target_views(kept@),
            stably_sorted(class_keys(kv), order@),
            sorted == reorder(kv, order@),
            j <= order@.len(),
            target_views(out@) == dedup_targets(sorted.take(j as int)),
        decreases order@.len() - j,
    {
        let t = &kept[order[j]];
        assert(sorted[j as int] == t@);
        assert(sorted.take(j + 1).drop_last() =~= sorted.take(j as int));
        assert(sorted.take(j + 1).last() == t@);
        let n = out.len();
        let repeat = n > 0 && str_eq(t.runtime_class.as_str(), out[n - 1].runtime_class.as_str())
            && paths_equal(t.config.as_str(), out[n - 1].config.as_str());
        if !repeat {
            let ghost before = target_views(out@);
            out.push(t.duplicate());
            assert(target_views(out@) =~= before.push(t@));
        } else {
            assert(target_views(out@).last() == out@[n - 1]@);
        }
        j = j + 1;
    }
    assert(sorted.take(sorted.len() as int) =~= sorted);
    proof {
        lemma_dedup_sorted_runtime_rs(sorted);
        assert forall|a: int, b: int| 0 <= a < b < sorted.len() implies lex_le(#[trigger] sorted[a].0, #[trigger] sorted[b].0) by {
            assert(class_keys(kv)[order@[a] as int] == sorted[a].0);
            assert(class_keys(kv)[order@[b] as int] == sorted[b].0);
        }
        assert forall|a: int| 0 <= a < sorted.len() implies !is_go_runtime(#[trigger] sorted[a]) by {
            lemma_runtime_rs_targets_kept(all);
            assert(kv.contains(kv[order@[a] as int]));
        }
        let o = target_views(out@);
        let d = dedup_targets(sorted);
        assert(o == d);
        assert forall|a: int, b: int| 0 <= a < b < out@.len() implies lex_le(#[trigger] out@[a].runtime_class@, #[trigger] out@[b].runtime_class@) by {
            assert(o[a] == out@[a]@);
            assert(o[b] == out@[b]@);
            assert(lex_le(d[a].0, d[b].0));
        }
        lemma_dedup_targets_no_adjacent_repeats(sorted);
        assert forall|a: int| 0 < a < out@.len() implies !same_target(#[trigger] out@[a]@, out@[a - 1]@) by {
            assert(o[a] == out@[a]@);
            assert(o[a - 1] == out@[a - 1]@);
        }
        assert forall|a: int| 0 <= a < out@.len() implies (#[trigger] out@[a]).runtime_rs != Some(false) by {
            assert(o[a] == out@[a]@);
            assert(d.contains(d[a]));
            assert(sorted.contains(d[a]));
            let k = choose|k: int| 0 <= k < sorted.len() && sorted[k] == d[a];
            assert(!is_go_runtime(sorted[k]));
        }
    }
    Ok((out, go))
}

/// No two neighbours of the targets kept repeat each other.
pub proof fn lemma_dedup_targets_no_adjacent_repeats(s: Seq<TargetView>)
    ensures
        forall|i: int|
            0 < i < dedup_targets(s).len() ==> !same_target(#[trigger] dedup_targets(s)[i], dedup_targets(s)[i - 1]),
    decreases s.len(),
{
    if s.len() > 0 {
        lemma_dedup_targets_no_adjacent_repeats(s.drop_last());
        let r = dedup_targets(s.drop_last());
        let d = dedup_targets(s);
        assert forall|i: int| 0 < i < d.len() implies !same_target(#[trigger] d[i], d[i - 1]) by {
            if i < r.len() {
                assert(d[i] == r[i] && d[i - 1] == r[i - 1]);
            } else {
                assert(d[i - 1] == r.last());
            }
        }
    }
}

/// No target kept is a Go runtime one.
proof fn lemma_runtime_rs_targets_kept(s: Seq<TargetView>)
    ensures
        forall|t: TargetView| #[trigger] runtime_rs_targets(s).contains(t) ==> !is_go_runtime(t),
    decreases s.len(),
{
    if s.len() > 0 {
        lemma_runtime_rs_targets_kept(s.drop_last());
        let r = runtime_rs_targets(s.drop_last());
        assert forall|t: TargetView| #[trigger] runtime_rs_targets(s).contains(t) implies !is_go_runtime(t) by {
            if !is_go_runtime(s.last()) {
                let k = choose|k: int| 0 <= k < r.push(s.last()).len() && r.push(s.last())[k] == t;
                if k < r.len() {
                    assert(r[k] == t);
                    assert(r.contains(t));
                }
            }
        }
    }
}

/// Dropping repeats keeps a sorted list sorted, and adds nothing new.
proof fn lemma_dedup_sorted_runtime_rs(s: Seq<TargetView>)
    ensures
        forall|t: TargetView| #[trigger] dedup_targets(s).contains(t) ==> s.contains(t),
        (forall|a: int, b: int| 0 <= a < b < s.len() ==> lex_le(#[trigger] s[a].0, #[trigger] s[b].0)) ==> forall|
            a: int,
            b: int,
        | 0 <= a < b < dedup_targets(s).len() ==> lex_le(#[trigger] dedup_targets(s)[a].0, #[trigger] dedup_targets(s)[b].0),
    decreases s.len(),
{
    if s.len() > 0 {
        let init = s.drop_last();
        lemma_dedup_sorted_runtime_rs(init);
        let r = dedup_targets(init);
        let d = dedup_targets(s);
        assert forall|t: TargetView| #[trigger] d.contains(t) implies s.contains(t) by {
            let k = choose|k: int| 0 <= k < d.len() && d[k] == t;
            if k < r.len() {
                assert(r[k] == t);
                assert(r.contains(t));
                let m = choose|m: int| 0 <= m < init.len() && init[m] == t;
                assert(s[m] == t);
            } else {
                assert(s[s.len() - 1] == t);
            }
        }
        if forall|a: int, b: int| 0 <= a < b < s.len() ==> lex_le(#[trigger] s[a].0, #[trigger] s[b].0) {
            assert forall|a: int, b: int| 0 <= a < b < init.len() implies lex_le(#[trigger] init[a].0, #[trigger] init[b].0) by {
                assert(init[a] == s[a] && init[b] == s[b]);
            }
            assert forall|a: int, b: int| 0 <= a < b < d.len() implies lex_le(#[trigger] d[a].0, #[trigger] d[b].0) by {
                if b < r.len() {
                    assert(d[a] == r[a] && d[b] == r[b]);
                } else {
                    assert(d[a] == r[a]);
                    assert(r.contains(r[a]));
                    let m = choose|m: int| 0 <= m < init.len() && init[m] == r[a];
                    assert(s[m] == r[a]);
                    assert(d[b] == s[s.len() - 1]);
                }
            }
        }
    }
}

/// The RuntimeClasses described among `s`, in order.
pub open spec fn described_outputs(s: Seq<Outcome>) -> Seq<RuntimeClassOutput>
    decreases s.len(),
{
    if s.len() == 0 {
        Seq::empty()
    } else {
        let r = described_outputs(s.drop_last());
        match s.last() {
            Outcome::Described(o) => r.push(o),
            Outcome::Skipped(_) => r,
        }
    }
}

/// The RuntimeClasses skipped among `s`, in order.
pub open spec fn skipped_outputs(s: Seq<Outcome>) -> Seq<SkippedRuntimeClass>
    decreases s.len(),
{
    if s.len() == 0 {
        Seq::empty()
    } else {
        let r = skipped_outputs(s.drop_last());
        match s.last() {
            Outcome::Described(_) => r,
            Outcome::Skipped(k) => r.push(k),
        }
    }
}

/// Every outcome lands in the report once: described or skipped.
pub proof fn lemma_report_accounts_for_every_outcome(s: Seq<Outcome>)
    ensures
        described_outputs(s).len() + skipped_outputs(s).len() == s.len(),
    decreases s.len(),
{
    if s.len() > 0 {
        lemma_report_accounts_for_every_outcome(s.drop_last());
    }
}

/// The report of the outcomes: the described RuntimeClasses and the
/// skipped ones, each in the order they came.
pub fn report_from_outcomes(outcomes: Vec<Outcome>, architecture: String) -> (r: Report)
    ensures
        r.version == REPORT_VERSION,
        r.architecture@ == architecture@,
        r.runtime_classes@ == described_outputs(outcomes@),
        r.skipped@ == skipped_outputs(outcomes@),
{
    let ghost all = outcomes@;
    let mut runtime_classes: Vec<RuntimeClassOutput> = Vec::new();
    let mut skipped: Vec<SkippedRuntimeClass> = Vec::new();
    let mut rest = outcomes;
    let ghost mut i: int = 0;
    while rest.len() > 0
        invariant
            0 <= i <= all.len(),
            rest@ == all.skip(i),
            runtime_classes@ == described_outputs(all.take(i)),
            skipped@ == skipped_outputs(all.take(i)),
        decreases rest@.len(),
    {
        let o = rest.remove(0);
        proof {
            assert(o == all[i]);
            assert(all.take(i + 1).drop_last() =~= all.take(i));
            assert(all.take(i + 1).last() == all[i]);
            assert(rest@ =~= all.skip(i + 1));
            i = i + 1;
        }
        match o {
            Outcome::Described(d) => runtime_classes.push(d),
            Outcome::Skipped(k) => skipped.push(k),
        }
    }
    assert(all.take(all.len() as int) =~= all);
    Report { version: REPORT_VERSION, architecture, runtime_classes, skipped }
}

} // verus!
