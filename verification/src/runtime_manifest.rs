//! The RuntimeClasses a kata-deploy configuration installs, which shim each
//! is based on, and where its configuration lands: written down as a manifest
//! next to the installed configurations, for the tools that reason about them.

use vstd::prelude::*;
use vstd::string::*;
use crate::order::{lex_le, stable_sort_indices, stably_sorted};
use crate::text::{ends_with, has_prefix, has_suffix, owned, starts_with, str_eq};
use crate::whisperer::opt_view;

verus! {

/// Incompatible-change counter of the manifest schema.
pub const MANIFEST_VERSION: u32 = 1;

/// Manifest file name, written under the defaults directory.
pub const MANIFEST_FILE_NAME: &'static str = "kata-deploy-runtimes.json";

/// Where an installation keeps its configurations, relative to its root.
pub const DEFAULTS_DIR: &'static str = "share/defaults/kata-containers";

/// A custom RuntimeClass handler, based on the configuration of a shim.
#[derive(Debug, Clone)]
pub struct CustomRuntime {
    pub handler: String,
    /// Shim whose configuration the handler starts from.
    pub base_config: String,
    pub drop_in_file: Option<String>,
    pub containerd_snapshotter: Option<String>,
    pub crio_pull_type: Option<String>,
    pub debug_variant: bool,
    pub devkit: bool,
}

/// What a kata-deploy run installs, as far as the RuntimeClasses go.
#[derive(Debug, Clone)]
pub struct DeployConfig {
    /// Shims enabled for this node's architecture.
    pub shims_for_arch: Vec<String>,
    pub custom_runtimes: Vec<CustomRuntime>,
    /// Installation directory as the node sees it.
    pub dest_dir: String,
    /// The same directory as the kata-deploy container sees it.
    pub host_install_dir: String,
    /// Suffix that lets several installations share a node.
    pub multi_install_suffix: Option<String>,
}

/// The RuntimeClass (and CRI handler) name of a shim.
pub open spec fn handler_for(suffix: Option<Seq<char>>, shim: Seq<char>) -> Seq<char> {
    match suffix {
        Some(x) => "kata-"@ + shim + "-"@ + x,
        None => "kata-"@ + shim,
    }
}

impl DeployConfig {
    /// A configuration installing `shims` into `dest_dir`, with no custom
    /// runtimes and the container seeing the same directory.
    pub fn new(shims_for_arch: Vec<String>, dest_dir: &str) -> (r: DeployConfig)
        ensures
            r.shims_for_arch@ == shims_for_arch@,
            r.custom_runtimes@.len() == 0,
            r.dest_dir@ == dest_dir@,
            r.host_install_dir@ == dest_dir@,
            r.multi_install_suffix is None,
    {
        DeployConfig {
            shims_for_arch,
            custom_runtimes: Vec::new(),
            dest_dir: owned(dest_dir),
            host_install_dir: owned(dest_dir),
            multi_install_suffix: None,
        }
    }

    /// The RuntimeClass a shim is installed as: `kata-<shim>`, followed by
    /// `-<suffix>` on a multi-install node.
    pub fn runtime_handler_for_shim(&self, shim: &str) -> (r: String)
        ensures
            r@ == handler_for(opt_view(self.multi_install_suffix), shim@),
    {
        let mut h = owned("kata-");
        h.append(shim);
        match &self.multi_install_suffix {
            Some(x) => {
                h.append("-");
                h.append(x.as_str());
            },
            None => {},
        }
        h
    }
}

/// The hypervisor a shim runs, known from the shim's name.
pub open spec fn hypervisor_of(shim: Seq<char>) -> Option<Seq<char>> {
    if has_prefix(shim, "qemu"@) {
        Some("qemu"@)
    } else if has_prefix(shim, "clh"@) || shim == "cloud-hypervisor"@ {
        Some("clh"@)
    } else if shim == "dragonball"@ {
        Some("dragonball"@)
    } else if shim == "fc"@ || has_prefix(shim, "fc-"@) || has_prefix(shim, "firecracker"@) {
        Some("firecracker"@)
    } else if has_prefix(shim, "stratovirt"@) {
        Some("stratovirt"@)
    } else if shim == "remote"@ {
        Some("remote"@)
    } else {
        None
    }
}

/// Why a manifest cannot be written.
#[derive(Debug)]
pub enum ManifestError {
    /// No hypervisor is known for this shim.
    UnknownShim(String),
}

impl ManifestError {
    /// The error as a person reads it.
    pub open spec fn describe(self) -> Seq<char> {
        match self {
            ManifestError::UnknownShim(s) => "unknown shim "@ + s@ + "; no hypervisor is known for it"@,
        }
    }

    pub fn message(&self) -> (r: String)
        ensures
            r@ == self.describe(),
    {
        match self {
            ManifestError::UnknownShim(s) => {
                let mut m = owned("unknown shim ");
                m.append(s.as_str());
                m.append("; no hypervisor is known for it");
                m
            },
        }
    }
}

/// The hypervisor a shim runs.
pub fn get_hypervisor_name(shim: &str) -> (r: Result<String, ManifestError>)
    ensures
        match hypervisor_of(shim@) {
            Some(h) => (r matches Ok(s) && s@ == h),
            None => (r matches Err(ManifestError::UnknownShim(s)) && s@ == shim@),
        },
{
    if starts_with(shim, "qemu") {
        Ok(owned("qemu"))
    } else if starts_with(shim, "clh") || str_eq(shim, "cloud-hypervisor") {
        Ok(owned("clh"))
    } else if str_eq(shim, "dragonball") {
        Ok(owned("dragonball"))
    } else if str_eq(shim, "fc") || starts_with(shim, "fc-") || starts_with(shim, "firecracker") {
        Ok(owned("firecracker"))
    } else if starts_with(shim, "stratovirt") {
        Ok(owned("stratovirt"))
    } else if str_eq(shim, "remote") {
        Ok(owned("remote"))
    } else {
        Err(ManifestError::UnknownShim(owned(shim)))
    }
}

/// Whether runtime-rs, rather than the Go runtime, serves a shim.
pub open spec fn rust_shim(shim: Seq<char>) -> bool {
    shim == "cloud-hypervisor"@ || shim == "dragonball"@ || has_suffix(shim, "-runtime-rs"@)
}

/// Whether runtime-rs, rather than the Go runtime, serves a shim.
pub fn is_rust_shim(shim: &str) -> (r: bool)
    ensures
        r == rust_shim(shim@),
{
    str_eq(shim, "cloud-hypervisor") || str_eq(shim, "dragonball") || ends_with(shim, "-runtime-rs")
}

/// Configuration file of a standard shim, relative to the installation
/// directory: runtime-rs shims under `runtime-rs/runtimes/<shim>/`, Go
/// runtime ones under `runtimes/<shim>/`.
pub open spec fn shim_config_file(shim: Seq<char>) -> Seq<char> {
    DEFAULTS_DIR@ + (if rust_shim(shim) {
        "/runtime-rs/runtimes/"@
    } else {
        "/runtimes/"@
    }) + shim + "/configuration-"@ + shim + ".toml"@
}

/// Configuration file of a standard shim, relative to the installation
/// directory.
pub fn shim_config_path(shim: &str) -> (r: String)
    ensures
        r@ == shim_config_file(shim@),
{
    let mut p = owned(DEFAULTS_DIR);
    if is_rust_shim(shim) {
        p.append("/runtime-rs/runtimes/");
    } else {
        p.append("/runtimes/");
    }
    p.append(shim);
    p.append("/configuration-");
    p.append(shim);
    p.append(".toml");
    p
}

/// Configuration file of a custom runtime handler, relative to the
/// installation directory: the handler names the directory, the file keeps
/// the name of the shim configuration it was copied from.
pub open spec fn custom_runtime_config_file(handler: Seq<char>, base_config: Seq<char>) -> Seq<char> {
    DEFAULTS_DIR@ + "/custom-runtimes/"@ + handler + "/configuration-"@ + base_config + ".toml"@
}

/// Configuration file of a custom runtime handler, relative to the
/// installation directory.
pub fn custom_runtime_config_path(handler: &str, base_config: &str) -> (r: String)
    ensures
        r@ == custom_runtime_config_file(handler@, base_config@),
{
    let mut p = owned(DEFAULTS_DIR);
    p.append("/custom-runtimes/");
    p.append(handler);
    p.append("/configuration-");
    p.append(base_config);
    p.append(".toml");
    p
}

/// One RuntimeClass of the manifest.
#[derive(Debug, Clone)]
pub struct RuntimeEntry {
    /// RuntimeClass name, which is also the CRI runtime handler.
    pub runtime_class: String,
    /// Shim whose configuration this RuntimeClass is based on.
    pub shim: String,
    pub hypervisor: String,
    /// Whether runtime-rs serves the shim rather than the Go runtime.
    pub runtime_rs: bool,
    /// Configuration file, relative to the installation directory.
    pub config: String,
}

pub type EntryView = (Seq<char>, Seq<char>, Seq<char>, bool, Seq<char>);

impl View for RuntimeEntry {
    type V = EntryView;

    open spec fn view(&self) -> EntryView {
        (self.runtime_class@, self.shim@, self.hypervisor@, self.runtime_rs, self.config@)
    }
}

impl RuntimeEntry {
    pub fn duplicate(&self) -> (r: RuntimeEntry)
        ensures
            r@ == self@,
    {
        RuntimeEntry {
            runtime_class: self.runtime_class.clone(),
            shim: self.shim.clone(),
            hypervisor: self.hypervisor.clone(),
            runtime_rs: self.runtime_rs,
            config: self.config.clone(),
        }
    }
}

pub open spec fn entry_views(s: Seq<RuntimeEntry>) -> Seq<EntryView> {
    s.map_values(|e: RuntimeEntry| e@)
}

/// The manifest of the RuntimeClasses an installation holds.
#[derive(Debug, Clone)]
pub struct RuntimeManifest {
    pub version: u32,
    pub architecture: String,
    /// Installation directory the `config` paths are relative to, as the
    /// node sees it.
    pub install_dir: String,
    pub runtimes: Vec<RuntimeEntry>,
}

/// The entry of a standard shim.
pub open spec fn shim_entry(suffix: Option<Seq<char>>, shim: Seq<char>) -> EntryView {
    (handler_for(suffix, shim), shim, hypervisor_of(shim).unwrap(), rust_shim(shim), shim_config_file(shim))
}

/// The entry of a custom runtime handler.
pub open spec fn custom_entry(c: CustomRuntime) -> EntryView {
    (
        c.handler@,
        c.base_config@,
        hypervisor_of(c.base_config@).unwrap(),
        rust_shim(c.base_config@),
        custom_runtime_config_file(c.handler@, c.base_config@),
    )
}

/// Every shim a configuration's RuntimeClasses are based on, standard
/// shims first, in configuration order.
pub open spec fn base_shims(config: DeployConfig) -> Seq<Seq<char>> {
    config.shims_for_arch@.map_values(|s: String| s@) + config.custom_runtimes@.map_values(
        |c: CustomRuntime| c.base_config@,
    )
}

/// The entries of a configuration, in configuration order.
pub open spec fn config_entries(config: DeployConfig) -> Seq<EntryView> {
    config.shims_for_arch@.map_values(|s: String| shim_entry(opt_view(config.multi_install_suffix), s@))
        + config.custom_runtimes@.map_values(|c: CustomRuntime| custom_entry(c))
}

pub open spec fn entry_keys(s: Seq<EntryView>) -> Seq<Seq<char>> {
    s.map_values(|e: EntryView| e.0)
}

pub open spec fn reorder_entries(s: Seq<EntryView>, order: Seq<usize>) -> Seq<EntryView> {
    order.map_values(|i: usize| s[i as int])
}

/// Index of the first shim of `bases` whose hypervisor is not known.
pub open spec fn first_unknown(bases: Seq<Seq<char>>, i: int) -> bool {
    &&& 0 <= i < bases.len()
    &&& hypervisor_of(bases[i]) is None
    &&& forall|j: int| 0 <= j < i ==> (#[trigger] hypervisor_of(bases[j])) is Some
}

/// `m` is the manifest of what `config` installs on `architecture`: its
/// entries are those of the configuration, stably sorted by RuntimeClass.
pub open spec fn describes_config(m: RuntimeManifest, config: DeployConfig, architecture: Seq<char>) -> bool {
    &&& m.version == MANIFEST_VERSION
    &&& forall|i: int, j: int|
        0 <= i < j < m.runtimes@.len() ==> lex_le(
            #[trigger] m.runtimes@[i].runtime_class@,
            #[trigger] m.runtimes@[j].runtime_class@,
        )
    &&& m.architecture@ == architecture
    &&& m.install_dir@ == config.dest_dir@
    &&& exists|order: Seq<usize>|
        stably_sorted(entry_keys(config_entries(config)), order) && entry_views(m.runtimes@) == reorder_entries(
            config_entries(config),
            order,
        )
}

impl RuntimeManifest {
    /// The manifest of what `config` installs on `architecture`: one entry per
    /// standard shim and one per custom runtime, stably sorted by RuntimeClass.
    /// A shim of unknown hypervisor is an error, naming the first such shim.
    pub fn from_config(config: &DeployConfig, architecture: &str) -> (r: Result<RuntimeManifest, ManifestError>)
        ensures
            r is Err <==> exists|i: int| 0 <= i < base_shims(*config).len() && (#[trigger] hypervisor_of(
                base_shims(*config)[i],
            )) is None,
            r matches Err(ManifestError::UnknownShim(s)) ==> exists|i: int|
                first_unknown(base_shims(*config), i) && #[trigger] base_shims(*config)[i] == s@,
            r matches Ok(m) ==> describes_config(m, *config, architecture@),
    {
        let ghost bases = base_shims(*config);
        let ghost want = config_entries(*config);
        let ghost suffix = opt_view(config.multi_install_suffix);
        let ns = config.shims_for_arch.len();
        let mut runtimes: Vec<RuntimeEntry> = Vec::new();
        let mut i: usize = 0;
        while i < ns
            invariant
                ns == config.shims_for_arch@.len(),
                bases == base_shims(*config),
                want == config_entries(*config),
                suffix == opt_view(config.multi_install_suffix),
                i <= ns,
                forall|j: int| 0 <= j < i ==> (#[trigger] hypervisor_of(bases[j])) is Some,
                entry_views(runtimes@) == want.take(i as int),
            decreases ns - i,
        {
            let shim = config.shims_for_arch[i].as_str();
            assert(bases[i as int] == shim@);
            assert(want[i as int] == shim_entry(suffix, shim@));
            let hypervisor = match get_hypervisor_name(shim) {
                Ok(h) => h,
                Err(e) => {
                    assert(first_unknown(bases, i as int));
                    return Err(e);
                },
            };
            let e = RuntimeEntry {
                runtime_class: config.runtime_handler_for_shim(shim),
                shim: owned(shim),
                hypervisor,
                runtime_rs: is_rust_shim(shim),
                config: shim_config_path(shim),
            };
            let ghost before = entry_views(runtimes@);
            runtimes.push(e);
            assert(entry_views(runtimes@) =~= before.push(want[i as int]));
            assert(want.take(i + 1) =~= want.take(i as int).push(want[i as int]));
            i = i + 1;
        }
        let nc = config.custom_runtimes.len();
        let mut k: usize = 0;
        while k < nc
            invariant
                ns == config.shims_for_arch@.len(),
                nc == config.custom_runtimes@.len(),
                bases == base_shims(*config),
                want == config_entries(*config),
                bases.len() == ns + nc,
                want.len() == ns + nc,
                k <= nc,
                forall|j: int| 0 <= j < ns + k ==> (#[trigger] hypervisor_of(bases[j])) is Some,
                entry_views(runtimes@) == want.take(ns + k),
            decreases nc - k,
        {
            let c = &config.custom_runtimes[k];
            assert(bases[ns + k] == c.base_config@);
            assert(want[ns + k] == custom_entry(*c));
            let hypervisor = match get_hypervisor_name(c.base_config.as_str()) {
                Ok(h) => h,
                Err(e) => {
                    assert(first_unknown(bases, ns + k));
                    return Err(e);
                },
            };
            let e = RuntimeEntry {
                runtime_class: c.handler.clone(),
                shim: c.base_config.clone(),
                hypervisor,
                runtime_rs: is_rust_shim(c.base_config.as_str()),
                config: custom_runtime_config_path(c.handler.as_str(), c.base_config.as_str()),
            };
            let ghost before = entry_views(runtimes@);
            runtimes.push(e);
            assert(entry_views(runtimes@) =~= before.push(want[ns + k]));
            assert(want.take(ns + k + 1) =~= want.take(ns + k).push(want[ns + k]));
            k = k + 1;
        }
        assert(want.take(want.len() as int) =~= want);
        assert forall|j: int| 0 <= j < bases.len() implies (#[trigger] hypervisor_of(bases[j])) is Some by {}
        let sorted = sort_entries(runtimes);
        Ok(
            RuntimeManifest {
                version: MANIFEST_VERSION,
                architecture: owned(architecture),
                install_dir: config.dest_dir.clone(),
                runtimes: sorted,
            },
        )
    }
}

/// The entries stably sorted by RuntimeClass.
fn sort_entries(runtimes: Vec<RuntimeEntry>) -> (r: Vec<RuntimeEntry>)
    ensures
        forall|i: int, j: int|
            0 <= i < j < r@.len() ==> lex_le(#[trigger] r@[i].runtime_class@, #[trigger] r@[j].runtime_class@),
        exists|order: Seq<usize>|
            stably_sorted(entry_keys(entry_views(runtimes@)), order) && entry_views(r@) == reorder_entries(
                entry_views(runtimes@),
                order,
            ),
{
    let ghost ev = entry_views(runtimes@);
    let mut keys: Vec<String> = Vec::new();
    let mut k: usize = 0;
    while k < runtimes.len()
        invariant
            ev == entry_views(runtimes@),
            k <= runtimes@.len(),
            keys@.map_values(|s: String| s@) == entry_keys(ev).take(k as int),
        decreases runtimes@.len() - k,
    {
        let ghost before = keys@.map_values(|s: String| s@);
        keys.push(runtimes[k].runtime_class.clone());
        assert(keys@.map_values(|s: String| s@) =~= before.push(ev[k as int].0));
        assert(entry_keys(ev).take(k + 1) =~= entry_keys(ev).take(k as int).push(ev[k as int].0));
        k = k + 1;
    }
    assert(entry_keys(ev).take(ev.len() as int) =~= entry_keys(ev));
    let order = stable_sort_indices(&keys);
    let ghost sorted = reorder_entries(ev, order@);
    let mut out: Vec<RuntimeEntry> = Vec::new();
    let mut j: usize = 0;
    while j < order.len()
        invariant
            ev == entry_views(runtimes@),
            stably_sorted(entry_keys(ev), order@),
            sorted == reorder_entries(ev, order@),
            j <= order@.len(),
            entry_views(out@) == sorted.take(j as int),
        decreases order@.len() - j,
    {
        let e = &runtimes[order[j]];
        let ghost before = entry_views(out@);
        out.push(e.duplicate());
        assert(entry_views(out@) =~= before.push(sorted[j as int]));
        assert(sorted.take(j + 1) =~= sorted.take(j as int).push(sorted[j as int]));
        j = j + 1;
    }
    assert(sorted.take(sorted.len() as int) =~= sorted);
    assert forall|a: int, b: int| 0 <= a < b < out@.len() implies lex_le(
        #[trigger] out@[a].runtime_class@,
        #[trigger] out@[b].runtime_class@,
    ) by {
        assert(entry_views(out@)[a] == out@[a]@);
        assert(entry_views(out@)[b] == out@[b]@);
        assert(entry_keys(ev)[order@[a] as int] == sorted[a].0);
        assert(entry_keys(ev)[order@[b] as int] == sorted[b].0);
    }
    out
}

/// Every entry of a configuration's manifest names the hypervisor its shim
/// runs, for standard shims and custom runtimes alike: the one known for the
/// shim's name, so `qemu` for every shim whose name starts with `qemu`.
pub proof fn lemma_manifest_entries_name_their_hypervisor(
    m: RuntimeManifest,
    config: DeployConfig,
    architecture: Seq<char>,
)
    requires
        describes_config(m, config, architecture),
        forall|i: int| 0 <= i < base_shims(config).len() ==> (#[trigger] hypervisor_of(base_shims(config)[i])) is Some,
    ensures
        forall|k: int|
            0 <= k < m.runtimes@.len() ==> base_shims(config).contains(#[trigger] m.runtimes@[k].shim@)
                && hypervisor_of(m.runtimes@[k].shim@) == Some(m.runtimes@[k].hypervisor@),
        forall|k: int|
            0 <= k < m.runtimes@.len() && has_prefix(#[trigger] m.runtimes@[k].shim@, "qemu"@)
                ==> m.runtimes@[k].hypervisor@ == "qemu"@,
{
    let want = config_entries(config);
    let bases = base_shims(config);
    let order = choose|order: Seq<usize>|
        stably_sorted(entry_keys(want), order) && entry_views(m.runtimes@) == reorder_entries(want, order);
    let ns = config.shims_for_arch@.len();
    assert forall|k: int| 0 <= k < m.runtimes@.len() implies bases.contains(#[trigger] m.runtimes@[k].shim@)
        && hypervisor_of(m.runtimes@[k].shim@) == Some(m.runtimes@[k].hypervisor@) by {
        let idx = order[k] as int;
        assert(entry_views(m.runtimes@).len() == m.runtimes@.len());
        assert(order.len() == entry_keys(want).len() == want.len() == bases.len());
        assert(order[k] < entry_keys(want).len());
        assert(entry_views(m.runtimes@)[k] == m.runtimes@[k]@);
        assert(reorder_entries(want, order)[k] == want[idx]);
        assert(m.runtimes@[k]@ == want[idx]);
        assert(hypervisor_of(bases[idx]) is Some);
        if idx < ns {
            assert(bases[idx] == config.shims_for_arch@[idx]@);
        } else {
            assert(bases[idx] == config.custom_runtimes@[idx - ns].base_config@);
        }
        assert(m.runtimes@[k].shim@ == bases[idx]);
    }
    assert forall|k: int| 0 <= k < m.runtimes@.len() && has_prefix(#[trigger] m.runtimes@[k].shim@, "qemu"@)
        implies m.runtimes@[k].hypervisor@ == "qemu"@ by {
        assert(hypervisor_of(m.runtimes@[k].shim@) == Some(m.runtimes@[k].hypervisor@));
    }
}

} // verus!
