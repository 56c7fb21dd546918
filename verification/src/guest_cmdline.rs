//! The QEMU guest kernel command line a hypervisor configuration stands for.

use vstd::prelude::*;
use vstd::string::*;
use crate::kernel_params::{
    all_keyed, default_params, first_keyless_error, lemma_without_key_contents, join_params, new_rootfs_kernel_params,
    param_text, parse_params, rootfs_params, without_key, KernelParams, Param,
    ParamError, ParamView, RootfsError, RootfsFailure,
};
use crate::cmdline_tokens::{
    bare_key, bare_keys, cmdline_tokens, first_token, lemma_cmdline_token_origin, lemma_first_token_key,
    lemma_parsed_keys_bare, lemma_split_concat, no_value_token_keyed, token_key, value_tokens,
};
use crate::kernel_params::{lacks, lemma_split_single, root_device, root_flags};
use crate::text::{has_suffix, lemma_first_index_of, owned, split_on, str_eq};
use crate::kernel_params::{nonempty_pieces, parse_token};
use crate::verity::DM_MOD_CREATE;

verus! {

/// Name of the QEMU hypervisor, the only one whose command line is built here.
pub const HYPERVISOR_QEMU: &'static str = "qemu";

/// Machine type of IBM Z guests.
pub const MACHINE_TYPE_S390X_TYPE: &'static str = "s390-ccw-virtio";

/// Root filesystem block driver of a PCI virtio disk.
pub const VIRTIO_BLK_PCI: &'static str = "virtio-blk-pci";

#[derive(Debug, Clone, Default)]
pub struct DebugInfo {
    pub enable_debug: bool,
}

#[derive(Debug, Clone, Default)]
pub struct BootInfo {
    pub initrd: String,
    pub kernel_verity_params: String,
    pub vm_rootfs_driver: String,
    pub rootfs_type: String,
    pub kernel_params: String,
}

#[derive(Debug, Clone, Default)]
pub struct DeviceInfo {
    pub enable_iommu: bool,
}

#[derive(Debug, Clone, Default)]
pub struct MachineInfo {
    pub machine_type: String,
}

#[derive(Debug, Clone, Default)]
pub struct SecurityInfo {
    pub confidential_guest: bool,
}

/// An extension image attached to the guest, with its dm-verity parameters.
#[derive(Debug, Clone, Default)]
pub struct GuestExtensionImage {
    pub name: String,
    pub path: String,
    pub verity_params: String,
}

/// The parts of a hypervisor configuration the guest command line depends on.
#[derive(Debug, Clone, Default)]
pub struct HypervisorConfig {
    pub debug_info: DebugInfo,
    pub boot_info: BootInfo,
    pub device_info: DeviceInfo,
    pub machine_info: MachineInfo,
    pub security_info: SecurityInfo,
    pub disable_guest_selinux: bool,
    pub guest_extension_images: Vec<GuestExtensionImage>,
}

/// The text of one extension image's parameter.
pub open spec fn extension_text(img: GuestExtensionImage) -> Seq<char> {
    "kata.extension."@ + img.name@ + ".verity_params="@ + img.verity_params@
}

/// The parameters naming the dm-verity data of each extension image.
pub open spec fn extension_params(imgs: Seq<GuestExtensionImage>) -> Seq<ParamView>
    decreases imgs.len(),
{
    if imgs.len() == 0 {
        Seq::<ParamView>::empty()
    } else {
        extension_params(imgs.drop_last()) + parse_params(extension_text(imgs.last()))
    }
}

/// The SELinux switch of the guest.
pub open spec fn selinux_params(disable: bool) -> Seq<ParamView> {
    seq![("selinux"@, if disable { "0"@ } else { "1"@ })]
}

/// The parameters a configuration asks for before the start path adds its own.
pub open spec fn qemu_params(config: HypervisorConfig, use_dax: bool) -> Result<
    Seq<ParamView>,
    RootfsFailure,
> {
    let head = default_params(config.debug_info.enable_debug);
    let tail = parse_params(config.boot_info.kernel_params@) + selinux_params(
        config.disable_guest_selinux,
    ) + extension_params(config.guest_extension_images@);
    if config.boot_info.initrd@.len() == 0 {
        match rootfs_params(
            config.boot_info.kernel_verity_params@,
            config.boot_info.vm_rootfs_driver@,
            config.boot_info.rootfs_type@,
            use_dax,
        ) {
            Ok(root) => Ok(head + root + tail),
            Err(f) => Err(f),
        }
    } else {
        Ok(head + tail)
    }
}

/// The IOMMU parameters for a machine type.
pub open spec fn iommu_params(machine_type: Seq<char>) -> Seq<ParamView> {
    if machine_type == "virt"@ {
        seq![("iommu.passthrough"@, "0"@)]
    } else {
        seq![("intel_iommu"@, "on"@), ("iommu"@, "pt"@)]
    }
}

/// Keys that Secure Execution guests must not be given, because their boot
/// image fixes them.
pub open spec fn secure_execution_keys() -> Seq<Seq<char>> {
    seq!["reboot"@, "systemd.unit"@, "systemd.mask"@, "root"@, "rootflags"@, "rootfstype"@]
}

/// The parameters without any whose key is one of `keys`.
pub open spec fn without_keys(ps: Seq<ParamView>, keys: Seq<Seq<char>>) -> Seq<ParamView>
    decreases keys.len(),
{
    if keys.len() == 0 {
        ps
    } else {
        without_key(without_keys(ps, keys.drop_last()), keys.last())
    }
}

/// The virtio console QEMU adds right before it starts the guest.
pub open spec fn console_param() -> ParamView {
    ("console"@, "hvc0"@)
}

/// Whether the guest is an IBM Secure Execution guest.
pub open spec fn is_secure_execution(config: HypervisorConfig) -> bool {
    config.security_info.confidential_guest && config.machine_info.machine_type@
        == MACHINE_TYPE_S390X_TYPE@
}

/// The full parameter list, given the configuration-derived part.
pub open spec fn final_params(config: HypervisorConfig, base: Seq<ParamView>) -> Seq<ParamView> {
    let with_iommu = if config.device_info.enable_iommu {
        base + iommu_params(config.machine_info.machine_type@)
    } else {
        base
    };
    let stripped = if is_secure_execution(config) {
        without_keys(with_iommu, secure_execution_keys())
    } else {
        with_iommu
    };
    stripped.push(console_param())
}

/// The QEMU guest command line of a configuration, when one can be built:
/// its root filesystem is one a guest boots from and every parameter has a
/// key.
pub open spec fn qemu_cmdline(config: HypervisorConfig, use_dax: bool) -> Option<Seq<char>> {
    match qemu_params(config, use_dax) {
        Ok(base) => if all_keyed(final_params(config, base)) {
            Some(join_params(final_params(config, base)))
        } else {
            None
        },
        Err(_) => None,
    }
}

/// Why no command line could be built.
#[derive(Debug)]
pub enum CmdlineError {
    /// Only QEMU command lines are assembled here.
    UnsupportedHypervisor(String),
    /// The root filesystem parameters could not be built.
    Rootfs(RootfsError),
    /// A parameter could not be written out.
    Render(ParamError),
}

impl CmdlineError {
    /// The error as a person reads it.
    pub open spec fn describe(self) -> Seq<char> {
        match self {
            CmdlineError::UnsupportedHypervisor(name) => "unsupported hypervisor "@ + name@
                + "; only qemu is supported"@,
            CmdlineError::Rootfs(_) => "adding rootfs/verity params failed"@,
            CmdlineError::Render(e) => e.describe(),
        }
    }

    /// The error as a person reads it.
    pub fn message(&self) -> (r: String)
        ensures
            r@ == self.describe(),
    {
        match self {
            CmdlineError::UnsupportedHypervisor(name) => {
                let mut m = owned("unsupported hypervisor ");
                m.append(name.as_str());
                m.append("; only qemu is supported");
                m
            },
            CmdlineError::Rootfs(_) => owned("adding rootfs/verity params failed"),
            CmdlineError::Render(e) => e.message(),
        }
    }
}

/// Appends the IOMMU parameters of `machine_type`.
pub fn add_qemu_iommu_kernel_params(params: &mut KernelParams, machine_type: &str)
    ensures
        final(params)@ == old(params)@ + iommu_params(machine_type@),
{
    let mut extra: Vec<Param> = Vec::new();
    if str_eq(machine_type, "virt") {
        extra.push(Param::new("iommu.passthrough", "0"));
    } else {
        extra.push(Param::new("intel_iommu", "on"));
        extra.push(Param::new("iommu", "pt"));
    }
    let mut extra = KernelParams::from_params(extra);
    assert(extra@ =~= iommu_params(machine_type@));
    params.append(&mut extra);
}

/// Appends the virtio console.
pub fn add_qemu_console_kernel_params(params: &mut KernelParams)
    ensures
        final(params)@ == old(params)@.push(console_param()),
{
    let mut extra: Vec<Param> = Vec::new();
    extra.push(Param::new("console", "hvc0"));
    let mut extra = KernelParams::from_params(extra);
    assert(extra@ =~= seq![console_param()]);
    params.append(&mut extra);
}

/// Drops the parameters a Secure Execution boot image already fixes.
pub fn remove_qemu_secure_execution_kernel_params(params: &mut KernelParams)
    ensures
        final(params)@ == without_keys(old(params)@, secure_execution_keys()),
{
    let ghost keys = secure_execution_keys();
    params.remove_all_by_key("reboot");
    params.remove_all_by_key("systemd.unit");
    params.remove_all_by_key("systemd.mask");
    params.remove_all_by_key("root");
    params.remove_all_by_key("rootflags");
    params.remove_all_by_key("rootfstype");
    assert(keys.drop_last().drop_last().drop_last().drop_last().drop_last().drop_last()
        =~= Seq::<Seq<char>>::empty());
    assert(keys.drop_last().drop_last().drop_last().drop_last().drop_last().last() == "reboot"@);
    assert(keys.drop_last().drop_last().drop_last().drop_last().last() == "systemd.unit"@);
    assert(keys.drop_last().drop_last().drop_last().last() == "systemd.mask"@);
    assert(keys.drop_last().drop_last().last() == "root"@);
    assert(keys.drop_last().last() == "rootflags"@);
    assert(keys.last() == "rootfstype"@);
    proof {
        reveal_with_fuel(without_keys, 7);
    }
}

/// The extension image parameters of `imgs`.
fn extension_kernel_params(imgs: &Vec<GuestExtensionImage>) -> (r: KernelParams)
    ensures
        r@ == extension_params(imgs@),
{
    let mut params = KernelParams::from_params(Vec::new());
    assert(params@ =~= Seq::<ParamView>::empty());
    let mut i: usize = 0;
    while i < imgs.len()
        invariant
            i <= imgs@.len(),
            params@ == extension_params(imgs@.take(i as int)),
        decreases imgs@.len() - i,
    {
        let img = &imgs[i];
        let mut text = owned("kata.extension.");
        text.append(img.name.as_str());
        text.append(".verity_params=");
        text.append(img.verity_params.as_str());
        assert(text@ == extension_text(imgs@[i as int]));
        let mut extra = KernelParams::from_string(text.as_str());
        params.append(&mut extra);
        assert(imgs@.take(i + 1).drop_last() =~= imgs@.take(i as int));
        i = i + 1;
    }
    assert(imgs@.take(imgs@.len() as int) =~= imgs@);
    params
}

/// The parameters the configuration asks for, before the start path adds
/// the IOMMU switches and the console.
pub fn build_qemu_kernel_params(config: &HypervisorConfig, use_dax: bool) -> (r: Result<
    KernelParams,
    RootfsError,
>)
    ensures
        match r {
            Ok(p) => qemu_params(*config, use_dax) == Ok::<Seq<ParamView>, RootfsFailure>(p@),
            Err(e) => qemu_params(*config, use_dax) == Err::<Seq<ParamView>, RootfsFailure>(e@),
        },
{
    let mut params = KernelParams::new(config.debug_info.enable_debug);
    if config.boot_info.initrd.as_str().unicode_len() == 0 {
        let mut rootfs = new_rootfs_kernel_params(
            config.boot_info.kernel_verity_params.as_str(),
            config.boot_info.vm_rootfs_driver.as_str(),
            config.boot_info.rootfs_type.as_str(),
            use_dax,
        )?;
        params.append(&mut rootfs);
    }
    let mut user = KernelParams::from_string(config.boot_info.kernel_params.as_str());
    params.append(&mut user);
    let mut selinux: Vec<Param> = Vec::new();
    if config.disable_guest_selinux {
        selinux.push(Param::new("selinux", "0"));
    } else {
        selinux.push(Param::new("selinux", "1"));
    }
    let mut selinux = KernelParams::from_params(selinux);
    assert(selinux@ =~= selinux_params(config.disable_guest_selinux));
    params.append(&mut selinux);
    let mut extensions = extension_kernel_params(&config.guest_extension_images);
    params.append(&mut extensions);
    proof {
        let head = default_params(config.debug_info.enable_debug);
        let user_ps = parse_params(config.boot_info.kernel_params@);
        let sel = selinux_params(config.disable_guest_selinux);
        let ext = extension_params(config.guest_extension_images@);
        if config.boot_info.initrd@.len() == 0 {
            if let Ok(root) = rootfs_params(
                config.boot_info.kernel_verity_params@,
                config.boot_info.vm_rootfs_driver@,
                config.boot_info.rootfs_type@,
                use_dax,
            ) {
                assert(head + root + user_ps + sel + ext =~= head + root + (user_ps + sel + ext));
            }
        } else {
            assert(head + user_ps + sel + ext =~= head + (user_ps + sel + ext));
        }
    }
    Ok(params)
}

/// The QEMU guest kernel command line a hypervisor configuration stands for:
/// everything the QEMU start path adds that follows from the configuration,
/// and nothing that depends on a particular sandbox's annotations or devices.
///
/// `use_dax` says whether a persistent-memory root filesystem is mounted with
/// DAX, which the runtime does on every architecture but aarch64.
pub fn build_kernel_cmdline(
    hypervisor_name: &str,
    config: &HypervisorConfig,
    use_dax: bool,
) -> (r: Result<String, CmdlineError>)
    ensures
        hypervisor_name@ != HYPERVISOR_QEMU@ ==> (r matches Err(
            CmdlineError::UnsupportedHypervisor(n),
        ) && n@ == hypervisor_name@),
        hypervisor_name@ == HYPERVISOR_QEMU@ ==> match qemu_params(*config, use_dax) {
            Err(f) => (r matches Err(CmdlineError::Rootfs(e)) && e@ == f),
            Ok(base) => {
                let ps = final_params(*config, base);
                match r {
                    Ok(s) => all_keyed(ps) && s@ == join_params(ps),
                    Err(CmdlineError::Render(e)) => !all_keyed(ps) && first_keyless_error(ps, e),
                    Err(_) => false,
                }
            },
        },
        r matches Ok(s) ==> has_suffix(s@, "console=hvc0"@),
        hypervisor_name@ == HYPERVISOR_QEMU@ ==> (r is Ok <==> qemu_cmdline(*config, use_dax) is Some),
        r matches Ok(s) ==> qemu_cmdline(*config, use_dax) == Some(s@),
{
    if !str_eq(hypervisor_name, HYPERVISOR_QEMU) {
        return Err(CmdlineError::UnsupportedHypervisor(owned(hypervisor_name)));
    }
    let mut params = match build_qemu_kernel_params(config, use_dax) {
        Ok(p) => p,
        Err(e) => return Err(CmdlineError::Rootfs(e)),
    };
    let ghost base = params@;
    if config.device_info.enable_iommu {
        add_qemu_iommu_kernel_params(&mut params, config.machine_info.machine_type.as_str());
    }
    if config.security_info.confidential_guest && str_eq(
        config.machine_info.machine_type.as_str(),
        MACHINE_TYPE_S390X_TYPE,
    ) {
        remove_qemu_secure_execution_kernel_params(&mut params);
    }
    let ghost before_console = params@;
    add_qemu_console_kernel_params(&mut params);
    assert(params@ == final_params(*config, base));
    match params.to_string() {
        Ok(s) => {
            proof {
                lemma_join_ends_with_last(before_console, console_param());
                reveal_strlit("console=hvc0");
                reveal_strlit("console");
                reveal_strlit("hvc0");
                assert(param_text(console_param()) =~= "console=hvc0"@);
            }
            Ok(s)
        },
        Err(e) => Err(CmdlineError::Render(e)),
    }
}

/// Removing several keys leaves no parameter with any of them, keeps every
/// parameter with another key, and adds none.
pub proof fn lemma_without_keys_contents(ps: Seq<ParamView>, keys: Seq<Seq<char>>)
    ensures
        forall|i: int, k: int|
            0 <= i < without_keys(ps, keys).len() && 0 <= k < keys.len() ==> #[trigger] without_keys(
                ps,
                keys,
            )[i].0 != #[trigger] keys[k],
        forall|p: ParamView| ps.contains(p) && !keys.contains(p.0) ==> #[trigger] without_keys(ps, keys).contains(p),
        forall|p: ParamView| #[trigger] without_keys(ps, keys).contains(p) ==> ps.contains(p),
    decreases keys.len(),
{
    if keys.len() > 0 {
        let init = keys.drop_last();
        lemma_without_keys_contents(ps, init);
        let mid = without_keys(ps, init);
        lemma_without_key_contents(mid, keys.last());
        let r = without_keys(ps, keys);
        assert forall|i: int, k: int| 0 <= i < r.len() && 0 <= k < keys.len() implies #[trigger] r[i].0 != #[trigger] keys[k] by {
            assert(r.contains(r[i]));
            assert(mid.contains(r[i]));
            let j = choose|j: int| 0 <= j < mid.len() && mid[j] == r[i];
            if k < keys.len() - 1 {
                assert(init[k] == keys[k]);
                assert(mid[j].0 != init[k]);
            }
        }
        assert forall|p: ParamView| ps.contains(p) && !keys.contains(p.0) implies #[trigger] without_keys(ps, keys).contains(p) by {
            assert(!init.contains(p.0)) by {
                if init.contains(p.0) {
                    let k = choose|k: int| 0 <= k < init.len() && init[k] == p.0;
                    assert(keys[k] == p.0);
                }
            }
            assert(mid.contains(p));
            assert(keys[keys.len() - 1] == keys.last());
        }
    }
}

/// A Secure Execution guest is given none of the parameters its boot image
/// fixes, and keeps every other parameter its configuration asks for.
pub proof fn lemma_secure_execution_strips_boot_parameters(config: HypervisorConfig, base: Seq<ParamView>)
    requires
        is_secure_execution(config),
    ensures
        forall|i: int, k: int|
            0 <= i < final_params(config, base).len() && 0 <= k < secure_execution_keys().len()
                ==> #[trigger] final_params(config, base)[i].0 != #[trigger] secure_execution_keys()[k],
        forall|p: ParamView|
            base.contains(p) && !secure_execution_keys().contains(p.0) ==> #[trigger] final_params(
                config,
                base,
            ).contains(p),
{
    let keys = secure_execution_keys();
    let with_iommu = if config.device_info.enable_iommu {
        base + iommu_params(config.machine_info.machine_type@)
    } else {
        base
    };
    lemma_without_keys_contents(with_iommu, keys);
    let stripped = without_keys(with_iommu, keys);
    let f = final_params(config, base);
    assert(f == stripped.push(console_param()));
    assert forall|i: int, k: int| 0 <= i < f.len() && 0 <= k < keys.len() implies #[trigger] f[i].0 != #[trigger] keys[k] by {
        if i < stripped.len() {
            assert(f[i] == stripped[i]);
        } else {
            reveal_strlit("console");
            reveal_strlit("reboot");
            reveal_strlit("systemd.unit");
            reveal_strlit("systemd.mask");
            reveal_strlit("root");
            reveal_strlit("rootflags");
            reveal_strlit("rootfstype");
            assert(f[i].0 == "console"@);
            assert(f[i].0.len() != keys[k].len() || f[i].0[0] != keys[k][0]);
        }
    }
    assert forall|p: ParamView| base.contains(p) && !keys.contains(p.0) implies #[trigger] f.contains(p) by {
        if config.device_info.enable_iommu {
            let i = choose|i: int| 0 <= i < base.len() && base[i] == p;
            assert(with_iommu[i] == p);
        }
        assert(with_iommu.contains(p));
        assert(stripped.contains(p));
        let j = choose|j: int| 0 <= j < stripped.len() && stripped[j] == p;
        assert(f[j] == p);
    }
}

/// The guest is given the SELinux switch its configuration asks for:
/// `selinux=0` when guest SELinux is disabled, `selinux=1` otherwise.
pub proof fn lemma_selinux_switch_is_kept(config: HypervisorConfig, use_dax: bool)
    requires
        qemu_params(config, use_dax) is Ok,
    ensures
        final_params(config, qemu_params(config, use_dax)->Ok_0).contains(
            selinux_params(config.disable_guest_selinux)[0],
        ),
{
    let base = qemu_params(config, use_dax)->Ok_0;
    let sel = selinux_params(config.disable_guest_selinux);
    let user = parse_params(config.boot_info.kernel_params@);
    let ext = extension_params(config.guest_extension_images@);
    let tail = user + sel + ext;
    assert(tail[user.len() as int] == sel[0]);
    assert(base.contains(sel[0])) by {
        let head = default_params(config.debug_info.enable_debug);
        if config.boot_info.initrd@.len() == 0 {
            let root = rootfs_params(
                config.boot_info.kernel_verity_params@,
                config.boot_info.vm_rootfs_driver@,
                config.boot_info.rootfs_type@,
                use_dax,
            )->Ok_0;
            assert(base == head + root + tail);
            assert(base[(head.len() + root.len() + user.len()) as int] == sel[0]);
        } else {
            assert(base == head + tail);
            assert(base[(head.len() + user.len()) as int] == sel[0]);
        }
    }
    let keys = secure_execution_keys();
    assert(!keys.contains(sel[0].0)) by {
        reveal_strlit("selinux");
        reveal_strlit("reboot");
        reveal_strlit("systemd.unit");
        reveal_strlit("systemd.mask");
        reveal_strlit("root");
        reveal_strlit("rootflags");
        reveal_strlit("rootfstype");
        if keys.contains(sel[0].0) {
            let k = choose|k: int| 0 <= k < keys.len() && keys[k] == sel[0].0;
            assert(keys[k].len() != sel[0].0.len() || keys[k][0] != sel[0].0[0] || keys[k][1] != sel[0].0[1]);
        }
    }
    let with_iommu = if config.device_info.enable_iommu {
        base + iommu_params(config.machine_info.machine_type@)
    } else {
        base
    };
    assert(with_iommu.contains(sel[0])) by {
        let i = choose|i: int| 0 <= i < base.len() && base[i] == sel[0];
        assert(with_iommu[i] == sel[0]);
    }
    let stripped = if is_secure_execution(config) {
        without_keys(with_iommu, keys)
    } else {
        with_iommu
    };
    lemma_without_keys_contents(with_iommu, keys);
    assert(stripped.contains(sel[0]));
    let f = final_params(config, base);
    let j = choose|j: int| 0 <= j < stripped.len() && stripped[j] == sel[0];
    assert(f[j] == sel[0]);
}

/// With the IOMMU enabled, outside Secure Execution, the command line ends
/// with the machine type's IOMMU switches and then the console; with it
/// disabled, nothing follows the configuration's own parameters but the
/// console.
pub proof fn lemma_iommu_switches_precede_the_console(config: HypervisorConfig, base: Seq<ParamView>)
    requires
        !is_secure_execution(config),
    ensures
        final_params(config, base) == (if config.device_info.enable_iommu {
            base + iommu_params(config.machine_info.machine_type@)
        } else {
            base
        }).push(console_param()),
{
}

/// A written-out list ends with the text of its last parameter.
pub proof fn lemma_join_ends_with_last(ps: Seq<ParamView>, p: ParamView)
    ensures
        has_suffix(join_params(ps.push(p)), param_text(p)),
{
    let j = join_params(ps.push(p));
    let t = param_text(p);
    assert(ps.push(p).drop_last() =~= ps);
    if ps.len() == 0 {
        assert(ps.push(p)[0] == p);
        assert(j.subrange(0, j.len() as int) =~= j);
    } else {
        assert(j =~= join_params(ps) + seq![' '] + t);
        assert(j.subrange(j.len() - t.len(), j.len() as int) =~= t);
    }
}

/// Keys of the parameters every boot from a root filesystem image starts
/// with, before those of the configuration.
pub open spec fn is_boot_key(k: Seq<char>) -> bool {
    ||| k == "reboot"@
    ||| k == "panic"@
    ||| k == "systemd.unit"@
    ||| k == "systemd.mask"@
    ||| k == "agent.log_vport"@
    ||| k == "root"@
    ||| k == "rootflags"@
    ||| k == "rootfstype"@
    ||| k == DM_MOD_CREATE@
}

/// Keys of the IOMMU switches.
pub open spec fn is_iommu_key(k: Seq<char>) -> bool {
    k == "iommu.passthrough"@ || k == "intel_iommu"@ || k == "iommu"@
}

/// The parameters the user and the extension images supply.
pub open spec fn supplied_params(config: HypervisorConfig) -> Seq<ParamView> {
    parse_params(config.boot_info.kernel_params@) + extension_params(config.guest_extension_images@)
}

/// No parameter has the key `key`.
pub open spec fn none_keyed(ps: Seq<ParamView>, key: Seq<char>) -> bool {
    forall|i: int| 0 <= i < ps.len() ==> #[trigger] ps[i].0 != key
}

/// The full parameter list of a configuration whose parameters can be built.
pub open spec fn cmdline_params(config: HypervisorConfig, use_dax: bool) -> Seq<ParamView> {
    final_params(config, qemu_params(config, use_dax)->Ok_0)
}

/// The token the SELinux switch is written as.
pub open spec fn selinux_token(disable: bool) -> Seq<char> {
    if disable {
        "selinux=0"@
    } else {
        "selinux=1"@
    }
}

/// How a command line with the IOMMU on ends, per machine type.
pub open spec fn iommu_cmdline_tail(machine_type: Seq<char>) -> Seq<char> {
    if machine_type == "virt"@ {
        "iommu.passthrough=0 console=hvc0"@
    } else {
        "intel_iommu=on iommu=pt console=hvc0"@
    }
}

proof fn lemma_fixed_keys()
    ensures
        forall|k: Seq<char>| #[trigger] is_boot_key(k) ==> bare_key(k) && k != "selinux"@ && !is_iommu_key(k),
        forall|k: Seq<char>| #[trigger] is_iommu_key(k) ==> bare_key(k) && k != "selinux"@ && k != "console"@,
        bare_key("selinux"@),
        bare_key("console"@),
        "selinux"@ != "console"@,
{
    reveal_strlit("reboot");
    reveal_strlit("panic");
    reveal_strlit("systemd.unit");
    reveal_strlit("systemd.mask");
    reveal_strlit("agent.log_vport");
    reveal_strlit("root");
    reveal_strlit("rootflags");
    reveal_strlit("rootfstype");
    reveal_strlit("dm-mod.create");
    reveal_strlit("iommu.passthrough");
    reveal_strlit("intel_iommu");
    reveal_strlit("iommu");
    reveal_strlit("selinux");
    reveal_strlit("console");
    assert("panic"@[0] != "iommu"@[0]);
    assert("selinux"@[0] != "console"@[0]);
    assert(DM_MOD_CREATE@ == "dm-mod.create"@);
    assert(bare_key("reboot"@));
    assert(bare_key("panic"@));
    assert(bare_key("systemd.unit"@));
    assert(bare_key("systemd.mask"@));
    assert(bare_key("agent.log_vport"@));
    assert(bare_key("root"@));
    assert(bare_key("rootflags"@));
    assert(bare_key("rootfstype"@));
    assert(bare_key("dm-mod.create"@));
    assert forall|k: Seq<char>| #[trigger] is_boot_key(k) implies k != "selinux"@ && !is_iommu_key(k) by {
        assert(k.len() != 7 && k.len() != 11 && k.len() != 17);
        if k.len() == 5 {
            assert(k == "panic"@);
            assert(k[0] != "iommu"@[0]);
        }
    }
}

proof fn lemma_extension_params_bare(imgs: Seq<GuestExtensionImage>)
    ensures
        bare_keys(extension_params(imgs)),
    decreases imgs.len(),
{
    if imgs.len() > 0 {
        lemma_extension_params_bare(imgs.drop_last());
        lemma_parsed_keys_bare(extension_text(imgs.last()));
        let a = extension_params(imgs.drop_last());
        let b = parse_params(extension_text(imgs.last()));
        assert forall|i: int| 0 <= i < (a + b).len() implies bare_key(#[trigger] (a + b)[i].0) by {
            if i < a.len() {
                assert((a + b)[i] == a[i]);
            } else {
                assert((a + b)[i] == b[i - a.len()]);
            }
        }
    }
}

/// Each parameter of a configuration's own list is one the user or an
/// extension image supplies, the SELinux switch, or one of the boot
/// parameters.
proof fn lemma_base_origin(config: HypervisorConfig, use_dax: bool)
    requires
        qemu_params(config, use_dax) is Ok,
    ensures
        forall|p: ParamView|
            #[trigger] qemu_params(config, use_dax)->Ok_0.contains(p) ==> supplied_params(config).contains(p) || p
                == selinux_params(config.disable_guest_selinux)[0] || is_boot_key(p.0),
{
    let base = qemu_params(config, use_dax)->Ok_0;
    let head = default_params(config.debug_info.enable_debug);
    let user = parse_params(config.boot_info.kernel_params@);
    let sel = selinux_params(config.disable_guest_selinux);
    let ext = extension_params(config.guest_extension_images@);
    let sup = supplied_params(config);
    assert forall|p: ParamView| #[trigger] base.contains(p) implies sup.contains(p) || p == sel[0] || is_boot_key(p.0) by {
        let i = choose|i: int| 0 <= i < base.len() && base[i] == p;
        let root = if config.boot_info.initrd@.len() == 0 {
            rootfs_params(
                config.boot_info.kernel_verity_params@,
                config.boot_info.vm_rootfs_driver@,
                config.boot_info.rootfs_type@,
                use_dax,
            )->Ok_0
        } else {
            Seq::<ParamView>::empty()
        };
        assert(base =~= head + root + (user + sel + ext));
        let h = head.len() as int;
        let r = root.len() as int;
        let u = user.len() as int;
        if i < h {
            assert(p == head[i]);
        } else if i < h + r {
            assert(p == root[i - h]);
        } else if i < h + r + u {
            assert(p == user[i - h - r]);
            assert(sup[i - h - r] == p);
        } else if i == h + r + u {
            assert(p == sel[0]);
        } else {
            assert(p == ext[i - h - r - u - 1]);
            assert(sup[i - h - r - 1] == p);
        }
    }
}

/// Each parameter of the full list is one of the configuration's own, one
/// of the IOMMU switches when the IOMMU is on, or the console.
proof fn lemma_final_origin(config: HypervisorConfig, base: Seq<ParamView>)
    ensures
        forall|p: ParamView|
            #[trigger] final_params(config, base).contains(p) ==> base.contains(p) || (config.device_info.enable_iommu
                && iommu_params(config.machine_info.machine_type@).contains(p)) || p == console_param(),
{
    let with_iommu = if config.device_info.enable_iommu {
        base + iommu_params(config.machine_info.machine_type@)
    } else {
        base
    };
    let keys = secure_execution_keys();
    lemma_without_keys_contents(with_iommu, keys);
    let stripped = if is_secure_execution(config) {
        without_keys(with_iommu, keys)
    } else {
        with_iommu
    };
    let f = final_params(config, base);
    assert forall|p: ParamView| #[trigger] f.contains(p) implies base.contains(p) || (config.device_info.enable_iommu
        && iommu_params(config.machine_info.machine_type@).contains(p)) || p == console_param() by {
        let i = choose|i: int| 0 <= i < f.len() && f[i] == p;
        if i < stripped.len() {
            assert(stripped[i] == p);
            assert(stripped.contains(p));
            assert(with_iommu.contains(p));
            let j = choose|j: int| 0 <= j < with_iommu.len() && with_iommu[j] == p;
            if j < base.len() {
                assert(base[j] == p);
            } else {
                let m = iommu_params(config.machine_info.machine_type@);
                assert(m[j - base.len()] == p);
            }
        }
    }
}

/// Every parameter of a buildable configuration's full list has a bare key.
proof fn lemma_cmdline_params_bare(config: HypervisorConfig, use_dax: bool)
    requires
        qemu_params(config, use_dax) is Ok,
    ensures
        bare_keys(cmdline_params(config, use_dax)),
{
    let base = qemu_params(config, use_dax)->Ok_0;
    let f = cmdline_params(config, use_dax);
    lemma_base_origin(config, use_dax);
    lemma_final_origin(config, base);
    lemma_fixed_keys();
    lemma_parsed_keys_bare(config.boot_info.kernel_params@);
    lemma_extension_params_bare(config.guest_extension_images@);
    let sup = supplied_params(config);
    let user = parse_params(config.boot_info.kernel_params@);
    let ext = extension_params(config.guest_extension_images@);
    assert forall|i: int| 0 <= i < f.len() implies bare_key(#[trigger] f[i].0) by {
        let p = f[i];
        assert(f.contains(p));
        if base.contains(p) {
            if sup.contains(p) {
                let j = choose|j: int| 0 <= j < sup.len() && sup[j] == p;
                if j < user.len() {
                    assert(user[j] == p);
                } else {
                    assert(ext[j - user.len()] == p);
                }
            }
        } else if p != console_param() {
            let m = iommu_params(config.machine_info.machine_type@);
            let j = choose|j: int| 0 <= j < m.len() && m[j] == p;
            assert(is_iommu_key(p.0));
        }
    }
}

/// The first token of a parameter whose value holds no space is its whole
/// text.
proof fn lemma_first_token_whole(p: ParamView)
    requires
        lacks(p.1, ' '),
    ensures
        first_token(p) == param_text(p),
{
    if p.1.len() > 0 {
        lemma_split_single(p.1, ' ');
    }
}

/// A command line a configuration yields carries the SELinux switch the
/// configuration asks for, and no other token of it is read as a SELinux
/// switch, when no parameter the user or an extension image supplies sets
/// SELinux and no parameter's value carries such a token past a space.
pub proof fn lemma_cmdline_selinux_switch(config: HypervisorConfig, use_dax: bool, s: Seq<char>)
    requires
        qemu_cmdline(config, use_dax) == Some(s),
        none_keyed(supplied_params(config), "selinux"@),
        no_value_token_keyed(cmdline_params(config, use_dax), "selinux"@),
    ensures
        cmdline_tokens(s).contains(selinux_token(config.disable_guest_selinux)),
        forall|t: Seq<char>|
            #[trigger] cmdline_tokens(s).contains(t) && token_key(t) == "selinux"@ ==> t == selinux_token(
                config.disable_guest_selinux,
            ),
{
    let f = cmdline_params(config, use_dax);
    let sel = selinux_params(config.disable_guest_selinux);
    lemma_cmdline_params_bare(config, use_dax);
    lemma_cmdline_token_origin(f);
    lemma_selinux_first_token(config.disable_guest_selinux);
    lemma_selinux_switch_is_kept(config, use_dax);
    let j = choose|j: int| 0 <= j < f.len() && f[j] == sel[0];
    assert(cmdline_tokens(s).contains(first_token(f[j])));
    assert forall|t: Seq<char>| #[trigger] cmdline_tokens(s).contains(t) && token_key(t) == "selinux"@ implies t
        == selinux_token(config.disable_guest_selinux) by {
        let i = choose|i: int| 0 <= i < f.len() && (t == first_token(f[i]) || value_tokens(f[i]).contains(t));
        assert(!value_tokens(f[i]).contains(t));
        assert(bare_key(f[i].0));
        lemma_first_token_key(f[i]);
        assert(f.contains(f[i]));
        lemma_selinux_param(config, use_dax, f[i]);
    }
}

/// The SELinux switch is written as a single token.
proof fn lemma_selinux_first_token(disable: bool)
    ensures
        first_token(selinux_params(disable)[0]) == selinux_token(disable),
{
    let sel = selinux_params(disable);
    reveal_strlit("selinux");
    reveal_strlit("0");
    reveal_strlit("1");
    reveal_strlit("selinux=0");
    reveal_strlit("selinux=1");
    assert(lacks(sel[0].1, ' '));
    lemma_first_token_whole(sel[0]);
    assert(param_text(sel[0]) =~= selinux_token(disable));
}

/// The one parameter of the full list keyed `selinux` is the switch, when
/// no parameter the user or an extension image supplies has that key.
proof fn lemma_selinux_param(config: HypervisorConfig, use_dax: bool, p: ParamView)
    requires
        qemu_params(config, use_dax) is Ok,
        cmdline_params(config, use_dax).contains(p),
        p.0 == "selinux"@,
        none_keyed(supplied_params(config), "selinux"@),
    ensures
        p == selinux_params(config.disable_guest_selinux)[0],
{
    lemma_keyed_param_origin(config, use_dax, p);
    lemma_fixed_keys();
    if config.device_info.enable_iommu && iommu_params(config.machine_info.machine_type@).contains(p) {
        let m = iommu_params(config.machine_info.machine_type@);
        let k = choose|k: int| 0 <= k < m.len() && m[k] == p;
        assert(is_iommu_key(p.0));
    }
}

/// A parameter of the full list whose key no parameter the user or an
/// extension image supplies has is the SELinux switch, a boot parameter,
/// one of the IOMMU switches with the IOMMU on, or the console.
proof fn lemma_keyed_param_origin(config: HypervisorConfig, use_dax: bool, p: ParamView)
    requires
        qemu_params(config, use_dax) is Ok,
        cmdline_params(config, use_dax).contains(p),
        none_keyed(supplied_params(config), p.0),
    ensures
        p == selinux_params(config.disable_guest_selinux)[0] || is_boot_key(p.0) || (
        config.device_info.enable_iommu && iommu_params(config.machine_info.machine_type@).contains(p)) || p
            == console_param(),
{
    let base = qemu_params(config, use_dax)->Ok_0;
    let sup = supplied_params(config);
    lemma_base_origin(config, use_dax);
    lemma_final_origin(config, base);
    if base.contains(p) && sup.contains(p) {
        let k = choose|k: int| 0 <= k < sup.len() && sup[k] == p;
        assert(sup[k].0 != p.0);
    }
}

/// A Secure Execution guest's command line has no token read with a key
/// its boot image fixes, the user's own parameters included, when no
/// parameter's value carries such a token past a space; and it ends with
/// the console.
pub proof fn lemma_cmdline_secure_execution(config: HypervisorConfig, use_dax: bool, s: Seq<char>)
    requires
        qemu_cmdline(config, use_dax) == Some(s),
        is_secure_execution(config),
        forall|k: int|
            0 <= k < secure_execution_keys().len() ==> no_value_token_keyed(
                cmdline_params(config, use_dax),
                #[trigger] secure_execution_keys()[k],
            ),
    ensures
        forall|t: Seq<char>| #[trigger] cmdline_tokens(s).contains(t) ==> !secure_execution_keys().contains(token_key(t)),
        has_suffix(s, "console=hvc0"@),
{
    let base = qemu_params(config, use_dax)->Ok_0;
    let f = cmdline_params(config, use_dax);
    let keys = secure_execution_keys();
    lemma_cmdline_params_bare(config, use_dax);
    lemma_cmdline_token_origin(f);
    lemma_secure_execution_strips_boot_parameters(config, base);
    assert forall|t: Seq<char>| #[trigger] cmdline_tokens(s).contains(t) implies !keys.contains(token_key(t)) by {
        if keys.contains(token_key(t)) {
            let k = choose|k: int| 0 <= k < keys.len() && keys[k] == token_key(t);
            let i = choose|i: int| 0 <= i < f.len() && (t == first_token(f[i]) || value_tokens(f[i]).contains(t));
            assert(no_value_token_keyed(f, keys[k]));
            assert(!value_tokens(f[i]).contains(t));
            assert(bare_key(f[i].0));
            lemma_first_token_key(f[i]);
            assert(f[i].0 == keys[k]);
        }
    }
    lemma_cmdline_ends_with_console(config, base);
}

/// Every full list ends with the console, so its command line does.
proof fn lemma_cmdline_ends_with_console(config: HypervisorConfig, base: Seq<ParamView>)
    ensures
        has_suffix(join_params(final_params(config, base)), "console=hvc0"@),
{
    let f = final_params(config, base);
    assert(f.drop_last().push(console_param()) =~= f);
    lemma_join_ends_with_last(f.drop_last(), console_param());
    reveal_strlit("console=hvc0");
    reveal_strlit("console");
    reveal_strlit("hvc0");
    assert(param_text(console_param()) =~= "console=hvc0"@);
}

/// No token of a configuration's command line is read as an IOMMU switch
/// unless the IOMMU is on and the switch is one its machine type is given,
/// when no parameter the user or an extension image supplies has that key
/// and no parameter's value carries such a token past a space.
pub proof fn lemma_cmdline_iommu_tokens(config: HypervisorConfig, use_dax: bool, s: Seq<char>, key: Seq<char>)
    requires
        qemu_cmdline(config, use_dax) == Some(s),
        is_iommu_key(key),
        none_keyed(supplied_params(config), key),
        no_value_token_keyed(cmdline_params(config, use_dax), key),
    ensures
        forall|t: Seq<char>|
            #[trigger] cmdline_tokens(s).contains(t) && token_key(t) == key ==> config.device_info.enable_iommu
                && exists|j: int|
                0 <= j < iommu_params(config.machine_info.machine_type@).len() && #[trigger] iommu_params(
                    config.machine_info.machine_type@,
                )[j].0 == key && t == param_text(iommu_params(config.machine_info.machine_type@)[j]),
{
    let f = cmdline_params(config, use_dax);
    let m = iommu_params(config.machine_info.machine_type@);
    lemma_cmdline_params_bare(config, use_dax);
    lemma_cmdline_token_origin(f);
    assert forall|t: Seq<char>| #[trigger] cmdline_tokens(s).contains(t) && token_key(t) == key implies config.device_info.enable_iommu
        && exists|j: int| 0 <= j < m.len() && #[trigger] m[j].0 == key && t == param_text(m[j]) by {
        let i = choose|i: int| 0 <= i < f.len() && (t == first_token(f[i]) || value_tokens(f[i]).contains(t));
        assert(!value_tokens(f[i]).contains(t));
        assert(bare_key(f[i].0));
        lemma_first_token_key(f[i]);
        assert(f.contains(f[i]));
        let j = lemma_iommu_param(config, use_dax, f[i]);
        assert(m[j].0 == key);
    }
}

/// A parameter of the full list keyed as an IOMMU switch is one of the
/// switches of the machine type, written as a single token, with the IOMMU
/// on, when no parameter the user or an extension image supplies has its
/// key.
proof fn lemma_iommu_param(config: HypervisorConfig, use_dax: bool, p: ParamView) -> (j: int)
    requires
        qemu_params(config, use_dax) is Ok,
        cmdline_params(config, use_dax).contains(p),
        is_iommu_key(p.0),
        none_keyed(supplied_params(config), p.0),
    ensures
        config.device_info.enable_iommu,
        0 <= j < iommu_params(config.machine_info.machine_type@).len(),
        iommu_params(config.machine_info.machine_type@)[j] == p,
        first_token(p) == param_text(p),
{
    lemma_keyed_param_origin(config, use_dax, p);
    lemma_fixed_keys();
    let m = iommu_params(config.machine_info.machine_type@);
    assert(p != selinux_params(config.disable_guest_selinux)[0]);
    assert(p != console_param());
    let j = choose|j: int| 0 <= j < m.len() && m[j] == p;
    reveal_strlit("0");
    reveal_strlit("on");
    reveal_strlit("pt");
    assert(lacks(m[j].1, ' '));
    lemma_first_token_whole(p);
    j
}

/// A list of at least two parts is written as its parts, one space apart.
proof fn lemma_join_concat(a: Seq<ParamView>, b: Seq<ParamView>)
    requires
        a.len() > 0,
        b.len() > 0,
    ensures
        join_params(a + b) == join_params(a) + seq![' '] + join_params(b),
    decreases b.len(),
{
    if b.len() == 1 {
        assert((a + b).drop_last() =~= a);
        assert((a + b).last() == b[0]);
    } else {
        let b0 = b.drop_last();
        lemma_join_concat(a, b0);
        assert((a + b).drop_last() =~= a + b0);
        assert((a + b).last() == b.last());
        assert(join_params(a + b) =~= join_params(a) + seq![' '] + join_params(b));
    }
}

/// With the IOMMU on, outside Secure Execution, a configuration's command
/// line ends with its machine type's IOMMU switches and then the console:
/// `iommu.passthrough=0 console=hvc0` on `virt` machines,
/// `intel_iommu=on iommu=pt console=hvc0` on the others.
pub proof fn lemma_cmdline_ends_with_iommu_switches(config: HypervisorConfig, use_dax: bool, s: Seq<char>)
    requires
        qemu_cmdline(config, use_dax) == Some(s),
        config.device_info.enable_iommu,
        !is_secure_execution(config),
    ensures
        has_suffix(s, iommu_cmdline_tail(config.machine_info.machine_type@)),
{
    let base = qemu_params(config, use_dax)->Ok_0;
    let mt = config.machine_info.machine_type@;
    let tail = iommu_params(mt).push(console_param());
    assert(final_params(config, base) =~= base + tail);
    assert(base.len() > 0) by {
        let head = default_params(config.debug_info.enable_debug);
        assert(base[0] == head[0]);
    }
    lemma_join_concat(base, tail);
    let j = join_params(tail);
    assert(s == join_params(base) + seq![' '] + j);
    lemma_iommu_tail_text(mt);
    assert(s.subrange(s.len() - j.len(), s.len() as int) =~= j);
}

/// The IOMMU switches of a machine type and the console, written out.
proof fn lemma_iommu_tail_text(mt: Seq<char>)
    ensures
        join_params(iommu_params(mt).push(console_param())) == iommu_cmdline_tail(mt),
{
    let tail = iommu_params(mt).push(console_param());
    reveal_strlit("console");
    reveal_strlit("hvc0");
    let c = param_text(console_param());
    assert(c =~= "console"@ + seq!['='] + "hvc0"@);
    if mt == "virt"@ {
        reveal_strlit("0");
        reveal_strlit("iommu.passthrough");
        reveal_strlit("iommu.passthrough=0 console=hvc0");
        let a = param_text(tail[0]);
        assert(a =~= "iommu.passthrough"@ + seq!['='] + "0"@);
        assert(tail.len() == 2);
        assert(tail.last() == console_param());
        assert(tail.drop_last().len() == 1 && tail.drop_last()[0] == tail[0]);
        assert(join_params(tail.drop_last()) == a);
        assert(join_params(tail) == a + seq![' '] + c);
        assert(a + seq![' '] + c =~= iommu_cmdline_tail(mt));
    } else {
        reveal_strlit("on");
        reveal_strlit("pt");
        reveal_strlit("intel_iommu");
        reveal_strlit("iommu");
        reveal_strlit("intel_iommu=on iommu=pt console=hvc0");
        let a = param_text(tail[0]);
        let b = param_text(tail[1]);
        assert(a =~= "intel_iommu"@ + seq!['='] + "on"@);
        assert(b =~= "iommu"@ + seq!['='] + "pt"@);
        let t2 = tail.drop_last();
        assert(tail.len() == 3);
        assert(tail.last() == console_param());
        assert(t2.len() == 2 && t2[0] == tail[0] && t2.last() == tail[1]);
        assert(t2.drop_last().len() == 1 && t2.drop_last()[0] == tail[0]);
        assert(join_params(t2.drop_last()) == a);
        assert(join_params(tail.drop_last()) == a + seq![' '] + b);
        assert(join_params(tail) == a + seq![' '] + b + seq![' '] + c);
        assert(a + seq![' '] + b + seq![' '] + c =~= iommu_cmdline_tail(mt));
    }
}

/// A value without spaces makes no further token.
proof fn lemma_plain_value_tokens(p: ParamView)
    requires
        lacks(p.1, ' '),
    ensures
        value_tokens(p) =~= Seq::<Seq<char>>::empty(),
{
    lemma_split_single(p.1, ' ');
}

/// A value that is spaceless text followed by ` ro` makes the one further
/// token `ro`.
proof fn lemma_then_ro_value_tokens(p: ParamView)
    requires
        p.1.len() >= 3,
        lacks(p.1.take(p.1.len() - 3), ' '),
        p.1.skip(p.1.len() - 3) =~= seq![' ', 'r', 'o'],
    ensures
        value_tokens(p) =~= seq![seq!['r', 'o']],
{
    let x = p.1.take(p.1.len() - 3);
    let ro = seq!['r', 'o'];
    assert(p.1 =~= x + seq![' '] + ro);
    lemma_split_concat(x, ro, ' ');
    lemma_split_single(x, ' ');
    assert(lacks(ro, ' '));
    lemma_split_single(ro, ' ');
    assert(split_on(p.1, ' ') =~= seq![x, ro]);
}

/// The further tokens the root filesystem parameters of a boot without
/// dm-verity make: at most the `ro` of the mount flags.
proof fn lemma_rootfs_value_tokens(driver: Seq<char>, fs_type: Seq<char>, use_dax: bool)
    requires
        rootfs_params(Seq::empty(), driver, fs_type, use_dax) is Ok,
    ensures
        forall|i: int, t: Seq<char>|
            0 <= i < rootfs_params(Seq::empty(), driver, fs_type, use_dax)->Ok_0.len() && #[trigger] value_tokens(
                rootfs_params(Seq::empty(), driver, fs_type, use_dax)->Ok_0[i],
            ).contains(t) ==> t == seq!['r', 'o'],
{
    let root = rootfs_params(Seq::empty(), driver, fs_type, use_dax)->Ok_0;
    let dev = root_device(driver)->Some_0;
    let flags = root_flags(driver, fs_type, use_dax)->Some_0;
    reveal_strlit("/dev/vda1");
    reveal_strlit("/dev/pmem0p1");
    reveal_strlit("ext4");
    reveal_strlit("xfs");
    reveal_strlit("erofs");
    reveal_strlit("virtio-pmem");
    reveal_strlit("dax,data=ordered,errors=remount-ro ro");
    reveal_strlit("data=ordered,errors=remount-ro ro");
    reveal_strlit("dax ro");
    reveal_strlit("ro");
    assert(lacks(dev, ' '));
    assert(lacks(fs_type, ' '));
    lemma_plain_value_tokens(root[0]);
    lemma_plain_value_tokens(root[2]);
    if flags == "ro"@ {
        lemma_plain_value_tokens(root[1]);
    } else {
        assert(lacks(flags.take(flags.len() - 3), ' '));
        lemma_then_ro_value_tokens(root[1]);
    }
    assert forall|i: int, t: Seq<char>|
        0 <= i < root.len() && #[trigger] value_tokens(root[i]).contains(t) implies t == seq!['r', 'o'] by {
        if i == 1 {
            assert(value_tokens(root[1]).len() <= 1);
        }
    }
}

/// Every parameter a user or an extension image supplies has a value
/// without spaces.
proof fn lemma_supplied_values_plain(config: HypervisorConfig)
    ensures
        forall|i: int| 0 <= i < supplied_params(config).len() ==> lacks(#[trigger] supplied_params(config)[i].1, ' '),
{
    lemma_parsed_keys_bare(config.boot_info.kernel_params@);
    lemma_extension_values_plain(config.guest_extension_images@);
    let a = parse_params(config.boot_info.kernel_params@);
    let b = extension_params(config.guest_extension_images@);
    assert forall|i: int| 0 <= i < (a + b).len() implies lacks(#[trigger] (a + b)[i].1, ' ') by {
        if i < a.len() {
            assert((a + b)[i] == a[i]);
        } else {
            assert((a + b)[i] == b[i - a.len()]);
        }
    }
}

proof fn lemma_extension_values_plain(imgs: Seq<GuestExtensionImage>)
    ensures
        forall|i: int| 0 <= i < extension_params(imgs).len() ==> lacks(#[trigger] extension_params(imgs)[i].1, ' '),
    decreases imgs.len(),
{
    if imgs.len() > 0 {
        lemma_extension_values_plain(imgs.drop_last());
        lemma_parsed_keys_bare(extension_text(imgs.last()));
        let a = extension_params(imgs.drop_last());
        let b = parse_params(extension_text(imgs.last()));
        assert forall|i: int| 0 <= i < (a + b).len() implies lacks(#[trigger] (a + b)[i].1, ' ') by {
            if i < a.len() {
                assert((a + b)[i] == a[i]);
            } else {
                assert((a + b)[i] == b[i - a.len()]);
            }
        }
    }
}

/// The values the start path adds, and those of the parameters every guest
/// starts from, hold no spaces.
proof fn lemma_fixed_values_plain(config: HypervisorConfig)
    ensures
        forall|i: int|
            0 <= i < default_params(config.debug_info.enable_debug).len() ==> lacks(
                #[trigger] default_params(config.debug_info.enable_debug)[i].1,
                ' ',
            ),
        forall|i: int|
            0 <= i < iommu_params(config.machine_info.machine_type@).len() ==> lacks(
                #[trigger] iommu_params(config.machine_info.machine_type@)[i].1,
                ' ',
            ),
        lacks(selinux_params(config.disable_guest_selinux)[0].1, ' '),
        lacks(console_param().1, ' '),
{
    reveal_strlit("k");
    reveal_strlit("1");
    reveal_strlit("kata-containers.target");
    reveal_strlit("systemd-networkd.service");
    reveal_strlit("systemd-networkd.socket");
    reveal_strlit("1025");
    reveal_strlit("0");
    reveal_strlit("on");
    reveal_strlit("pt");
    reveal_strlit("hvc0");
    assert(lacks("kata-containers.target"@, ' '));
    assert(lacks("systemd-networkd.service"@, ' '));
    assert(lacks("systemd-networkd.socket"@, ' '));
}

/// Without dm-verity, the only further token any parameter's value makes
/// is the `ro` of the root mount flags.
proof fn lemma_value_tokens_without_verity(config: HypervisorConfig, use_dax: bool)
    requires
        qemu_params(config, use_dax) is Ok,
        config.boot_info.initrd@.len() > 0 || config.boot_info.kernel_verity_params@.len() == 0,
    ensures
        forall|i: int, t: Seq<char>|
            0 <= i < cmdline_params(config, use_dax).len() && #[trigger] value_tokens(
                cmdline_params(config, use_dax)[i],
            ).contains(t) ==> t == seq!['r', 'o'],
{
    let base = qemu_params(config, use_dax)->Ok_0;
    let f = cmdline_params(config, use_dax);
    let head = default_params(config.debug_info.enable_debug);
    let user = parse_params(config.boot_info.kernel_params@);
    let sel = selinux_params(config.disable_guest_selinux);
    let ext = extension_params(config.guest_extension_images@);
    let sup = supplied_params(config);
    let m = iommu_params(config.machine_info.machine_type@);
    lemma_final_origin(config, base);
    lemma_fixed_values_plain(config);
    lemma_supplied_values_plain(config);
    let root = if config.boot_info.initrd@.len() == 0 {
        assert(config.boot_info.kernel_verity_params@ =~= Seq::<char>::empty());
        lemma_rootfs_value_tokens(config.boot_info.vm_rootfs_driver@, config.boot_info.rootfs_type@, use_dax);
        rootfs_params(Seq::empty(), config.boot_info.vm_rootfs_driver@, config.boot_info.rootfs_type@, use_dax)->Ok_0
    } else {
        Seq::<ParamView>::empty()
    };
    assert(base =~= head + root + (user + sel + ext));
    assert forall|i: int, t: Seq<char>|
        0 <= i < f.len() && #[trigger] value_tokens(f[i]).contains(t) implies t == seq!['r', 'o'] by {
        let p = f[i];
        assert(f.contains(p));
        if base.contains(p) {
            let k = choose|k: int| 0 <= k < base.len() && base[k] == p;
            let h = head.len() as int;
            let r = root.len() as int;
            let u = user.len() as int;
            if k < h {
                assert(p == head[k]);
                lemma_plain_value_tokens(p);
            } else if k < h + r {
                assert(p == root[k - h]);
            } else if k < h + r + u {
                assert(p == sup[k - h - r]);
                lemma_plain_value_tokens(p);
            } else if k == h + r + u {
                assert(p == sel[0]);
                lemma_plain_value_tokens(p);
            } else {
                assert(p == sup[k - h - r - 1]);
                lemma_plain_value_tokens(p);
            }
        } else if p == console_param() {
            lemma_plain_value_tokens(p);
        } else {
            let j = choose|j: int| 0 <= j < m.len() && m[j] == p;
            lemma_plain_value_tokens(p);
        }
    }
}

/// Without dm-verity, no parameter's value carries a token with any key but
/// `ro`: the conditions the laws above place on values then hold for every
/// other key.
pub proof fn lemma_no_value_token_keyed_without_verity(config: HypervisorConfig, use_dax: bool, key: Seq<char>)
    requires
        qemu_params(config, use_dax) is Ok,
        config.boot_info.initrd@.len() > 0 || config.boot_info.kernel_verity_params@.len() == 0,
        key != seq!['r', 'o'],
    ensures
        no_value_token_keyed(cmdline_params(config, use_dax), key),
{
    let f = cmdline_params(config, use_dax);
    lemma_value_tokens_without_verity(config, use_dax);
    let ro: ParamView = (seq!['r', 'o'], Seq::empty());
    assert(bare_key(ro.0));
    lemma_first_token_key(ro);
    assert forall|i: int, t: Seq<char>|
        0 <= i < f.len() && #[trigger] value_tokens(f[i]).contains(t) implies token_key(t) != key by {
        assert(t == seq!['r', 'o']);
    }
}

/// The parameter that names an extension image's dm-verity data:
/// `kata.extension.<name>.verity_params`, set to the image's verity
/// parameters.
pub open spec fn image_param(img: GuestExtensionImage) -> ParamView {
    ("kata.extension."@ + img.name@ + ".verity_params"@, img.verity_params@)
}

/// An image whose name holds no space or `=` and whose verity parameters
/// hold no space, so that its parameter reads back as one.
pub open spec fn plain_image(img: GuestExtensionImage) -> bool {
    lacks(img.name@, ' ') && lacks(img.name@, '=') && lacks(img.verity_params@, ' ')
}

proof fn lemma_image_text_parses(img: GuestExtensionImage)
    requires
        plain_image(img),
    ensures
        parse_params(extension_text(img)) == seq![image_param(img)],
{
    reveal_strlit("kata.extension.");
    reveal_strlit(".verity_params=");
    reveal_strlit(".verity_params");
    let t = extension_text(img);
    let key = image_param(img).0;
    let k = key.len() as int;
    assert(t =~= key + seq!['='] + img.verity_params@);
    assert forall|j: int| 0 <= j < k implies t[j] != '=' && t[j] != ' ' by {
        assert(t[j] == key[j]);
        let a = "kata.extension."@.len() as int;
        if j >= a && j < a + img.name@.len() {
            assert(key[j] == img.name@[j - a]);
        }
    }
    assert(t[k] == '=');
    assert forall|j: int| 0 <= j < t.len() implies t[j] != ' ' by {
        if j > k {
            assert(t[j] == img.verity_params@[j - k - 1]);
        }
    }
    lemma_split_single(t, ' ');
    assert(t.len() > 0);
    assert(seq![t].drop_last() =~= Seq::<Seq<char>>::empty());
    assert(nonempty_pieces(seq![t].drop_last()) == Seq::<Seq<char>>::empty());
    assert(seq![t].last() == t);
    assert(nonempty_pieces(seq![t]) == Seq::<Seq<char>>::empty().push(t));
    assert(nonempty_pieces(seq![t]) =~= seq![t]);
    lemma_first_index_of(t, '=', k);
    assert(t.take(k) =~= key);
    assert(t.skip(k + 1) =~= img.verity_params@);
    assert(parse_token(t) == image_param(img));
    assert(seq![t].map_values(|x: Seq<char>| parse_token(x)) =~= seq![image_param(img)]);
}

/// Every extension image contributes its parameter, in image order: the
/// extension parameters of plain images are exactly one
/// `kata.extension.<name>.verity_params=<verity params>` per image.
pub proof fn lemma_extension_params_per_image(imgs: Seq<GuestExtensionImage>)
    requires
        forall|i: int| 0 <= i < imgs.len() ==> plain_image(#[trigger] imgs[i]),
    ensures
        extension_params(imgs) == imgs.map_values(|img: GuestExtensionImage| image_param(img)),
    decreases imgs.len(),
{
    if imgs.len() > 0 {
        let init = imgs.drop_last();
        assert forall|i: int| 0 <= i < init.len() implies plain_image(#[trigger] init[i]) by {
            assert(init[i] == imgs[i]);
        }
        lemma_extension_params_per_image(init);
        assert(plain_image(imgs[imgs.len() - 1]));
        lemma_image_text_parses(imgs.last());
        assert(imgs.map_values(|img: GuestExtensionImage| image_param(img)) =~= init.map_values(
            |img: GuestExtensionImage| image_param(img),
        ) + seq![image_param(imgs.last())]);
    }
}

/// The parameters a configuration asks for end with its extension images'
/// parameters, one per image in image order; and every image's parameter is
/// in the full list the command line is written from, Secure Execution or
/// not, so the command line holds each as a token.
pub proof fn lemma_cmdline_names_every_extension_image(config: HypervisorConfig, use_dax: bool)
    requires
        qemu_params(config, use_dax) is Ok,
        forall|i: int|
            0 <= i < config.guest_extension_images@.len() ==> plain_image(#[trigger] config.guest_extension_images@[i]),
    ensures
        ({
            let base = qemu_params(config, use_dax)->Ok_0;
            let imgs = config.guest_extension_images@;
            &&& imgs.len() <= base.len()
            &&& forall|i: int|
                0 <= i < imgs.len() ==> base[base.len() - imgs.len() + i] == image_param(#[trigger] imgs[i])
        }),
        forall|i: int|
            0 <= i < config.guest_extension_images@.len() ==> cmdline_params(config, use_dax).contains(
                image_param(#[trigger] config.guest_extension_images@[i]),
            ),
        qemu_cmdline(config, use_dax) is Some ==> forall|i: int|
            0 <= i < config.guest_extension_images@.len() ==> cmdline_tokens(qemu_cmdline(config, use_dax)->Some_0).contains(
                param_text(image_param(#[trigger] config.guest_extension_images@[i])),
            ),
{
    let base = qemu_params(config, use_dax)->Ok_0;
    let imgs = config.guest_extension_images@;
    let ext = extension_params(imgs);
    lemma_extension_params_per_image(imgs);
    let head = default_params(config.debug_info.enable_debug);
    let user = parse_params(config.boot_info.kernel_params@);
    let sel = selinux_params(config.disable_guest_selinux);
    let root = if config.boot_info.initrd@.len() == 0 {
        rootfs_params(
            config.boot_info.kernel_verity_params@,
            config.boot_info.vm_rootfs_driver@,
            config.boot_info.rootfs_type@,
            use_dax,
        )->Ok_0
    } else {
        Seq::<ParamView>::empty()
    };
    assert(base =~= head + root + user + sel + ext);
    assert forall|i: int| 0 <= i < imgs.len() implies base[base.len() - imgs.len() + i] == image_param(
        #[trigger] imgs[i],
    ) by {
        assert(ext[i] == image_param(imgs[i]));
    }
    let f = cmdline_params(config, use_dax);
    assert forall|i: int| 0 <= i < imgs.len() implies f.contains(image_param(#[trigger] imgs[i])) by {
        let p = image_param(imgs[i]);
        let b = base.len() - imgs.len() + i;
        assert(base[b] == p);
        lemma_image_param_kept(config, base, imgs[i], b);
    }
    let s = qemu_cmdline(config, use_dax)->Some_0;
    assert forall|i: int|
        0 <= i < imgs.len() && qemu_cmdline(config, use_dax) is Some implies cmdline_tokens(s).contains(
        param_text(image_param(#[trigger] imgs[i])),
    ) by {
        let p = image_param(imgs[i]);
        assert(f.contains(p));
        let j = choose|j: int| 0 <= j < f.len() && f[j] == p;
        lemma_cmdline_params_bare(config, use_dax);
        lemma_cmdline_token_origin(f);
        assert(cmdline_tokens(s).contains(first_token(f[j])));
        assert(plain_image(imgs[i]));
        lemma_first_token_whole(p);
    }
}

/// An extension image's parameter survives into the full list: its key is
/// none of those Secure Execution strips.
proof fn lemma_image_param_kept(config: HypervisorConfig, base: Seq<ParamView>, img: GuestExtensionImage, b: int)
    requires
        0 <= b < base.len(),
        base[b] == image_param(img),
    ensures
        final_params(config, base).contains(image_param(img)),
{
    let p = image_param(img);
    let keys = secure_execution_keys();
    let with_iommu = if config.device_info.enable_iommu {
        base + iommu_params(config.machine_info.machine_type@)
    } else {
        base
    };
    assert(with_iommu[b] == p);
    assert(with_iommu.contains(p));
    reveal_strlit("kata.extension.");
    reveal_strlit("reboot");
    reveal_strlit("systemd.unit");
    reveal_strlit("systemd.mask");
    reveal_strlit("root");
    reveal_strlit("rootflags");
    reveal_strlit("rootfstype");
    assert(!keys.contains(p.0)) by {
        if keys.contains(p.0) {
            let k = choose|k: int| 0 <= k < keys.len() && keys[k] == p.0;
            assert(p.0[0] == "kata.extension."@[0]);
            assert(keys[k][0] != 'k');
        }
    }
    lemma_without_keys_contents(with_iommu, keys);
    let stripped = if is_secure_execution(config) {
        without_keys(with_iommu, keys)
    } else {
        with_iommu
    };
    assert(stripped.contains(p));
    let j = choose|j: int| 0 <= j < stripped.len() && stripped[j] == p;
    assert(final_params(config, base)[j] == p);
}

} // verus!
