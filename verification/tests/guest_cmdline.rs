use kata_parts::guest_cmdline::{
    add_qemu_console_kernel_params, add_qemu_iommu_kernel_params, build_kernel_cmdline,
    build_qemu_kernel_params, remove_qemu_secure_execution_kernel_params, CmdlineError,
    GuestExtensionImage, HypervisorConfig, HYPERVISOR_QEMU, MACHINE_TYPE_S390X_TYPE, VIRTIO_BLK_PCI,
};
use kata_parts::kernel_params::{
    new_rootfs_kernel_params, KernelParams, Param, ParamError, RootfsError, VM_ROOTFS_DRIVER_PMEM,
};

fn qemu_config() -> HypervisorConfig {
    let mut config = HypervisorConfig::default();
    config.boot_info.vm_rootfs_driver = VIRTIO_BLK_PCI.to_string();
    config.boot_info.rootfs_type = "ext4".to_string();
    config.boot_info.kernel_params = "foo=bar".to_string();
    config
}

fn cmdline(config: &HypervisorConfig) -> String {
    build_kernel_cmdline(HYPERVISOR_QEMU, config, true).unwrap()
}

#[test]
fn qemu_image_cmdline() {
    let cmdline = cmdline(&qemu_config());

    assert_eq!(
        cmdline,
        "reboot=k panic=1 systemd.unit=kata-containers.target \
         systemd.mask=systemd-networkd.service \
         systemd.mask=systemd-networkd.socket root=/dev/vda1 \
         rootflags=data=ordered,errors=remount-ro ro rootfstype=ext4 \
         foo=bar selinux=1 console=hvc0"
    );
}

#[test]
fn qemu_config_derived_extras() {
    let mut config = qemu_config();
    config.device_info.enable_iommu = true;
    config.disable_guest_selinux = true;
    config.guest_extension_images.push(GuestExtensionImage {
        name: "gpu".to_string(),
        path: String::new(),
        verity_params: "root_hash=abc".to_string(),
    });

    let cmdline = cmdline(&config);

    assert!(cmdline.contains("foo=bar selinux=0"));
    assert!(cmdline.contains("kata.extension.gpu.verity_params=root_hash=abc"));
    assert!(cmdline.ends_with("intel_iommu=on iommu=pt console=hvc0"));
}

#[test]
fn qemu_secure_execution_strips_boot_parameters() {
    let mut config = qemu_config();
    config.security_info.confidential_guest = true;
    config.machine_info.machine_type = MACHINE_TYPE_S390X_TYPE.to_string();

    let cmdline = cmdline(&config);

    assert!(!cmdline.contains("reboot="));
    assert!(!cmdline.contains("systemd.unit="));
    assert!(!cmdline.contains("systemd.mask="));
    assert!(!cmdline.contains("root="));
    assert!(cmdline.contains("panic=1"));
    assert!(cmdline.ends_with("foo=bar selinux=1 console=hvc0"));
}

#[test]
fn rejects_non_qemu_hypervisor() {
    let error = build_kernel_cmdline("clh", &qemu_config(), true).unwrap_err();
    assert!(error.message().contains("only qemu is supported"));
}

#[test]
fn the_rejection_names_the_hypervisor() {
    let error = build_kernel_cmdline("dragonball", &qemu_config(), true).unwrap_err();
    assert!(matches!(&error, CmdlineError::UnsupportedHypervisor(h) if h == "dragonball"));
    assert_eq!(error.message(), "unsupported hypervisor dragonball; only qemu is supported");
}

#[test]
fn debug_adds_the_agent_log_port() {
    let mut config = qemu_config();
    config.debug_info.enable_debug = true;
    assert!(cmdline(&config).starts_with(
        "reboot=k panic=1 systemd.unit=kata-containers.target \
         systemd.mask=systemd-networkd.service systemd.mask=systemd-networkd.socket \
         agent.log_vport=1025 root=/dev/vda1"
    ));
}

#[test]
fn an_initrd_boots_without_rootfs_parameters() {
    let mut config = qemu_config();
    config.boot_info.initrd = "/opt/kata/share/kata-containers/kata-containers-initrd.img".to_string();
    assert_eq!(
        cmdline(&config),
        "reboot=k panic=1 systemd.unit=kata-containers.target \
         systemd.mask=systemd-networkd.service systemd.mask=systemd-networkd.socket \
         foo=bar selinux=1 console=hvc0"
    );
}

#[test]
fn arm_iommu_uses_the_passthrough_switch() {
    let mut config = qemu_config();
    config.device_info.enable_iommu = true;
    config.machine_info.machine_type = "virt".to_string();
    assert!(cmdline(&config).ends_with("selinux=1 iommu.passthrough=0 console=hvc0"));
}

#[test]
fn secure_execution_needs_the_s390x_machine() {
    let mut config = qemu_config();
    config.security_info.confidential_guest = true;
    config.machine_info.machine_type = "q35".to_string();
    assert!(cmdline(&config).contains("root=/dev/vda1"));
}

#[test]
fn pmem_rootfs_is_mounted_with_dax_where_asked() {
    let mut config = qemu_config();
    config.boot_info.vm_rootfs_driver = VM_ROOTFS_DRIVER_PMEM.to_string();
    let with_dax = build_kernel_cmdline(HYPERVISOR_QEMU, &config, true).unwrap();
    let without_dax = build_kernel_cmdline(HYPERVISOR_QEMU, &config, false).unwrap();
    assert!(with_dax.contains("root=/dev/pmem0p1 rootflags=dax,data=ordered,errors=remount-ro ro rootfstype=ext4"));
    assert!(without_dax.contains("root=/dev/pmem0p1 rootflags=data=ordered,errors=remount-ro ro rootfstype=ext4"));
}

#[test]
fn an_unknown_rootfs_driver_is_refused() {
    let mut config = qemu_config();
    config.boot_info.vm_rootfs_driver = "virtio-fs".to_string();
    let error = build_kernel_cmdline(HYPERVISOR_QEMU, &config, true).unwrap_err();
    assert!(matches!(&error, CmdlineError::Rootfs(RootfsError::UnsupportedDriver(d)) if d == "virtio-fs"));
    assert_eq!(error.message(), "adding rootfs/verity params failed");
}

#[test]
fn an_unknown_rootfs_type_is_refused() {
    let err = new_rootfs_kernel_params("", VIRTIO_BLK_PCI, "btrfs", true).unwrap_err();
    assert!(matches!(&err, RootfsError::UnsupportedType(t) if t == "btrfs"));
    assert_eq!(err.message(), "Unsupported rootfs type btrfs");
}

#[test]
fn a_keyless_parameter_cannot_be_written_out() {
    let mut config = qemu_config();
    config.boot_info.kernel_params = "foo=bar =orphan".to_string();
    let error = build_kernel_cmdline(HYPERVISOR_QEMU, &config, true).unwrap_err();
    assert!(matches!(error, CmdlineError::Render(ParamError::EmptyKey)));
}

#[test]
fn kernel_params_parse_and_render_round_trip() {
    let params = KernelParams::from_string("a=1  b c=x=y");
    assert_eq!(params.to_string().unwrap(), "a=1 b c=x=y");
}

#[test]
fn empty_parameters_render_as_an_error() {
    let params = KernelParams::from_params(vec![Param::new("", "")]);
    assert!(matches!(params.to_string(), Err(ParamError::EmptyKeyAndValue)));
    assert_eq!(ParamError::EmptyKeyAndValue.message(), "Empty key and value");
}

#[test]
fn parameter_edits_append_and_remove() {
    let mut params = KernelParams::from_string("root=/dev/vda1 panic=1 root=/dev/vdb");
    add_qemu_iommu_kernel_params(&mut params, "q35");
    add_qemu_console_kernel_params(&mut params);
    assert_eq!(
        params.to_string().unwrap(),
        "root=/dev/vda1 panic=1 root=/dev/vdb intel_iommu=on iommu=pt console=hvc0"
    );
    remove_qemu_secure_execution_kernel_params(&mut params);
    assert_eq!(params.to_string().unwrap(), "panic=1 intel_iommu=on iommu=pt console=hvc0");
}

#[test]
fn qemu_parameters_before_the_start_path_additions() {
    let params = build_qemu_kernel_params(&qemu_config(), true).unwrap();
    assert!(params.to_string().unwrap().ends_with("rootfstype=ext4 foo=bar selinux=1"));
}

#[test]
fn a_written_command_line_reads_back_the_same() {
    let written = KernelParams::from_params(vec![
        Param::new("root", "/dev/vda1"),
        Param::new("rootflags", "data=ordered,errors=remount-ro"),
        Param::new("ro", ""),
    ])
    .to_string()
    .unwrap();
    assert_eq!(written, "root=/dev/vda1 rootflags=data=ordered,errors=remount-ro ro");
    assert_eq!(KernelParams::from_string(&written).to_string().unwrap(), written);
}

#[test]
fn verity_parameters_set_up_a_verified_root() {
    let mut config = qemu_config();
    config.boot_info.kernel_verity_params =
        "root_hash=abc,salt=def,data_blocks=1000,data_block_size=4096,hash_block_size=4096".to_string();
    assert_eq!(
        cmdline(&config),
        "reboot=k panic=1 systemd.unit=kata-containers.target \
         systemd.mask=systemd-networkd.service systemd.mask=systemd-networkd.socket \
         root=/dev/dm-0 rootflags=data=ordered,errors=remount-ro ro rootfstype=ext4 \
         dm-mod.create=\"dm-verity,,,ro,0 8000 verity 1 /dev/vda1 /dev/vda1 4096 4096 1000 1000 sha256 abc def\" \
         foo=bar selinux=1 console=hvc0"
    );
}

#[test]
fn verity_fields_may_come_in_any_order_with_empty_fields() {
    let params = new_rootfs_kernel_params(
        ",hash_block_size=512,salt=00,root_hash=ff,,data_block_size=1024,data_blocks=7",
        VIRTIO_BLK_PCI,
        "erofs",
        true,
    )
    .unwrap();
    assert_eq!(
        params.to_string().unwrap(),
        "root=/dev/dm-0 rootflags=ro rootfstype=erofs \
         dm-mod.create=\"dm-verity,,,ro,0 14 verity 1 /dev/vda1 /dev/vda1 1024 512 7 14 sha256 ff 00\""
    );
}

#[test]
fn a_verity_option_missing_a_field_names_it() {
    let err = new_rootfs_kernel_params("root_hash=abc,data_blocks=1", VIRTIO_BLK_PCI, "ext4", true).unwrap_err();
    assert!(matches!(&err, RootfsError::InvalidVerityParam(k) if k == "salt"));
    assert_eq!(err.message(), "Invalid kernel verity param salt");
}

#[test]
fn verity_sizes_must_be_positive_numbers() {
    let err = new_rootfs_kernel_params(
        "root_hash=a,salt=b,data_blocks=1,data_block_size=0,hash_block_size=4096",
        VIRTIO_BLK_PCI,
        "ext4",
        true,
    )
    .unwrap_err();
    assert!(matches!(&err, RootfsError::InvalidVerityParam(k) if k == "data_block_size"));
    let err = new_rootfs_kernel_params(
        "root_hash=a,salt=b,data_blocks=x1,data_block_size=4096,hash_block_size=4096",
        VIRTIO_BLK_PCI,
        "ext4",
        true,
    )
    .unwrap_err();
    assert!(matches!(&err, RootfsError::InvalidVerityParam(k) if k == "data_blocks"));
    let err = new_rootfs_kernel_params(
        "root_hash=a,salt=b,data_blocks=18446744073709551615,data_block_size=4096,hash_block_size=4096",
        VIRTIO_BLK_PCI,
        "ext4",
        true,
    )
    .unwrap_err();
    assert!(matches!(&err, RootfsError::InvalidVerityParam(k) if k == "data_blocks"));
}

#[test]
fn numbers_are_written_in_decimal() {
    use_decimal();
}

fn use_decimal() {
    assert_eq!(kata_parts::verity::decimal_string(0), "0");
    assert_eq!(kata_parts::verity::decimal_string(1024), "1024");
    assert_eq!(kata_parts::verity::decimal_string(u64::MAX), "18446744073709551615");
}

fn token_keys(cmdline: &str) -> Vec<&str> {
    cmdline.split(' ').map(|t| t.split('=').next().unwrap()).collect()
}

#[test]
fn the_selinux_switch_is_the_only_selinux_token() {
    let mut config = qemu_config();
    config.disable_guest_selinux = true;
    config.boot_info.kernel_params = "foo=selinux=1 bar".to_string();
    let cmdline = cmdline(&config);
    let switches: Vec<&str> = cmdline.split(' ').filter(|t| t.split('=').next() == Some("selinux")).collect();
    assert_eq!(switches, vec!["selinux=0"]);
}

#[test]
fn secure_execution_drops_the_users_boot_parameters_too() {
    let mut config = qemu_config();
    config.security_info.confidential_guest = true;
    config.machine_info.machine_type = MACHINE_TYPE_S390X_TYPE.to_string();
    config.boot_info.kernel_params = "root=/dev/sda rootflags=rw systemd.unit=x quiet".to_string();
    let cmdline = cmdline(&config);
    for key in ["reboot", "systemd.unit", "systemd.mask", "root", "rootflags", "rootfstype"] {
        assert!(!token_keys(&cmdline).contains(&key), "{key} in {cmdline}");
    }
    assert!(cmdline.ends_with("quiet selinux=1 console=hvc0"));
}

#[test]
fn without_the_iommu_no_iommu_switch_is_added() {
    let mut config = qemu_config();
    config.machine_info.machine_type = "virt".to_string();
    let cmdline = cmdline(&config);
    for key in ["iommu.passthrough", "intel_iommu", "iommu"] {
        assert!(!token_keys(&cmdline).contains(&key));
    }
    config.device_info.enable_iommu = true;
    let cmdline = build_kernel_cmdline(HYPERVISOR_QEMU, &config, true).unwrap();
    assert!(!token_keys(&cmdline).contains(&"intel_iommu"));
    assert!(cmdline.ends_with("iommu.passthrough=0 console=hvc0"));
}
