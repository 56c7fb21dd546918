use kata_parts::runtime_manifest::{
    custom_runtime_config_path, get_hypervisor_name, is_rust_shim, shim_config_path, CustomRuntime, DeployConfig,
    ManifestError, RuntimeManifest, MANIFEST_VERSION,
};

fn config_for(shims: &[&str]) -> DeployConfig {
    DeployConfig::new(shims.iter().map(|s| s.to_string()).collect(), "/opt/kata")
}

fn variant(handler: String, shim: &str, devkit: bool) -> CustomRuntime {
    CustomRuntime {
        handler,
        base_config: shim.to_string(),
        drop_in_file: None,
        containerd_snapshotter: None,
        crio_pull_type: None,
        debug_variant: true,
        devkit,
    }
}

#[test]
fn debug_variants_are_described_alongside_the_classes_they_derive_from() {
    let mut config = config_for(&["qemu-runtime-rs", "qemu"]);
    config.custom_runtimes = ["qemu-runtime-rs", "qemu"]
        .iter()
        .map(|shim| variant(format!("kata-{shim}-debug"), shim, false))
        .collect();

    let manifest = RuntimeManifest::from_config(&config, "x86_64").unwrap();

    assert_eq!(manifest.version, MANIFEST_VERSION);
    assert_eq!(manifest.install_dir, "/opt/kata");

    let described: Vec<_> = manifest
        .runtimes
        .iter()
        .map(|entry| (entry.runtime_class.as_str(), entry.runtime_rs))
        .collect();
    assert_eq!(
        described,
        vec![
            ("kata-qemu", false),
            ("kata-qemu-debug", false),
            ("kata-qemu-runtime-rs", true),
            ("kata-qemu-runtime-rs-debug", true),
        ]
    );

    let variant = manifest
        .runtimes
        .iter()
        .find(|entry| entry.runtime_class == "kata-qemu-runtime-rs-debug")
        .unwrap();
    assert_eq!(variant.shim, "qemu-runtime-rs");
    assert_eq!(variant.hypervisor, "qemu");
    assert_eq!(
        variant.config,
        "share/defaults/kata-containers/custom-runtimes/kata-qemu-runtime-rs-debug/\
         configuration-qemu-runtime-rs.toml"
    );
}

#[test]
fn rust_and_golang_shims_get_their_own_config_layout() {
    assert_eq!(
        shim_config_path("qemu-runtime-rs"),
        "share/defaults/kata-containers/runtime-rs/runtimes/qemu-runtime-rs/\
         configuration-qemu-runtime-rs.toml"
    );
    assert_eq!(
        shim_config_path("qemu"),
        "share/defaults/kata-containers/runtimes/qemu/configuration-qemu.toml"
    );
}

#[test]
fn custom_runtimes_keep_the_base_configuration_filename() {
    assert_eq!(
        custom_runtime_config_path("kata-qemu-runtime-rs-debug", "qemu-runtime-rs"),
        "share/defaults/kata-containers/custom-runtimes/kata-qemu-runtime-rs-debug/\
         configuration-qemu-runtime-rs.toml"
    );
}

#[test]
fn the_manifest_records_the_architecture() {
    let manifest = RuntimeManifest::from_config(&config_for(&["qemu"]), "aarch64").unwrap();
    assert_eq!(manifest.architecture, "aarch64");
    assert_eq!(manifest.runtimes.len(), 1);
    assert_eq!(manifest.runtimes[0].config, "share/defaults/kata-containers/runtimes/qemu/configuration-qemu.toml");
}

#[test]
fn a_multi_install_suffix_follows_the_shim() {
    let mut config = config_for(&["qemu"]);
    config.multi_install_suffix = Some("blue".to_string());
    assert_eq!(config.runtime_handler_for_shim("qemu"), "kata-qemu-blue");
    let manifest = RuntimeManifest::from_config(&config, "x86_64").unwrap();
    assert_eq!(manifest.runtimes[0].runtime_class, "kata-qemu-blue");
}

#[test]
fn a_shim_of_unknown_hypervisor_is_an_error() {
    let err = RuntimeManifest::from_config(&config_for(&["qemu", "mystery", "nope"]), "x86_64").unwrap_err();
    match &err {
        ManifestError::UnknownShim(s) => assert_eq!(s, "mystery"),
    }
    assert!(err.message().contains("mystery"));
}

#[test]
fn hypervisors_are_known_from_shim_names() {
    assert_eq!(get_hypervisor_name("qemu-nvidia-gpu-snp-runtime-rs").unwrap(), "qemu");
    assert_eq!(get_hypervisor_name("clh-runtime-rs").unwrap(), "clh");
    assert_eq!(get_hypervisor_name("cloud-hypervisor").unwrap(), "clh");
    assert_eq!(get_hypervisor_name("dragonball").unwrap(), "dragonball");
    assert_eq!(get_hypervisor_name("fc").unwrap(), "firecracker");
    assert!(get_hypervisor_name("").is_err());
}

#[test]
fn runtime_rs_shims_are_known_from_their_names() {
    assert!(is_rust_shim("qemu-runtime-rs"));
    assert!(is_rust_shim("dragonball"));
    assert!(is_rust_shim("cloud-hypervisor"));
    assert!(!is_rust_shim("qemu"));
    assert!(!is_rust_shim("clh"));
}
