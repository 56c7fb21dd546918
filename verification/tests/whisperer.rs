use kata_parts::guest_cmdline::{HypervisorConfig, VIRTIO_BLK_PCI};
use kata_parts::layout::{is_config_file_name, order_configs, targets_from_layout};
use kata_parts::runtime_manifest::{RuntimeEntry, RuntimeManifest};
use kata_parts::whisperer::{
    check_manifest_version, outcome_for_loaded_config, report_from_outcomes, runtime_class_for_config,
    runtime_rs_from_layout, select_targets, shim_config_file_name, shim_for_config, skip_before_load,
    target_for_config, targets_from_manifest, Outcome, RuntimeClassOutput, SkippedRuntimeClass, Target,
    WhispererError, REPORT_VERSION,
};

fn entry(class: &str, shim: &str, runtime_rs: bool, config: &str) -> RuntimeEntry {
    RuntimeEntry {
        runtime_class: class.to_string(),
        shim: shim.to_string(),
        hypervisor: "qemu".to_string(),
        runtime_rs,
        config: config.to_string(),
    }
}

fn manifest(runtimes: Vec<RuntimeEntry>) -> RuntimeManifest {
    RuntimeManifest {
        version: 1,
        architecture: "x86_64".to_string(),
        install_dir: "/opt/kata".to_string(),
        runtimes,
    }
}

fn target(class: &str, config: &str, runtime_rs: Option<bool>, hypervisor: Option<&str>) -> Target {
    Target {
        runtime_class: class.to_string(),
        shim: None,
        config: config.to_string(),
        runtime_rs,
        hypervisor: hypervisor.map(str::to_string),
    }
}

fn qemu_config() -> HypervisorConfig {
    let mut config = HypervisorConfig::default();
    config.boot_info.vm_rootfs_driver = VIRTIO_BLK_PCI.to_string();
    config.boot_info.rootfs_type = "ext4".to_string();
    config.boot_info.kernel_params = "base=value".to_string();
    config
}

#[test]
fn runtime_class_uses_parent_directory_name() {
    assert_eq!(
        runtime_class_for_config(
            "/opt/kata/share/defaults/kata-containers/runtime-rs/runtimes/qemu-coco-dev-runtime-rs/configuration-qemu-coco-dev-runtime-rs.toml"
        )
        .unwrap(),
        "kata-qemu-coco-dev-runtime-rs"
    );
    assert_eq!(
        runtime_class_for_config(
            "/opt/kata/share/defaults/kata-containers/custom-runtimes/kata-qemu-runtime-rs-devkit/configuration-qemu-runtime-rs.toml"
        )
        .unwrap(),
        "kata-qemu-runtime-rs-devkit"
    );
}

#[test]
fn a_configuration_without_a_directory_has_no_runtime_class() {
    let err = runtime_class_for_config("/").unwrap_err();
    assert!(matches!(&err, WhispererError::NoRuntimeClass(p) if p == "/"));
    assert_eq!(err.message(), "cannot derive runtime class from configuration path /");
}

#[test]
fn the_shim_comes_from_the_file_name() {
    assert_eq!(
        shim_for_config("/x/runtimes/qemu/configuration-qemu.toml").as_deref(),
        Some("qemu")
    );
    assert_eq!(shim_for_config("/x/runtimes/qemu/qemu.toml"), None);
    assert_eq!(shim_for_config("/x/runtimes/qemu/configuration-qemu.json"), None);
    assert_eq!(shim_config_file_name("qemu-runtime-rs"), "configuration-qemu-runtime-rs.toml");
}

#[test]
fn the_layout_says_which_runtime_serves_a_shim() {
    assert_eq!(runtime_rs_from_layout(true, true), Some(true));
    assert_eq!(runtime_rs_from_layout(false, true), Some(false));
    assert_eq!(runtime_rs_from_layout(false, false), None);
}

#[test]
fn a_newer_manifest_is_refused() {
    assert!(check_manifest_version(&manifest(vec![])).is_ok());
    let mut m = manifest(vec![]);
    m.version = 2;
    assert!(matches!(check_manifest_version(&m), Err(WhispererError::UnsupportedManifestVersion(2))));
}

#[test]
fn manifest_targets_are_rooted_at_the_installation() {
    let m = manifest(vec![entry(
        "kata-qemu-runtime-rs",
        "qemu-runtime-rs",
        true,
        "share/defaults/kata-containers/runtime-rs/runtimes/qemu-runtime-rs/configuration-qemu-runtime-rs.toml",
    )]);
    let targets = targets_from_manifest("/opt/kata", &m);
    assert_eq!(targets.len(), 1);
    assert_eq!(
        targets[0].config,
        "/opt/kata/share/defaults/kata-containers/runtime-rs/runtimes/qemu-runtime-rs/configuration-qemu-runtime-rs.toml"
    );
    assert_eq!(targets[0].shim.as_deref(), Some("qemu-runtime-rs"));
    assert_eq!(targets[0].runtime_rs, Some(true));
    assert_eq!(targets[0].hypervisor.as_deref(), Some("qemu"));
}

#[test]
fn the_go_runtime_is_left_out_and_the_rest_sorted() {
    let m = manifest(vec![
        entry("kata-qemu", "qemu", false, "a/configuration-qemu.toml"),
        entry("kata-qemu-runtime-rs-debug", "qemu-runtime-rs", true, "c/configuration-qemu-runtime-rs.toml"),
        entry("kata-qemu-runtime-rs", "qemu-runtime-rs", true, "b/configuration-qemu-runtime-rs.toml"),
    ]);
    let (targets, go) = select_targets(targets_from_manifest("/opt/kata", &m)).unwrap();
    let classes: Vec<_> = targets.iter().map(|t| t.runtime_class.as_str()).collect();
    assert_eq!(classes, vec!["kata-qemu-runtime-rs", "kata-qemu-runtime-rs-debug"]);
    assert_eq!(go, 1);
}

#[test]
fn a_target_named_twice_is_described_once() {
    let targets = vec![
        target("kata-b", "/x/b/configuration-b.toml", None, None),
        target("kata-a", "/x/a/configuration-a.toml", Some(true), None),
        target("kata-a", "/x//a/configuration-a.toml", None, None),
        target("kata-a", "/y/a/configuration-a.toml", None, None),
    ];
    let (kept, go) = select_targets(targets).unwrap();
    let described: Vec<_> = kept.iter().map(|t| (t.runtime_class.as_str(), t.config.as_str())).collect();
    assert_eq!(
        described,
        vec![
            ("kata-a", "/x/a/configuration-a.toml"),
            ("kata-a", "/y/a/configuration-a.toml"),
            ("kata-b", "/x/b/configuration-b.toml"),
        ]
    );
    assert_eq!(go, 0);
}

#[test]
fn no_targets_is_an_error() {
    let err = select_targets(vec![]).unwrap_err();
    assert!(matches!(err, WhispererError::NoTargets));
    assert_eq!(err.message(), "provide --kata-root and/or one or more --config paths");
}

#[test]
fn a_manifest_naming_another_hypervisor_skips_without_loading() {
    let t = target("kata-clh-runtime-rs", "/x/clh/configuration-clh.toml", Some(true), Some("clh"));
    match skip_before_load(&t) {
        Some(Outcome::Skipped(s)) => {
            assert_eq!(s.runtime_class, "kata-clh-runtime-rs");
            assert_eq!(s.reason, "hypervisor clh is not supported yet; only qemu is");
        }
        _ => panic!("expected a skip"),
    }
    let q = target("kata-qemu-runtime-rs", "/x/q/configuration-q.toml", Some(true), Some("qemu"));
    assert!(skip_before_load(&q).is_none());
    let unknown = target("kata-x", "/x/q/configuration-q.toml", None, None);
    assert!(skip_before_load(&unknown).is_none());
}

#[test]
fn non_qemu_configurations_are_skipped_not_fatal() {
    let t = target("kata-dragonball", "/x/dragonball/configuration-dragonball.toml", Some(true), None);
    match outcome_for_loaded_config(&t, "/x/dragonball/configuration-dragonball.toml", "dragonball", None, true)
        .unwrap()
    {
        Outcome::Skipped(skip) => assert!(skip.reason.contains("dragonball")),
        Outcome::Described(output) => panic!("unexpectedly described: {}", output.cmdline),
    }
}

#[test]
fn a_qemu_configuration_is_described() {
    let mut t = target("kata-qemu-runtime-rs", "/x/q/configuration-qemu-runtime-rs.toml", Some(true), None);
    t.shim = Some("qemu-runtime-rs".to_string());
    let config = qemu_config();
    match outcome_for_loaded_config(&t, "/x/q/configuration-qemu-runtime-rs.toml", "qemu", Some(&config), true)
        .unwrap()
    {
        Outcome::Described(output) => {
            assert_eq!(output.runtime_class, "kata-qemu-runtime-rs");
            assert_eq!(output.shim.as_deref(), Some("qemu-runtime-rs"));
            assert!(output.cmdline.contains("base=value"));
            assert!(output.cmdline.ends_with("console=hvc0"));
        }
        Outcome::Skipped(skip) => panic!("unexpectedly skipped: {}", skip.reason),
    }
}

#[test]
fn a_configuration_must_define_its_hypervisor() {
    let t = target("kata-qemu", "/x/q/configuration-qemu.toml", None, None);
    let err = outcome_for_loaded_config(&t, "/x/q/configuration-qemu.toml", "qemu", None, true).unwrap_err();
    assert_eq!(err.message(), "hypervisor qemu is not defined in /x/q/configuration-qemu.toml");
}

#[test]
fn the_report_keeps_the_order_of_each_kind() {
    let outcomes = vec![
        Outcome::Skipped(SkippedRuntimeClass { runtime_class: "kata-b".to_string(), reason: "r1".to_string() }),
        Outcome::Described(RuntimeClassOutput {
            runtime_class: "kata-c".to_string(),
            shim: None,
            cmdline: "x".to_string(),
        }),
        Outcome::Skipped(SkippedRuntimeClass { runtime_class: "kata-a".to_string(), reason: "r2".to_string() }),
        Outcome::Described(RuntimeClassOutput {
            runtime_class: "kata-d".to_string(),
            shim: None,
            cmdline: "y".to_string(),
        }),
    ];
    let report = report_from_outcomes(outcomes, "x86_64".to_string());
    assert_eq!(report.version, REPORT_VERSION);
    assert_eq!(report.architecture, "x86_64");
    let described: Vec<_> = report.runtime_classes.iter().map(|o| o.runtime_class.as_str()).collect();
    let skipped: Vec<_> = report.skipped.iter().map(|s| s.runtime_class.as_str()).collect();
    assert_eq!(described, vec!["kata-c", "kata-d"]);
    assert_eq!(skipped, vec!["kata-b", "kata-a"]);
}

#[test]
fn configuration_file_names_are_recognized() {
    assert!(is_config_file_name("configuration-qemu.toml"));
    assert!(!is_config_file_name("configuration-qemu.toml.bak"));
    assert!(!is_config_file_name("qemu.toml"));
}

#[test]
fn found_configurations_are_ordered_by_component_and_deduplicated() {
    let found = vec![
        "/k/runtimes/qemu/configuration-qemu.toml".to_string(),
        "/k/runtime-rs/runtimes/qemu-runtime-rs/configuration-qemu-runtime-rs.toml".to_string(),
        "/k/runtimes/qemu/configuration-qemu.toml".to_string(),
        "/k/runtimes-x/a/configuration-a.toml".to_string(),
    ];
    assert_eq!(
        order_configs(found),
        vec![
            "/k/runtime-rs/runtimes/qemu-runtime-rs/configuration-qemu-runtime-rs.toml".to_string(),
            "/k/runtimes/qemu/configuration-qemu.toml".to_string(),
            "/k/runtimes-x/a/configuration-a.toml".to_string(),
        ]
    );
}

#[test]
fn found_configurations_compare_by_path_components() {
    let found = vec![
        "x/a/b".to_string(),
        "x/a//c".to_string(),
        "x/./a/a".to_string(),
        "../x".to_string(),
        "./x".to_string(),
        "x/a/b/".to_string(),
    ];
    assert_eq!(
        order_configs(found),
        vec![
            "./x".to_string(),
            "../x".to_string(),
            "x/./a/a".to_string(),
            "x/a/b".to_string(),
            "x/a//c".to_string(),
        ]
    );
}

#[test]
fn layout_discovery_identifies_the_go_runtime() {
    let configs = vec![
        "/k/share/defaults/kata-containers/runtime-rs/runtimes/qemu-runtime-rs/configuration-qemu-runtime-rs.toml"
            .to_string(),
        "/k/share/defaults/kata-containers/runtimes/qemu/configuration-qemu.toml".to_string(),
        "/k/share/defaults/kata-containers/custom-runtimes/kata-qemu-debug/configuration-qemu.toml".to_string(),
    ];
    let runtime_rs = vec![Some(true), Some(false), Some(false)];
    let targets = targets_from_layout("/k/share/defaults/kata-containers", &configs, &runtime_rs).unwrap();
    let classified: Vec<_> = targets.iter().map(|t| (t.runtime_class.as_str(), t.runtime_rs)).collect();
    assert_eq!(
        classified,
        vec![
            ("kata-qemu-runtime-rs", Some(true)),
            ("kata-qemu", Some(false)),
            ("kata-qemu-debug", Some(false)),
        ]
    );
    assert_eq!(targets[2].shim.as_deref(), Some("qemu"));
}

#[test]
fn an_installation_without_configurations_is_an_error() {
    let err = targets_from_layout("/k/share/defaults/kata-containers", &vec![], &vec![]).unwrap_err();
    assert_eq!(err.message(), "no runtime configuration files found under /k/share/defaults/kata-containers");
}

#[test]
fn a_named_configuration_is_taken_at_face_value() {
    let t = target_for_config("/etc/kata/configuration-qemu-runtime-rs.toml", None).unwrap();
    assert_eq!(t.runtime_class, "kata-kata");
    assert_eq!(t.shim.as_deref(), Some("qemu-runtime-rs"));
    assert_eq!(t.runtime_rs, None);
    assert!(t.hypervisor.is_none());
}
