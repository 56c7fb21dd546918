use std::io::Read;

use base64::Engine;
use flate2::read::GzDecoder;

use kata_parts::cmdline_annotation::{
    cmdlines_from_report, confidential_runtime_classes, encode_cmdline, encode_compressed,
    guest_kernel_cmdline_targets, install_dir_link_plan, is_confidential_shim, needs_install_dir_link,
    InstallPathState, LinkPlan, CMDLINE_ANNOTATION_KEY,
};
use kata_parts::runtime_manifest::{CustomRuntime, DeployConfig, RuntimeManifest};
use kata_parts::whisperer::{Report, RuntimeClassOutput};

fn config_for(shims: &[&str]) -> DeployConfig {
    DeployConfig::new(shims.iter().map(|s| s.to_string()).collect(), "/opt/kata")
}

fn decode(encoded: &str) -> String {
    let compressed = base64::engine::general_purpose::STANDARD.decode(encoded).unwrap();
    let mut decoder = GzDecoder::new(&compressed[..]);
    let mut cmdline = String::new();
    decoder.read_to_string(&mut cmdline).unwrap();
    cmdline
}

fn described(class: &str, cmdline: &str) -> RuntimeClassOutput {
    RuntimeClassOutput { runtime_class: class.to_string(), shim: None, cmdline: cmdline.to_string() }
}

fn report(version: u32, classes: Vec<RuntimeClassOutput>) -> Report {
    Report { version, architecture: "x86_64".to_string(), runtime_classes: classes, skipped: vec![] }
}

#[test]
fn an_encoded_cmdline_decodes_to_itself() {
    let cmdline = "reboot=k panic=1 systemd.unit=kata-containers.target root=/dev/vda1 \
                   rootfstype=ext4 agent.log=debug initcall_debug selinux=0 console=hvc0";

    assert_eq!(decode(&encode_cmdline(cmdline).unwrap()), cmdline);
}

#[test]
fn encoding_is_deterministic() {
    let cmdline = "reboot=k panic=1 console=hvc0";

    assert_eq!(encode_cmdline(cmdline).unwrap(), encode_cmdline(cmdline).unwrap());
}

#[test]
fn encoding_a_realistic_cmdline_is_smaller_than_the_cmdline() {
    let cmdline = "reboot=k panic=1 systemd.unit=kata-containers.target \
                   systemd.mask=systemd-networkd.service systemd.mask=systemd-networkd.socket \
                   systemd.mask=systemd-journald.service systemd.mask=systemd-journald.socket \
                   cgroup_no_v1=all pci=realloc pci=nocrs pci=assign-busses nvrc.smi.srs=1 \
                   root=/dev/vda1 rootflags=data=ordered,errors=remount-ro ro rootfstype=ext4 \
                   agent.cdh_api_timeout=50 agent.enable_signature_verification=false \
                   agent.debug_console agent.debug_console_vport=1026 agent.log=debug \
                   agent.debug_console_shell=/run/kata-extensions/kata-devkit/usr/bin/bash \
                   initcall_debug selinux=0 console=hvc0";

    assert!(encode_cmdline(cmdline).unwrap().len() < cmdline.len());
}

#[test]
fn the_annotation_key_is_a_valid_kubernetes_name() {
    let (prefix, name) = CMDLINE_ANNOTATION_KEY.split_once('/').unwrap();

    assert_eq!(prefix, "katacontainers.io");
    assert!(name.len() <= 63, "{name} is {} characters", name.len());
    assert!(name.chars().all(|c| c.is_ascii_alphanumeric() || matches!(c, '-' | '_' | '.')));
}

#[test]
fn confidential_shims_are_recognized_by_name() {
    for shim in [
        "qemu-snp-runtime-rs",
        "qemu-tdx-runtime-rs",
        "qemu-nvidia-gpu-snp-runtime-rs",
        "qemu-nvidia-gpu-tdx-runtime-rs",
    ] {
        assert!(is_confidential_shim(shim), "{shim} should qualify");
    }
}

#[test]
fn shims_without_a_measured_cmdline_are_left_out() {
    for shim in [
        "qemu",
        "qemu-runtime-rs",
        "qemu-coco-dev-runtime-rs",
        "qemu-se-runtime-rs",
        "clh-runtime-rs",
        "dragonball",
    ] {
        assert!(!is_confidential_shim(shim), "{shim} should not qualify");
    }
}

#[test]
fn a_marker_has_to_be_a_whole_name_segment() {
    assert!(!is_confidential_shim("qemu-snpfoo-runtime-rs"));
    assert!(!is_confidential_shim("qemu-not-tdxish"));
}

#[test]
fn cca_shims_are_confidential_too() {
    assert!(is_confidential_shim("qemu-cca"));
    assert!(is_confidential_shim("snp"));
}

#[test]
fn variants_of_a_confidential_class_are_published_too() {
    let mut config = config_for(&["qemu-snp-runtime-rs", "qemu-runtime-rs"]);
    config.custom_runtimes = ["qemu-snp-runtime-rs", "qemu-runtime-rs"]
        .iter()
        .flat_map(|shim| {
            ["debug", "devkit"].iter().map(move |variant| CustomRuntime {
                handler: format!("kata-{shim}-{variant}"),
                base_config: shim.to_string(),
                drop_in_file: None,
                containerd_snapshotter: None,
                crio_pull_type: None,
                debug_variant: true,
                devkit: *variant == "devkit",
            })
        })
        .collect();

    let manifest = RuntimeManifest::from_config(&config, "x86_64").unwrap();
    let published = confidential_runtime_classes(&manifest);

    assert_eq!(
        published,
        vec![
            "kata-qemu-snp-runtime-rs".to_string(),
            "kata-qemu-snp-runtime-rs-debug".to_string(),
            "kata-qemu-snp-runtime-rs-devkit".to_string(),
        ]
    );

    let (_, classes) = guest_kernel_cmdline_targets(&config, "x86_64").unwrap().unwrap();
    assert_eq!(classes, published);
}

#[test]
fn an_install_without_a_tee_publishes_nothing() {
    let config = config_for(&["qemu-runtime-rs", "qemu", "clh-runtime-rs"]);

    let manifest = RuntimeManifest::from_config(&config, "x86_64").unwrap();

    assert!(confidential_runtime_classes(&manifest).is_empty());
    assert!(guest_kernel_cmdline_targets(&config, "x86_64").unwrap().is_none());
}

#[test]
fn a_class_listed_twice_in_the_manifest_is_published_once() {
    let mut config = config_for(&["qemu-tdx"]);
    config.custom_runtimes = vec![CustomRuntime {
        handler: "kata-qemu-tdx".to_string(),
        base_config: "qemu-tdx".to_string(),
        drop_in_file: None,
        containerd_snapshotter: None,
        crio_pull_type: None,
        debug_variant: false,
        devkit: false,
    }];
    let manifest = RuntimeManifest::from_config(&config, "x86_64").unwrap();
    assert_eq!(confidential_runtime_classes(&manifest), vec!["kata-qemu-tdx".to_string()]);
}

#[test]
fn only_confidential_classes_of_the_report_are_published_in_name_order() {
    let confidential = vec!["kata-a-snp".to_string(), "kata-b-tdx".to_string()];
    let r = report(
        1,
        vec![
            described("kata-b-tdx", "b first"),
            described("kata-plain", "not published"),
            described("kata-a-snp", "a"),
            described("kata-b-tdx", "b second"),
        ],
    );
    let published = cmdlines_from_report(&confidential, &r).unwrap().unwrap();
    let keys: Vec<_> = published.iter().map(|(k, _)| k.as_str()).collect();
    assert_eq!(keys, vec!["kata-a-snp", "kata-b-tdx"]);
    assert_eq!(decode(&published[0].1), "a");
    assert_eq!(decode(&published[1].1), "b second");
}

#[test]
fn a_report_from_a_newer_whisperer_is_not_used() {
    let confidential = vec!["kata-a-snp".to_string()];
    let r = report(2, vec![described("kata-a-snp", "a")]);
    assert!(cmdlines_from_report(&confidential, &r).unwrap().is_none());
}

#[test]
fn the_annotation_value_is_standard_padded_base64() {
    assert_eq!(encode_compressed(b""), "");
    assert_eq!(encode_compressed(b"f"), "Zg==");
    assert_eq!(encode_compressed(b"fo"), "Zm8=");
    assert_eq!(encode_compressed(b"foo"), "Zm9v");
    assert_eq!(encode_compressed(&[0xfb, 0xff]), "+/8=");
}

#[test]
fn the_encoded_value_is_the_base64_of_a_gzip_stream() {
    let encoded = encode_cmdline("console=hvc0").unwrap();
    let compressed = base64::engine::general_purpose::STANDARD.decode(&encoded).unwrap();
    assert_eq!(&compressed[..2], &[0x1f, 0x8b]);
    assert_ne!(encoded, "console=hvc0");
}

#[test]
fn no_link_is_needed_when_the_container_sees_the_node_path() {
    assert!(!needs_install_dir_link("/opt/kata", "/opt/kata"));
    assert!(!needs_install_dir_link("/opt/kata/", "/opt/kata"));
    assert!(needs_install_dir_link("/opt/kata", "/host/opt/kata"));
}

#[test]
fn an_existing_link_to_the_host_view_is_reused_and_anything_else_left_alone() {
    let host = "/host/opt/kata";
    assert_eq!(install_dir_link_plan(host, &InstallPathState::Missing), LinkPlan::Create);
    assert_eq!(
        install_dir_link_plan(host, &InstallPathState::LinkTo("/host/opt/kata".to_string())),
        LinkPlan::UseExisting
    );
    assert_eq!(
        install_dir_link_plan(host, &InstallPathState::LinkTo("/elsewhere".to_string())),
        LinkPlan::GiveUp
    );
    assert_eq!(install_dir_link_plan(host, &InstallPathState::Other), LinkPlan::GiveUp);
}
