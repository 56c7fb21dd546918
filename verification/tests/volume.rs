use std::collections::HashMap;

use kata_parts::volume::{
    is_sandbox_dns_mount, is_termination_log_mount, ContainerSpec, Mount, SandboxDnsVolume, GUEST_DNS_FILE,
    KATA_GUEST_SANDBOX_DNS_FILE, TERMINATION_MESSAGE_PATH,
};

fn dns_mount_at(destination: &str) -> Mount {
    Mount {
        destination: destination.to_string(),
        typ: None,
        source: Some("/var/lib/containerd/sandboxes/x/resolv.conf".to_string()),
        options: None,
    }
}

fn mount_at(destination: &str) -> Mount {
    Mount { destination: destination.to_string(), ..Mount::default() }
}

fn spec_with(annotations: Option<HashMap<String, String>>) -> ContainerSpec {
    ContainerSpec { annotations }
}

fn spec_with_path(path: &str) -> ContainerSpec {
    let mut a = HashMap::new();
    a.insert(TERMINATION_MESSAGE_PATH.to_string(), path.to_string());
    spec_with(Some(a))
}

#[test]
fn only_matches_resolv_conf() {
    assert!(is_sandbox_dns_mount(&dns_mount_at("/etc/resolv.conf")));
    assert!(!is_sandbox_dns_mount(&dns_mount_at("/etc/hosts")));
    assert!(!is_sandbox_dns_mount(&dns_mount_at("/etc/hostname")));
}

#[test]
fn rewrites_source_to_the_guest_copy() {
    let volume = SandboxDnsVolume::new(&dns_mount_at("/etc/resolv.conf"));
    let mounts = volume.get_volume_mount();

    assert_eq!(mounts.len(), 1);
    assert_eq!(mounts[0].source.as_deref(), Some(KATA_GUEST_SANDBOX_DNS_FILE));
    assert_eq!(mounts[0].destination, GUEST_DNS_FILE);
    assert!(volume.get_storage().is_empty());
    assert!(volume.get_device_id().is_none());
}

#[test]
fn the_rewritten_mount_keeps_its_type_and_options() {
    let mut m = dns_mount_at("/etc/resolv.conf");
    m.typ = Some("bind".to_string());
    m.options = Some(vec!["rbind".to_string(), "ro".to_string()]);
    let mounts = SandboxDnsVolume::new(&m).get_volume_mount();
    assert_eq!(mounts[0].typ.as_deref(), Some("bind"));
    assert_eq!(mounts[0].options, Some(vec!["rbind".to_string(), "ro".to_string()]));
}

#[test]
fn matches_the_annotated_path() {
    let spec = spec_with_path("/dev/termination-log");

    assert!(is_termination_log_mount(&mount_at("/dev/termination-log"), &spec));
    assert!(!is_termination_log_mount(&mount_at("/etc/hosts"), &spec));
}

#[test]
fn follows_a_pod_chosen_path() {
    let spec = spec_with_path("/var/log/goodbye");

    assert!(is_termination_log_mount(&mount_at("/var/log/goodbye"), &spec));
    assert!(!is_termination_log_mount(&mount_at("/dev/termination-log"), &spec));
}

#[test]
fn needs_the_annotation() {
    assert!(!is_termination_log_mount(&mount_at("/dev/termination-log"), &spec_with(None)));
    assert!(!is_termination_log_mount(
        &mount_at("/dev/termination-log"),
        &spec_with(Some(HashMap::new()))
    ));
    assert!(!is_termination_log_mount(&mount_at("/dev/termination-log"), &spec_with_path("")));
}

#[test]
fn paths_match_component_by_component() {
    let spec = spec_with_path("/dev/termination-log");
    assert!(is_termination_log_mount(&mount_at("/dev//termination-log"), &spec));
    assert!(!is_sandbox_dns_mount(&dns_mount_at("/etc/resolv.conf/")));
}
