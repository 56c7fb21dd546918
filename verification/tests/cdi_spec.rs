use std::collections::HashMap;

use kata_parts::cdi_spec::{
    cdi_spec_format, default_char_type, devices_from_annotations, is_cdi_file, linux_device_type,
    major_minor_from_rdev, plan_cdi_injection, CdiDevice, CdiError, CdiSpec, CdiSpecFormat, ContainerEdits,
    DeviceNode, LinuxDeviceType,
};

fn node(path: &str, typ: &str, major_minor: Option<(i64, i64)>) -> DeviceNode {
    DeviceNode {
        path: path.to_string(),
        typ: typ.to_string(),
        major: major_minor.map(|m| m.0),
        minor: major_minor.map(|m| m.1),
        file_mode: None,
    }
}

fn device(name: &str, nodes: Vec<DeviceNode>) -> CdiDevice {
    CdiDevice { name: name.to_string(), container_edits: ContainerEdits { device_nodes: nodes } }
}

fn spec(kind: &str, devices: Vec<CdiDevice>) -> CdiSpec {
    CdiSpec { kind: kind.to_string(), devices }
}

#[test]
fn cdi_files_are_yaml_or_json() {
    assert!(is_cdi_file("/etc/cdi/nvidia.yaml"));
    assert!(is_cdi_file("/etc/cdi/nvidia.yml"));
    assert!(is_cdi_file("/var/run/cdi/vfio.json"));
    assert!(!is_cdi_file("/etc/cdi/README"));
    assert!(!is_cdi_file("/etc/cdi/nvidia.yaml.bak"));
    assert_eq!(cdi_spec_format("/var/run/cdi/vfio.json"), CdiSpecFormat::Json);
    assert_eq!(cdi_spec_format("/etc/cdi/nvidia.yaml"), CdiSpecFormat::Yaml);
}

#[test]
fn the_extension_is_read_from_the_file_name() {
    assert!(!is_cdi_file("/etc/cdi/.json"));
    assert!(is_cdi_file("/etc/cdi/a.b.json"));
    assert!(is_cdi_file("/etc/cdi/..json"));
    assert!(is_cdi_file("/etc/cdi.json/"));
    assert!(is_cdi_file("/etc/cdi/spec.yaml/"));
    assert!(!is_cdi_file("/etc/cdi/spec.yaml/.."));
    assert_eq!(cdi_spec_format("/etc/cdi/.json"), CdiSpecFormat::Yaml);
    assert_eq!(cdi_spec_format("vfio.json"), CdiSpecFormat::Json);
}

#[test]
fn device_nodes_default_to_character_devices() {
    assert_eq!(default_char_type(), "c");
}

#[test]
fn device_types_are_read_as_oci_knows_them() {
    assert_eq!(linux_device_type("c"), Some(LinuxDeviceType::C));
    assert_eq!(linux_device_type("u"), Some(LinuxDeviceType::C));
    assert_eq!(linux_device_type("b"), Some(LinuxDeviceType::B));
    assert_eq!(linux_device_type("p"), Some(LinuxDeviceType::P));
    assert_eq!(linux_device_type("x"), None);
}

#[test]
fn major_and_minor_are_split_as_glibc_does() {
    // /dev/vfio/vfio is 10:196; 0x0a << 8 | 0xc4.
    assert_eq!(major_minor_from_rdev(0x0ac4), (10, 196));
    // A large major and minor use the high bits.
    assert_eq!(major_minor_from_rdev(0x0000_1234_5678_9abc), (0x189a, 0x1_2345_67bc));
}

#[test]
fn cdi_annotations_name_the_requested_devices() {
    let mut a = HashMap::new();
    a.insert("cdi.k8s.io/gpu".to_string(), "nvidia.com/gpu=0".to_string());
    a.insert("io.kubernetes.cri.sandbox-name".to_string(), "web".to_string());
    let devices = devices_from_annotations(&a);
    assert_eq!(devices, vec!["nvidia.com/gpu=0".to_string()]);
}

#[test]
fn injection_adds_the_nodes_of_each_device_once() {
    let specs = vec![spec(
        "nvidia.com/gpu",
        vec![
            device("0", vec![node("/dev/nvidia0", "c", Some((195, 0))), node("/dev/nvidiactl", "c", Some((195, 255)))]),
            device("1", vec![node("/dev/nvidia1", "c", Some((195, 1))), node("/dev/nvidiactl", "c", Some((195, 255)))]),
        ],
    )];
    let devices = vec!["nvidia.com/gpu=0".to_string(), "nvidia.com/gpu=1".to_string()];
    let existing = vec!["/dev/null".to_string()];
    let planned = plan_cdi_injection(&existing, &devices, &specs).unwrap();
    let paths: Vec<_> = planned.iter().map(|d| d.path.as_str()).collect();
    assert_eq!(paths, vec!["/dev/nvidia0", "/dev/nvidiactl", "/dev/nvidia1"]);
    assert_eq!(planned[0].major_minor, Some((195, 0)));
    assert_eq!(planned[0].typ, LinuxDeviceType::C);
}

#[test]
fn nodes_already_in_the_spec_are_skipped() {
    let specs = vec![spec("vfio.com/dev", vec![device("42", vec![node("/dev/vfio/42", "c", None)])])];
    let devices = vec!["vfio.com/dev=42".to_string()];
    let existing = vec!["/dev/vfio/42".to_string()];
    assert!(plan_cdi_injection(&existing, &devices, &specs).unwrap().is_empty());
}

#[test]
fn a_node_without_major_and_minor_is_left_for_stat() {
    let specs = vec![spec("vfio.com/dev", vec![device("42", vec![node("/dev/vfio/42", "c", None)])])];
    let planned = plan_cdi_injection(&vec![], &vec!["vfio.com/dev=42".to_string()], &specs).unwrap();
    assert_eq!(planned.len(), 1);
    assert_eq!(planned[0].major_minor, None);
}

#[test]
fn names_without_a_device_part_are_ignored() {
    let planned = plan_cdi_injection(&vec![], &vec!["nvidia.com/gpu".to_string()], &vec![]).unwrap();
    assert!(planned.is_empty());
}

#[test]
fn an_undescribed_device_is_an_error() {
    let specs = vec![spec("nvidia.com/gpu", vec![device("0", vec![])])];
    let err = plan_cdi_injection(&vec![], &vec!["nvidia.com/gpu=7".to_string()], &specs).unwrap_err();
    assert!(matches!(&err, CdiError::DeviceNotFound { kind, name } if kind == "nvidia.com/gpu" && name == "7"));
    assert!(err.message().starts_with("CDI device nvidia.com/gpu=7 not found"));
}

#[test]
fn an_unknown_node_type_is_an_error() {
    let specs = vec![spec("x.com/y", vec![device("z", vec![node("/dev/z", "q", Some((1, 1)))])])];
    let err = plan_cdi_injection(&vec![], &vec!["x.com/y=z".to_string()], &specs).unwrap_err();
    assert_eq!(err.message(), "build device for x.com/y=z: unknown CDI device type 'q'");
}

#[test]
fn the_first_spec_describing_the_device_wins() {
    let specs = vec![
        spec("x.com/y", vec![device("other", vec![node("/dev/other", "c", None)])]),
        spec("x.com/y", vec![device("z", vec![node("/dev/second", "c", None)])]),
        spec("x.com/y", vec![device("z", vec![node("/dev/third", "c", None)])]),
    ];
    let planned = plan_cdi_injection(&vec![], &vec!["x.com/y=z".to_string()], &specs).unwrap();
    assert_eq!(planned.len(), 1);
    assert_eq!(planned[0].path, "/dev/second");
}

#[test]
fn a_large_major_survives_the_split_but_spills_into_the_minor() {
    // makedev(0x1000, 0): the high major bits sit above bit 44.
    let rdev: u64 = 0x1000u64 << 32;
    assert_eq!(major_minor_from_rdev(rdev), (0x1000, 0x1_0000_0000));
}
