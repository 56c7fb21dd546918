use kata_parts::runtime_classes::{
    absent_runtime_classes, annotation_action, needs_nfd_update, nfd_key_for, nfd_update, AnnotationAction,
    Overhead, RuntimeClass, RuntimeClassError, NFD_QUANTITY, SNP_NFD_KEY, TDX_NFD_KEY,
};

const KEY: &str = "katacontainers.io/guest-kernel-cmdline.gz.base64";

fn class(name: Option<&str>) -> RuntimeClass {
    RuntimeClass { name: name.map(str::to_string), annotations: None, overhead: None }
}

fn pairs(items: &[(&str, &str)]) -> Vec<(String, String)> {
    items.iter().map(|(k, v)| (k.to_string(), v.to_string())).collect()
}

#[test]
fn only_kata_tee_classes_request_an_nfd_resource() {
    assert_eq!(nfd_key_for("kata-qemu-tdx"), Some(TDX_NFD_KEY));
    assert_eq!(nfd_key_for("kata-qemu-snp"), Some(SNP_NFD_KEY));
    assert_eq!(nfd_key_for("kata-qemu-nvidia-gpu-tdx"), Some(TDX_NFD_KEY));
    assert_eq!(nfd_key_for("kata-qemu"), None);
    assert_eq!(nfd_key_for("runc-tdx"), None);
}

#[test]
fn a_class_missing_the_resource_gets_it_added() {
    let patched = nfd_update(&class(Some("kata-qemu-snp"))).unwrap().unwrap();
    assert_eq!(patched.name.as_deref(), Some("kata-qemu-snp"));
    let pod_fixed = patched.overhead.unwrap().pod_fixed.unwrap();
    assert_eq!(pod_fixed, pairs(&[(SNP_NFD_KEY, NFD_QUANTITY)]));
}

#[test]
fn existing_overhead_is_kept_and_the_resource_slotted_in() {
    let mut rc = class(Some("kata-qemu-tdx"));
    rc.overhead = Some(Overhead { pod_fixed: Some(pairs(&[("cpu", "250m"), ("zz", "1")])) });
    assert!(needs_nfd_update(&rc, TDX_NFD_KEY));
    let patched = nfd_update(&rc).unwrap().unwrap();
    assert_eq!(
        patched.overhead.unwrap().pod_fixed.unwrap(),
        pairs(&[("cpu", "250m"), (TDX_NFD_KEY, "1"), ("zz", "1")])
    );
}

#[test]
fn a_class_already_requesting_the_resource_is_left_alone() {
    let mut rc = class(Some("kata-qemu-tdx"));
    rc.overhead = Some(Overhead { pod_fixed: Some(pairs(&[(TDX_NFD_KEY, "1")])) });
    assert!(!needs_nfd_update(&rc, TDX_NFD_KEY));
    assert!(nfd_update(&rc).unwrap().is_none());
}

#[test]
fn updating_twice_changes_nothing_the_second_time() {
    let once = nfd_update(&class(Some("kata-qemu-snp"))).unwrap().unwrap();
    assert!(nfd_update(&once).unwrap().is_none());
}

#[test]
fn empty_overhead_needs_the_update() {
    let mut rc = class(Some("kata-qemu-snp"));
    rc.overhead = Some(Overhead { pod_fixed: None });
    assert!(needs_nfd_update(&rc, SNP_NFD_KEY));
}

#[test]
fn a_class_without_a_name_is_an_error() {
    let err = nfd_update(&class(None)).unwrap_err();
    assert!(matches!(err, RuntimeClassError::MissingName));
    assert_eq!(err.message(), "RuntimeClass missing name");
}

#[test]
fn a_non_tee_class_is_not_touched() {
    assert!(nfd_update(&class(Some("kata-qemu"))).unwrap().is_none());
}

#[test]
fn annotation_actions_follow_the_current_value() {
    let cmdlines = pairs(&[("kata-qemu-snp", "H4sI"), ("kata-qemu-tdx", "H4sJ")]);

    assert!(matches!(annotation_action(&class(None), KEY, &cmdlines), AnnotationAction::Skip));
    assert!(matches!(annotation_action(&class(Some("kata-qemu")), KEY, &cmdlines), AnnotationAction::Skip));

    match annotation_action(&class(Some("kata-qemu-snp")), KEY, &cmdlines) {
        AnnotationAction::Patch(v) => assert_eq!(v, "H4sI"),
        other => panic!("expected a patch, got {other:?}"),
    }

    let mut current = class(Some("kata-qemu-tdx"));
    current.annotations = Some(pairs(&[(KEY, "H4sJ")]));
    assert!(matches!(annotation_action(&current, KEY, &cmdlines), AnnotationAction::Unchanged));

    let mut stale = class(Some("kata-qemu-tdx"));
    stale.annotations = Some(pairs(&[("a", "b"), (KEY, "old")]));
    assert!(matches!(annotation_action(&stale, KEY, &cmdlines), AnnotationAction::Patch(v) if v == "H4sJ"));
}

#[test]
fn classes_missing_from_the_cluster_are_reported() {
    let cmdlines = pairs(&[("kata-a", "1"), ("kata-b", "2"), ("kata-c", "3")]);
    let found = vec!["kata-b".to_string()];
    assert_eq!(
        absent_runtime_classes(&cmdlines, &found),
        vec!["kata-a".to_string(), "kata-c".to_string()]
    );
}
