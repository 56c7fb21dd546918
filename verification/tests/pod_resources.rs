use std::collections::HashMap;

use kata_parts::kubelet_client::{
    cdi_devices_from_response, ContainerDevices as KubeletDevices, ContainerResources as KubeletContainer,
    GetPodResourcesRequest, GetPodResourcesResponse, PodResources as KubeletPod,
};
use kata_parts::pod_resources::{
    cdi_device_paths, extract_cdi_devices, unix_socket_path, pod_identity_from_annotations, CdiDevice, CdiResolveError,
    ClaimResource, ContainerDevices, ContainerResources, DynamicResource, PodIdentityError, PodResources,
    CRIO_NAMESPACE_ANNOTATION, CRIO_NAME_ANNOTATION, SANDBOX_NAMESPACE_ANNOTATION, SANDBOX_NAME_ANNOTATION,
};

#[test]
fn extract_cdi_devices_legacy_only() {
    let pod_resources = PodResources {
        name: "pod".to_string(),
        namespace: "default".to_string(),
        containers: vec![ContainerResources {
            name: "ctr0".to_string(),
            devices: vec![ContainerDevices {
                resource_name: "nvidia.com/pgpu".to_string(),
                device_ids: vec!["vfio0".to_string(), "vfio1".to_string()],
                topology: None,
            }],
            cpu_ids: vec![],
            memory: vec![],
            dynamic_resources: vec![],
        }],
    };

    let got = extract_cdi_devices(&pod_resources);
    assert_eq!(
        got,
        vec!["nvidia.com/pgpu=vfio0".to_string(), "nvidia.com/pgpu=vfio1".to_string()]
    );
}

#[test]
fn extract_cdi_devices_dra_only() {
    let pod_resources = PodResources {
        name: "pod".to_string(),
        namespace: "default".to_string(),
        containers: vec![ContainerResources {
            name: "ctr0".to_string(),
            devices: vec![],
            cpu_ids: vec![],
            memory: vec![],
            dynamic_resources: vec![DynamicResource {
                claim_name: "gpu-claim".to_string(),
                claim_namespace: "default".to_string(),
                claim_resources: vec![ClaimResource {
                    cdi_devices: vec![
                        CdiDevice { name: "nvidia.com/gpu=GPU-0".to_string() },
                        CdiDevice { name: "nvidia.com/gpu=GPU-1".to_string() },
                    ],
                    driver_name: "gpu.nvidia.com".to_string(),
                    pool_name: "worker-gpu".to_string(),
                    device_name: "GPU".to_string(),
                }],
            }],
        }],
    };

    let got = extract_cdi_devices(&pod_resources);
    assert_eq!(
        got,
        vec!["nvidia.com/gpu=GPU-0".to_string(), "nvidia.com/gpu=GPU-1".to_string()]
    );
}

#[test]
fn extract_cdi_devices_mixed_and_deduped() {
    let pod_resources = PodResources {
        name: "pod".to_string(),
        namespace: "default".to_string(),
        containers: vec![
            ContainerResources {
                name: "ctr0".to_string(),
                devices: vec![ContainerDevices {
                    resource_name: "nvidia.com/pgpu".to_string(),
                    device_ids: vec!["vfio0".to_string()],
                    topology: None,
                }],
                cpu_ids: vec![],
                memory: vec![],
                dynamic_resources: vec![DynamicResource {
                    claim_name: "gpu-claim".to_string(),
                    claim_namespace: "default".to_string(),
                    claim_resources: vec![ClaimResource {
                        cdi_devices: vec![
                            CdiDevice { name: "nvidia.com/gpu=GPU-0".to_string() },
                            CdiDevice { name: "nvidia.com/gpu=GPU-0".to_string() },
                        ],
                        driver_name: "gpu.nvidia.com".to_string(),
                        pool_name: "worker-gpu".to_string(),
                        device_name: "GPU".to_string(),
                    }],
                }],
            },
            ContainerResources {
                name: "ctr1".to_string(),
                devices: vec![],
                cpu_ids: vec![],
                memory: vec![],
                dynamic_resources: vec![DynamicResource {
                    claim_name: "gpu-claim-2".to_string(),
                    claim_namespace: "default".to_string(),
                    claim_resources: vec![ClaimResource {
                        cdi_devices: vec![
                            CdiDevice { name: "nvidia.com/gpu=GPU-1".to_string() },
                            CdiDevice { name: "".to_string() },
                        ],
                        driver_name: "gpu.nvidia.com".to_string(),
                        pool_name: "worker-gpu".to_string(),
                        device_name: "GPU".to_string(),
                    }],
                }],
            },
        ],
    };

    let got = extract_cdi_devices(&pod_resources);
    assert_eq!(
        got,
        vec![
            "nvidia.com/pgpu=vfio0".to_string(),
            "nvidia.com/gpu=GPU-0".to_string(),
            "nvidia.com/gpu=GPU-1".to_string()
        ]
    );
}

#[test]
fn a_device_plugin_id_seen_twice_is_listed_once() {
    let pod_resources = PodResources {
        name: "pod".to_string(),
        namespace: "default".to_string(),
        containers: vec![
            ContainerResources {
                name: "ctr0".to_string(),
                devices: vec![ContainerDevices {
                    resource_name: "nvidia.com/pgpu".to_string(),
                    device_ids: vec!["vfio0".to_string(), "vfio0".to_string()],
                    topology: None,
                }],
                cpu_ids: vec![],
                memory: vec![],
                dynamic_resources: vec![],
            },
            ContainerResources {
                name: "ctr1".to_string(),
                devices: vec![],
                cpu_ids: vec![],
                memory: vec![],
                dynamic_resources: vec![DynamicResource {
                    claim_name: "c".to_string(),
                    claim_namespace: "default".to_string(),
                    claim_resources: vec![ClaimResource {
                        cdi_devices: vec![CdiDevice { name: "nvidia.com/pgpu=vfio0".to_string() }],
                        driver_name: String::new(),
                        pool_name: String::new(),
                        device_name: String::new(),
                    }],
                }],
            },
        ],
    };

    assert_eq!(extract_cdi_devices(&pod_resources), vec!["nvidia.com/pgpu=vfio0".to_string()]);
}

#[test]
fn a_pod_without_containers_has_no_cdi_devices() {
    let pod_resources = PodResources {
        name: "pod".to_string(),
        namespace: "default".to_string(),
        containers: vec![],
    };
    assert!(extract_cdi_devices(&pod_resources).is_empty());
}

#[test]
fn pod_identity_prefers_containerd_annotations() {
    let mut a = HashMap::new();
    a.insert(SANDBOX_NAME_ANNOTATION.to_string(), "web".to_string());
    a.insert(SANDBOX_NAMESPACE_ANNOTATION.to_string(), "prod".to_string());
    a.insert(CRIO_NAME_ANNOTATION.to_string(), "other".to_string());
    a.insert(CRIO_NAMESPACE_ANNOTATION.to_string(), "elsewhere".to_string());

    let (name, namespace) = pod_identity_from_annotations(&a).unwrap();
    assert_eq!(name, "web");
    assert_eq!(namespace, "prod");
}

#[test]
fn pod_identity_falls_back_to_crio_annotations() {
    let mut a = HashMap::new();
    a.insert(CRIO_NAME_ANNOTATION.to_string(), "web".to_string());
    a.insert(CRIO_NAMESPACE_ANNOTATION.to_string(), "prod".to_string());

    let (name, namespace) = pod_identity_from_annotations(&a).unwrap();
    assert_eq!(name, "web");
    assert_eq!(namespace, "prod");
}

#[test]
fn pod_identity_needs_a_name_and_a_namespace() {
    let mut a = HashMap::new();
    assert!(matches!(pod_identity_from_annotations(&a), Err(PodIdentityError::MissingName)));

    a.insert(SANDBOX_NAME_ANNOTATION.to_string(), "web".to_string());
    let err = pod_identity_from_annotations(&a).unwrap_err();
    assert!(matches!(err, PodIdentityError::MissingNamespace));
    assert!(err.message().contains(SANDBOX_NAMESPACE_ANNOTATION));
    assert!(err.message().contains(CRIO_NAMESPACE_ANNOTATION));
}

#[test]
fn cdi_device_paths_are_concatenated_in_request_order() {
    let devices = vec!["nvidia.com/gpu=0".to_string(), "nvidia.com/gpu=1".to_string()];
    let found = vec![
        Some(vec!["/dev/vfio/42".to_string(), "/dev/vfio/vfio".to_string()]),
        Some(vec!["/dev/vfio/43".to_string()]),
    ];
    assert_eq!(
        cdi_device_paths(&devices, &found).unwrap(),
        vec!["/dev/vfio/42".to_string(), "/dev/vfio/vfio".to_string(), "/dev/vfio/43".to_string()]
    );
}

#[test]
fn no_cdi_devices_means_no_paths() {
    assert!(cdi_device_paths(&vec![], &vec![]).unwrap().is_empty());
}

#[test]
fn an_unknown_cdi_device_is_an_error_naming_it() {
    let devices = vec!["a.com/x=1".to_string(), "b.com/y=2".to_string(), "c.com/z=3".to_string()];
    let found = vec![Some(vec!["/dev/a".to_string()]), None, None];
    let err = cdi_device_paths(&devices, &found).unwrap_err();
    match &err {
        CdiResolveError::NotInCache(d) => assert_eq!(d, "b.com/y=2"),
    }
    assert_eq!(err.message(), "Failed to get device node for CDI device: b.com/y=2 in cache");
}

#[test]
fn kubelet_request_names_the_pod() {
    let r = GetPodResourcesRequest::new("web", "prod");
    assert_eq!(r.pod_name, "web");
    assert_eq!(r.pod_namespace, "prod");
}

#[test]
fn kubelet_response_lists_device_names_per_resource() {
    let response = GetPodResourcesResponse {
        pod_resources: Some(KubeletPod {
            name: "web".to_string(),
            namespace: "prod".to_string(),
            containers: vec![
                KubeletContainer {
                    name: "a".to_string(),
                    devices: vec![KubeletDevices {
                        resource_name: "nvidia.com/pgpu".to_string(),
                        device_ids: vec!["0".to_string(), "1".to_string()],
                    }],
                },
                KubeletContainer {
                    name: "b".to_string(),
                    devices: vec![KubeletDevices {
                        resource_name: "nvidia.com/pgpu".to_string(),
                        device_ids: vec!["0".to_string()],
                    }],
                },
            ],
        }),
    };
    assert_eq!(
        cdi_devices_from_response(&response).unwrap(),
        vec![
            "nvidia.com/pgpu=0".to_string(),
            "nvidia.com/pgpu=1".to_string(),
            "nvidia.com/pgpu=0".to_string()
        ]
    );
}

#[test]
fn kubelet_response_without_pod_resources_is_none() {
    assert!(cdi_devices_from_response(&GetPodResourcesResponse { pod_resources: None }).is_none());
}

#[test]
fn a_socket_address_loses_its_scheme() {
    assert_eq!(unix_socket_path("unix:///var/lib/kubelet/pod-resources/kubelet.sock"), "/var/lib/kubelet/pod-resources/kubelet.sock");
    assert_eq!(unix_socket_path("/var/lib/kubelet/pod-resources/kubelet.sock"), "/var/lib/kubelet/pod-resources/kubelet.sock");
    assert_eq!(unix_socket_path("unix://unix:///x"), "/x");
    assert_eq!(unix_socket_path("unix:/"), "unix:/");
}
