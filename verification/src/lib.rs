//! Verified pieces of the Kata Containers runtime and its deployment tooling:
//! guest kernel command line assembly, CDI device handling, kubelet pod
//! resource interpretation, volume classification, and the RuntimeClass
//! bookkeeping done at install time.

pub mod text;
pub mod docker_annotations;
pub mod kernel_params;
pub mod cmdline_tokens;
pub mod verity;
pub mod guest_cmdline;
pub mod string_map;
pub mod dedup;
pub mod pod_resources;
pub mod kubelet_client;
pub mod paths;
pub mod cdi_spec;
pub mod volume;
pub mod order;
pub mod whisperer;
pub mod layout;
pub mod runtime_manifest;
pub mod sorted;
pub mod cmdline_annotation;
pub mod runtime_classes;
