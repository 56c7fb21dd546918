//! Annotations set by Docker, or historically by the Kubernetes dockershim,
//! that tell a sandbox from a container, name the sandbox, and carry the
//! network namespace Docker prepared.

use vstd::prelude::*;

verus! {

/// Key of the container type label: a sandbox or a container.
pub const CONTAINER_TYPE_LABEL_KEY: &'static str = "io.kubernetes.docker.type";

/// Container type of a sandbox container.
pub const SANDBOX: &'static str = "podsandbox";

/// Container type of a container running within a sandbox.
pub const CONTAINER: &'static str = "container";

/// Key of the sandbox ID label.
pub const SANDBOX_ID_LABEL_KEY: &'static str = "io.kubernetes.sandbox.id";

/// Key under which Docker passes the network namespace path it prepared for
/// the sandbox, so the VM joins it instead of creating its own.
pub const NETWORK_NAMESPACE_PATH_KEY: &'static str = "com.docker.network.namespace.path";

} // verus!
