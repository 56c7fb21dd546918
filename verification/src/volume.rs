//! Container mounts the runtime hands to the guest as they are, rather than
//! copying files in: the sandbox's resolv.conf and kubelet's termination log.

use std::collections::HashMap;
use vstd::prelude::*;
use vstd::string::*;
use crate::paths::{paths_equal, same_path};
use crate::string_map::{has_key, map_get, value_at};
use crate::text::{owned, str_eq};

verus! {

/// Where the agent writes the sandbox resolv.conf during create_sandbox.
pub const KATA_GUEST_SANDBOX_DNS_FILE: &'static str = "/run/kata-containers/sandbox/resolv.conf";

/// Where a container finds its resolv.conf.
pub const GUEST_DNS_FILE: &'static str = "/etc/resolv.conf";

/// Where kubelet looks for a container's termination message: a container
/// path, carried as an annotation.
pub const TERMINATION_MESSAGE_PATH: &'static str = "io.kubernetes.container.terminationMessagePath";

/// An OCI mount.
#[derive(Debug, Clone, Default)]
pub struct Mount {
    pub destination: String,
    pub typ: Option<String>,
    pub source: Option<String>,
    pub options: Option<Vec<String>>,
}

/// The annotations of an OCI runtime spec.
#[derive(Debug, Clone, Default)]
pub struct ContainerSpec {
    pub annotations: Option<HashMap<String, String>>,
}

/// A storage the agent is asked to set up for a volume.
#[derive(Debug, Clone, Default)]
pub struct Storage {
    pub driver: String,
    pub source: String,
    pub fstype: String,
    pub options: Vec<String>,
    pub mount_point: String,
}

/// A copy of an optional string.
fn copy_opt(s: &Option<String>) -> (r: Option<String>)
    ensures
        r is Some <==> s is Some,
        r matches Some(v) ==> v@ == s->Some_0@,
{
    match s {
        Some(v) => Some(v.clone()),
        None => None,
    }
}

/// A copy of a list of strings.
fn copy_strings(v: &Vec<String>) -> (r: Vec<String>)
    ensures
        r@.len() == v@.len(),
        forall|i: int| 0 <= i < v@.len() ==> #[trigger] r@[i]@ == v@[i]@,
{
    let mut r: Vec<String> = Vec::new();
    let mut i: usize = 0;
    while i < v.len()
        invariant
            i <= v@.len(),
            r@.len() == i,
            forall|j: int| 0 <= j < i ==> #[trigger] r@[j]@ == v@[j]@,
        decreases v@.len() - i,
    {
        r.push(v[i].clone());
        i = i + 1;
    }
    r
}

/// The mounts are the same, field by field.
pub open spec fn same_mount(a: Mount, b: Mount) -> bool {
    &&& a.destination@ == b.destination@
    &&& (a.typ is Some <==> b.typ is Some)
    &&& (a.typ is Some ==> a.typ->Some_0@ == b.typ->Some_0@)
    &&& (a.source is Some <==> b.source is Some)
    &&& (a.source is Some ==> a.source->Some_0@ == b.source->Some_0@)
    &&& (a.options is Some <==> b.options is Some)
    &&& (a.options is Some ==> a.options->Some_0@.len() == b.options->Some_0@.len() && forall|i: int|
        0 <= i < a.options->Some_0@.len() ==> #[trigger] a.options->Some_0@[i]@ == b.options->Some_0@[i]@)
}

impl Mount {
    /// A copy of this mount.
    pub fn duplicate(&self) -> (r: Mount)
        ensures
            same_mount(r, *self),
    {
        Mount {
            destination: self.destination.clone(),
            typ: copy_opt(&self.typ),
            source: copy_opt(&self.source),
            options: match &self.options {
                Some(o) => Some(copy_strings(o)),
                None => None,
            },
        }
    }
}

/// Whether a mount is the container's resolv.conf. The host gives every
/// container of the pod the same sandbox-scoped file, so all of them can be
/// pointed at the one guest copy.
pub fn is_sandbox_dns_mount(m: &Mount) -> (r: bool)
    ensures
        r == (m.destination@ == GUEST_DNS_FILE@),
{
    str_eq(m.destination.as_str(), GUEST_DNS_FILE)
}

/// A resolv.conf mount served from the guest's sandbox-wide copy.
#[derive(Debug)]
pub struct SandboxDnsVolume {
    mount: Mount,
}

impl SandboxDnsVolume {
    /// What the volume mounts: the original mount, sourced from the guest copy.
    pub closed spec fn mount_view(&self) -> Mount {
        self.mount
    }

    /// The volume for `mount`: the same mount, with its source replaced by
    /// the file the agent writes the sandbox resolv.conf to.
    pub fn new(mount: &Mount) -> (r: SandboxDnsVolume)
        ensures
            r.mount_view().destination@ == mount.destination@,
            r.mount_view().source matches Some(s) && s@ == KATA_GUEST_SANDBOX_DNS_FILE@,
            same_mount(r.mount_view(), Mount { source: r.mount_view().source, ..*mount }),
    {
        let mut m = mount.duplicate();
        m.source = Some(owned(KATA_GUEST_SANDBOX_DNS_FILE));
        SandboxDnsVolume { mount: m }
    }

    /// The mounts the container gets: just the rewritten one.
    pub fn get_volume_mount(&self) -> (r: Vec<Mount>)
        ensures
            r@.len() == 1,
            same_mount(r@[0], self.mount_view()),
    {
        let mut v: Vec<Mount> = Vec::new();
        v.push(self.mount.duplicate());
        v
    }

    /// Nothing for the agent to set up: it already wrote the file.
    pub fn get_storage(&self) -> (r: Vec<Storage>)
        ensures
            r@.len() == 0,
    {
        Vec::new()
    }

    /// No device backs this volume.
    pub fn get_device_id(&self) -> (r: Option<String>)
        ensures
            r is None,
    {
        None
    }
}

/// Whether a mount is the container's termination log: the file at the
/// path the `terminationMessagePath` annotation names, when it names one.
pub open spec fn termination_log_path(spec: ContainerSpec) -> Option<Seq<char>> {
    match spec.annotations {
        None => None,
        Some(a) => if has_key(a@, TERMINATION_MESSAGE_PATH@) {
            Some(value_at(a@, TERMINATION_MESSAGE_PATH@))
        } else {
            None
        },
    }
}

/// Whether `m` is the termination log kubelet reads the container's exit
/// message from. Such a mount is passed through untouched and the agent
/// creates the file in the guest. Matched on the annotation, since the pod
/// chooses the path.
pub fn is_termination_log_mount(m: &Mount, spec: &ContainerSpec) -> (r: bool)
    ensures
        r == match termination_log_path(*spec) {
            None => false,
            Some(p) => p.len() > 0 && same_path(m.destination@, p),
        },
{
    let annotations = match &spec.annotations {
        Some(a) => a,
        None => return false,
    };
    let path = match map_get(annotations, TERMINATION_MESSAGE_PATH) {
        Some(p) => p,
        None => return false,
    };
    path.as_str().unicode_len() > 0 && paths_equal(m.destination.as_str(), path.as_str())
}

} // verus!
