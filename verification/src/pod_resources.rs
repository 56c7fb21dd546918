//! The CDI devices kubelet's PodResources API reports for a pod, from both
//! device plugins and dynamic resource allocation.

use std::collections::HashMap;
use vstd::prelude::*;
use vstd::string::*;
use crate::dedup::{add_all_unique, lemma_add_all_unique_concat, lemma_add_all_unique_contents, lemma_add_all_unique_push, names, push_unique};
use crate::string_map::{has_key, map_get, value_at};
use crate::text::{has_prefix, owned, starts_with};

verus! {

/// containerd's annotation carrying the pod name.
pub const SANDBOX_NAME_ANNOTATION: &'static str = "io.kubernetes.cri.sandbox-name";
/// containerd's annotation carrying the pod namespace.
pub const SANDBOX_NAMESPACE_ANNOTATION: &'static str = "io.kubernetes.cri.sandbox-namespace";
/// CRI-O's annotation carrying the pod name.
pub const CRIO_NAME_ANNOTATION: &'static str = "io.kubernetes.cri-o.KubeName";
/// CRI-O's annotation carrying the pod namespace.
pub const CRIO_NAMESPACE_ANNOTATION: &'static str = "io.kubernetes.cri-o.Namespace";
/// Where kubelet serves the PodResources API.
pub const DEFAULT_POD_RESOURCES_PATH: &'static str = "/var/lib/kubelet/pod-resources";
/// How long a PodResources request may take, in seconds.
pub const DEFAULT_POD_RESOURCES_TIMEOUT_SECS: u64 = 10;
/// Prefix of the annotations that request CDI devices.
pub const CDI_K8S_PREFIX: &'static str = "cdi.k8s.io/";
/// Largest PodResources message accepted, in bytes.
pub const MAX_RECV_MSG_SIZE: usize = 16777216;

/// CDI spec directory written at run time.
pub const DEFAULT_DYNAMIC_CDI_SPEC_PATH: &'static str = "/var/run/cdi";

/// CDI spec directory of static specs.
pub const DEFAULT_STATIC_CDI_SPEC_PATH: &'static str = "/etc/cdi";

#[derive(Debug, Clone, PartialEq, Default)]
pub struct NumaNode {
    pub id: i64,
}

#[derive(Debug, Clone, PartialEq, Default)]
pub struct TopologyInfo {
    pub nodes: Vec<NumaNode>,
}

/// Devices of one resource a device plugin allocated to a container.
#[derive(Debug, Clone, PartialEq, Default)]
pub struct ContainerDevices {
    pub resource_name: String,
    pub device_ids: Vec<String>,
    pub topology: Option<TopologyInfo>,
}

#[derive(Debug, Clone, PartialEq, Default)]
pub struct ContainerMemory {
    pub memory_type: String,
    pub size: u64,
    pub topology: Option<TopologyInfo>,
}

/// A CDI device named by a resource claim.
#[derive(Debug, Clone, PartialEq, Default)]
pub struct CdiDevice {
    pub name: String,
}

/// What a DRA driver allocated for a claim.
#[derive(Debug, Clone, PartialEq, Default)]
pub struct ClaimResource {
    pub cdi_devices: Vec<CdiDevice>,
    pub driver_name: String,
    pub pool_name: String,
    pub device_name: String,
}

/// A resource claim of a container.
#[derive(Debug, Clone, PartialEq, Default)]
pub struct DynamicResource {
    pub claim_name: String,
    pub claim_namespace: String,
    pub claim_resources: Vec<ClaimResource>,
}

/// What kubelet allocated to one container.
#[derive(Debug, Clone, PartialEq, Default)]
pub struct ContainerResources {
    pub name: String,
    pub devices: Vec<ContainerDevices>,
    pub cpu_ids: Vec<i64>,
    pub memory: Vec<ContainerMemory>,
    pub dynamic_resources: Vec<DynamicResource>,
}

/// What kubelet allocated to a pod.
#[derive(Debug, Clone, PartialEq, Default)]
pub struct PodResources {
    pub name: String,
    pub namespace: String,
    pub containers: Vec<ContainerResources>,
}

/// The CDI name of a device-plugin device: `<resource>=<id>`.
pub open spec fn legacy_name(resource: Seq<char>, id: Seq<char>) -> Seq<char> {
    resource + seq!['='] + id
}

pub open spec fn device_candidates(d: ContainerDevices) -> Seq<Seq<char>> {
    d.device_ids@.map_values(|id: String| legacy_name(d.resource_name@, id@))
}

pub open spec fn devices_candidates(ds: Seq<ContainerDevices>) -> Seq<Seq<char>>
    decreases ds.len(),
{
    if ds.len() == 0 {
        Seq::<Seq<char>>::empty()
    } else {
        devices_candidates(ds.drop_last()) + device_candidates(ds.last())
    }
}

pub open spec fn claim_candidates(c: ClaimResource) -> Seq<Seq<char>> {
    c.cdi_devices@.map_values(|d: CdiDevice| d.name@)
}

pub open spec fn claims_candidates(cs: Seq<ClaimResource>) -> Seq<Seq<char>>
    decreases cs.len(),
{
    if cs.len() == 0 {
        Seq::<Seq<char>>::empty()
    } else {
        claims_candidates(cs.drop_last()) + claim_candidates(cs.last())
    }
}

pub open spec fn dynamics_candidates(ds: Seq<DynamicResource>) -> Seq<Seq<char>>
    decreases ds.len(),
{
    if ds.len() == 0 {
        Seq::<Seq<char>>::empty()
    } else {
        dynamics_candidates(ds.drop_last()) + claims_candidates(ds.last().claim_resources@)
    }
}

/// A container's CDI names: its device-plugin devices, then its claims'.
pub open spec fn container_candidates(c: ContainerResources) -> Seq<Seq<char>> {
    devices_candidates(c.devices@) + dynamics_candidates(c.dynamic_resources@)
}

pub open spec fn containers_candidates(cs: Seq<ContainerResources>) -> Seq<Seq<char>>
    decreases cs.len(),
{
    if cs.len() == 0 {
        Seq::<Seq<char>>::empty()
    } else {
        containers_candidates(cs.drop_last()) + container_candidates(cs.last())
    }
}

/// Every CDI name the pod's containers were allocated, in container order,
/// duplicates and empty names included.
pub open spec fn cdi_candidates(p: PodResources) -> Seq<Seq<char>> {
    containers_candidates(p.containers@)
}

/// The CDI devices of a pod: each non-empty candidate name once, in the
/// order first seen.
pub open spec fn pod_cdi_devices(p: PodResources) -> Seq<Seq<char>> {
    add_all_unique(Seq::<Seq<char>>::empty(), cdi_candidates(p))
}

fn push_device_ids(devices: &mut Vec<String>, d: &ContainerDevices)
    ensures
        names(final(devices)@) == add_all_unique(names(old(devices)@), device_candidates(*d)),
{
    let ghost start = names(devices@);
    let ghost cands = device_candidates(*d);
    let mut i: usize = 0;
    while i < d.device_ids.len()
        invariant
            cands == device_candidates(*d),
            cands.len() == d.device_ids@.len(),
            i <= cands.len(),
            names(devices@) == add_all_unique(start, cands.take(i as int)),
        decreases cands.len() - i,
    {
        let mut name = owned(d.resource_name.as_str());
        name.append("=");
        name.append(d.device_ids[i].as_str());
        proof {
            reveal_strlit("=");
            assert(name@ == cands[i as int]);
            assert(cands.take(i + 1) =~= cands.take(i as int).push(cands[i as int]));
            lemma_add_all_unique_push(start, cands.take(i as int), cands[i as int]);
        }
        push_unique(devices, name);
        i = i + 1;
    }
    assert(cands.take(cands.len() as int) =~= cands);
}

fn push_device_plugin_devices(devices: &mut Vec<String>, ds: &Vec<ContainerDevices>)
    ensures
        names(final(devices)@) == add_all_unique(names(old(devices)@), devices_candidates(ds@)),
{
    let ghost start = names(devices@);
    let mut i: usize = 0;
    while i < ds.len()
        invariant
            i <= ds@.len(),
            names(devices@) == add_all_unique(start, devices_candidates(ds@.take(i as int))),
        decreases ds@.len() - i,
    {
        proof {
            assert(ds@.take(i + 1).drop_last() =~= ds@.take(i as int));
            lemma_add_all_unique_concat(start, devices_candidates(ds@.take(i as int)), device_candidates(ds@[i as int]));
        }
        push_device_ids(devices, &ds[i]);
        i = i + 1;
    }
    assert(ds@.take(ds@.len() as int) =~= ds@);
}

fn push_claim_devices(devices: &mut Vec<String>, c: &ClaimResource)
    ensures
        names(final(devices)@) == add_all_unique(names(old(devices)@), claim_candidates(*c)),
{
    let ghost start = names(devices@);
    let ghost cands = claim_candidates(*c);
    let mut i: usize = 0;
    while i < c.cdi_devices.len()
        invariant
            cands == claim_candidates(*c),
            cands.len() == c.cdi_devices@.len(),
            i <= cands.len(),
            names(devices@) == add_all_unique(start, cands.take(i as int)),
        decreases cands.len() - i,
    {
        let name = c.cdi_devices[i].name.clone();
        proof {
            assert(name@ == cands[i as int]);
            assert(cands.take(i + 1) =~= cands.take(i as int).push(cands[i as int]));
            lemma_add_all_unique_push(start, cands.take(i as int), cands[i as int]);
        }
        push_unique(devices, name);
        i = i + 1;
    }
    assert(cands.take(cands.len() as int) =~= cands);
}

fn push_claims_devices(devices: &mut Vec<String>, cs: &Vec<ClaimResource>)
    ensures
        names(final(devices)@) == add_all_unique(names(old(devices)@), claims_candidates(cs@)),
{
    let ghost start = names(devices@);
    let mut i: usize = 0;
    while i < cs.len()
        invariant
            i <= cs@.len(),
            names(devices@) == add_all_unique(start, claims_candidates(cs@.take(i as int))),
        decreases cs@.len() - i,
    {
        proof {
            assert(cs@.take(i + 1).drop_last() =~= cs@.take(i as int));
            lemma_add_all_unique_concat(start, claims_candidates(cs@.take(i as int)), claim_candidates(cs@[i as int]));
        }
        push_claim_devices(devices, &cs[i]);
        i = i + 1;
    }
    assert(cs@.take(cs@.len() as int) =~= cs@);
}

fn push_dynamic_devices(devices: &mut Vec<String>, ds: &Vec<DynamicResource>)
    ensures
        names(final(devices)@) == add_all_unique(names(old(devices)@), dynamics_candidates(ds@)),
{
    let ghost start = names(devices@);
    let mut i: usize = 0;
    while i < ds.len()
        invariant
            i <= ds@.len(),
            names(devices@) == add_all_unique(start, dynamics_candidates(ds@.take(i as int))),
        decreases ds@.len() - i,
    {
        proof {
            assert(ds@.take(i + 1).drop_last() =~= ds@.take(i as int));
            lemma_add_all_unique_concat(
                start,
                dynamics_candidates(ds@.take(i as int)),
                claims_candidates(ds@[i as int].claim_resources@),
            );
        }
        push_claims_devices(devices, &ds[i].claim_resources);
        i = i + 1;
    }
    assert(ds@.take(ds@.len() as int) =~= ds@);
}

/// The CDI devices allocated to a pod, each once, in the order first seen:
/// device-plugin devices as `<resource>=<id>`, then the CDI devices of each
/// resource claim, container by container. Empty names are left out.
pub fn extract_cdi_devices(pod_resources: &PodResources) -> (r: Vec<String>)
    ensures
        names(r@) == pod_cdi_devices(*pod_resources),
{
    let mut devices: Vec<String> = Vec::new();
    let ghost cs = pod_resources.containers@;
    assert(names(devices@) =~= Seq::<Seq<char>>::empty());
    let mut i: usize = 0;
    while i < pod_resources.containers.len()
        invariant
            cs == pod_resources.containers@,
            i <= cs.len(),
            names(devices@) == add_all_unique(Seq::<Seq<char>>::empty(), containers_candidates(cs.take(i as int))),
        decreases cs.len() - i,
    {
        let c = &pod_resources.containers[i];
        proof {
            assert(cs.take(i + 1).drop_last() =~= cs.take(i as int));
            lemma_add_all_unique_concat(Seq::<Seq<char>>::empty(), containers_candidates(cs.take(i as int)), container_candidates(*c));
            lemma_add_all_unique_concat(
                add_all_unique(Seq::<Seq<char>>::empty(), containers_candidates(cs.take(i as int))),
                devices_candidates(c.devices@),
                dynamics_candidates(c.dynamic_resources@),
            );
        }
        push_device_plugin_devices(&mut devices, &c.devices);
        push_dynamic_devices(&mut devices, &c.dynamic_resources);
        i = i + 1;
    }
    assert(cs.take(cs.len() as int) =~= cs);
    devices
}

/// The devices of a pod name each allocated device exactly once, none of
/// them empty, and nothing that was not allocated.
pub proof fn lemma_pod_cdi_devices_unique_and_complete(p: PodResources)
    ensures
        pod_cdi_devices(p).no_duplicates(),
        forall|i: int| 0 <= i < pod_cdi_devices(p).len() ==> #[trigger] pod_cdi_devices(p)[i].len() > 0,
        forall|x: Seq<char>|
            #[trigger] pod_cdi_devices(p).contains(x) <==> (cdi_candidates(p).contains(x) && x.len() > 0),
{
    lemma_add_all_unique_contents(Seq::<Seq<char>>::empty(), cdi_candidates(p));
}

/// A device plugin allocated device `id` of a resource to one of the pod's
/// containers, and `x` is its CDI name `<resource>=<id>`.
pub open spec fn plugin_allocated(p: PodResources, x: Seq<char>) -> bool {
    exists|c: int, d: int, k: int|
        0 <= c < p.containers@.len() && 0 <= d < p.containers@[c].devices@.len() && 0 <= k
            < p.containers@[c].devices@[d].device_ids@.len() && x == p.containers@[c].devices@[d].resource_name@
            + seq!['='] + (#[trigger] p.containers@[c].devices@[d].device_ids@[k])@
}

/// A resource claim of one of the pod's containers names the CDI device `x`.
pub open spec fn claim_allocated(p: PodResources, x: Seq<char>) -> bool {
    exists|c: int, r: int, q: int, k: int|
        0 <= c < p.containers@.len() && 0 <= r < p.containers@[c].dynamic_resources@.len() && 0 <= q
            < p.containers@[c].dynamic_resources@[r].claim_resources@.len() && 0 <= k
            < p.containers@[c].dynamic_resources@[r].claim_resources@[q].cdi_devices@.len()
            && (#[trigger] p.containers@[c].dynamic_resources@[r].claim_resources@[q].cdi_devices@[k]).name@ == x
}

proof fn lemma_concat_contains(a: Seq<Seq<char>>, b: Seq<Seq<char>>, x: Seq<char>)
    ensures
        (a + b).contains(x) <==> a.contains(x) || b.contains(x),
{
    if a.contains(x) {
        let i = choose|i: int| 0 <= i < a.len() && a[i] == x;
        assert((a + b)[i] == x);
    }
    if b.contains(x) {
        let i = choose|i: int| 0 <= i < b.len() && b[i] == x;
        assert((a + b)[a.len() + i] == x);
    }
    if (a + b).contains(x) {
        let i = choose|i: int| 0 <= i < (a + b).len() && (a + b)[i] == x;
        if i < a.len() {
            assert(a[i] == x);
        } else {
            assert(b[i - a.len()] == x);
        }
    }
}

proof fn lemma_devices_candidates_contains(ds: Seq<ContainerDevices>, x: Seq<char>)
    ensures
        devices_candidates(ds).contains(x) <==> exists|d: int, k: int|
            0 <= d < ds.len() && 0 <= k < ds[d].device_ids@.len() && x == ds[d].resource_name@ + seq!['=']
                + (#[trigger] ds[d].device_ids@[k])@,
    decreases ds.len(),
{
    if ds.len() > 0 {
        let init = ds.drop_last();
        let last = ds.last();
        lemma_devices_candidates_contains(init, x);
        lemma_concat_contains(devices_candidates(init), device_candidates(last), x);
        let dc = device_candidates(last);
        if dc.contains(x) {
            let k = choose|k: int| 0 <= k < dc.len() && dc[k] == x;
            assert(ds[ds.len() - 1].device_ids@[k] == last.device_ids@[k]);
        }
        if devices_candidates(init).contains(x) {
            let (d, k) = choose|d: int, k: int|
                0 <= d < init.len() && 0 <= k < init[d].device_ids@.len() && x == init[d].resource_name@ + seq!['=']
                    + (#[trigger] init[d].device_ids@[k])@;
            assert(ds[d] == init[d]);
            assert(x == ds[d].resource_name@ + seq!['='] + ds[d].device_ids@[k]@);
        }
        if exists|d: int, k: int|
            0 <= d < ds.len() && 0 <= k < ds[d].device_ids@.len() && x == ds[d].resource_name@ + seq!['=']
                + (#[trigger] ds[d].device_ids@[k])@ {
            let (d, k) = choose|d: int, k: int|
                0 <= d < ds.len() && 0 <= k < ds[d].device_ids@.len() && x == ds[d].resource_name@ + seq!['=']
                    + (#[trigger] ds[d].device_ids@[k])@;
            if d < init.len() {
                assert(init[d] == ds[d]);
                assert(x == init[d].resource_name@ + seq!['='] + init[d].device_ids@[k]@);
            } else {
                assert(dc[k] == x);
            }
        }
    }
}

proof fn lemma_claims_candidates_contains(cs: Seq<ClaimResource>, x: Seq<char>)
    ensures
        claims_candidates(cs).contains(x) <==> exists|q: int, k: int|
            0 <= q < cs.len() && 0 <= k < cs[q].cdi_devices@.len() && (#[trigger] cs[q].cdi_devices@[k]).name@ == x,
    decreases cs.len(),
{
    if cs.len() > 0 {
        let init = cs.drop_last();
        let last = cs.last();
        lemma_claims_candidates_contains(init, x);
        lemma_concat_contains(claims_candidates(init), claim_candidates(last), x);
        let cc = claim_candidates(last);
        if cc.contains(x) {
            let k = choose|k: int| 0 <= k < cc.len() && cc[k] == x;
            assert(cs[cs.len() - 1].cdi_devices@[k] == last.cdi_devices@[k]);
        }
        if claims_candidates(init).contains(x) {
            let (q, k) = choose|q: int, k: int|
                0 <= q < init.len() && 0 <= k < init[q].cdi_devices@.len() && (#[trigger] init[q].cdi_devices@[k]).name@
                    == x;
            assert(cs[q] == init[q]);
            assert(cs[q].cdi_devices@[k].name@ == x);
        }
        if exists|q: int, k: int|
            0 <= q < cs.len() && 0 <= k < cs[q].cdi_devices@.len() && (#[trigger] cs[q].cdi_devices@[k]).name@ == x {
            let (q, k) = choose|q: int, k: int|
                0 <= q < cs.len() && 0 <= k < cs[q].cdi_devices@.len() && (#[trigger] cs[q].cdi_devices@[k]).name@ == x;
            if q < init.len() {
                assert(init[q] == cs[q]);
                assert(init[q].cdi_devices@[k].name@ == x);
            } else {
                assert(cc[k] == x);
            }
        }
    }
}

proof fn lemma_dynamics_candidates_contains(ds: Seq<DynamicResource>, x: Seq<char>)
    ensures
        dynamics_candidates(ds).contains(x) <==> exists|r: int, q: int, k: int|
            0 <= r < ds.len() && 0 <= q < ds[r].claim_resources@.len() && 0 <= k
                < ds[r].claim_resources@[q].cdi_devices@.len()
                && (#[trigger] ds[r].claim_resources@[q].cdi_devices@[k]).name@ == x,
    decreases ds.len(),
{
    if ds.len() > 0 {
        let init = ds.drop_last();
        let last = ds.last();
        lemma_dynamics_candidates_contains(init, x);
        lemma_claims_candidates_contains(last.claim_resources@, x);
        lemma_concat_contains(dynamics_candidates(init), claims_candidates(last.claim_resources@), x);
        if claims_candidates(last.claim_resources@).contains(x) {
            let (q, k) = choose|q: int, k: int|
                0 <= q < last.claim_resources@.len() && 0 <= k < last.claim_resources@[q].cdi_devices@.len()
                    && (#[trigger] last.claim_resources@[q].cdi_devices@[k]).name@ == x;
            assert(ds[ds.len() - 1].claim_resources@[q].cdi_devices@[k] == last.claim_resources@[q].cdi_devices@[k]);
        }
        if dynamics_candidates(init).contains(x) {
            let (r, q, k) = choose|r: int, q: int, k: int|
                0 <= r < init.len() && 0 <= q < init[r].claim_resources@.len() && 0 <= k
                    < init[r].claim_resources@[q].cdi_devices@.len()
                    && (#[trigger] init[r].claim_resources@[q].cdi_devices@[k]).name@ == x;
            assert(ds[r] == init[r]);
            assert(ds[r].claim_resources@[q].cdi_devices@[k].name@ == x);
        }
        if exists|r: int, q: int, k: int|
            0 <= r < ds.len() && 0 <= q < ds[r].claim_resources@.len() && 0 <= k
                < ds[r].claim_resources@[q].cdi_devices@.len()
                && (#[trigger] ds[r].claim_resources@[q].cdi_devices@[k]).name@ == x {
            let (r, q, k) = choose|r: int, q: int, k: int|
                0 <= r < ds.len() && 0 <= q < ds[r].claim_resources@.len() && 0 <= k
                    < ds[r].claim_resources@[q].cdi_devices@.len()
                    && (#[trigger] ds[r].claim_resources@[q].cdi_devices@[k]).name@ == x;
            if r < init.len() {
                assert(init[r] == ds[r]);
                assert(init[r].claim_resources@[q].cdi_devices@[k].name@ == x);
            } else {
                assert(last.claim_resources@[q].cdi_devices@[k].name@ == x);
            }
        }
    }
}

proof fn lemma_containers_candidates_contains(cs: Seq<ContainerResources>, x: Seq<char>)
    ensures
        containers_candidates(cs).contains(x) <==> exists|c: int|
            0 <= c < cs.len() && (#[trigger] container_candidates(cs[c])).contains(x),
    decreases cs.len(),
{
    if cs.len() > 0 {
        let init = cs.drop_last();
        lemma_containers_candidates_contains(init, x);
        lemma_concat_contains(containers_candidates(init), container_candidates(cs.last()), x);
        if containers_candidates(init).contains(x) {
            let c = choose|c: int| 0 <= c < init.len() && (#[trigger] container_candidates(init[c])).contains(x);
            assert(cs[c] == init[c]);
        }
        if exists|c: int| 0 <= c < cs.len() && (#[trigger] container_candidates(cs[c])).contains(x) {
            let c = choose|c: int| 0 <= c < cs.len() && (#[trigger] container_candidates(cs[c])).contains(x);
            if c < init.len() {
                assert(init[c] == cs[c]);
            }
        }
    }
}

/// The CDI devices of a pod are exactly its allocated devices, none of them
/// empty: every device id a device plugin allocated to any of its
/// containers, as `<resource>=<id>`, and every CDI device any resource claim
/// of its containers names; each once.
pub proof fn lemma_pod_cdi_devices_are_the_allocated_ones(p: PodResources)
    ensures
        pod_cdi_devices(p).no_duplicates(),
        forall|x: Seq<char>|
            #[trigger] pod_cdi_devices(p).contains(x) <==> x.len() > 0 && (plugin_allocated(p, x) || claim_allocated(
                p,
                x,
            )),
{
    lemma_pod_cdi_devices_unique_and_complete(p);
    let cs = p.containers@;
    assert forall|x: Seq<char>| #[trigger] pod_cdi_devices(p).contains(x) <==> x.len() > 0 && (plugin_allocated(p, x)
        || claim_allocated(p, x)) by {
        lemma_containers_candidates_contains(cs, x);
        if cdi_candidates(p).contains(x) {
            let c = choose|c: int| 0 <= c < cs.len() && (#[trigger] container_candidates(cs[c])).contains(x);
            lemma_concat_contains(devices_candidates(cs[c].devices@), dynamics_candidates(cs[c].dynamic_resources@), x);
            lemma_devices_candidates_contains(cs[c].devices@, x);
            lemma_dynamics_candidates_contains(cs[c].dynamic_resources@, x);
            if devices_candidates(cs[c].devices@).contains(x) {
                let (d, k) = choose|d: int, k: int|
                    0 <= d < cs[c].devices@.len() && 0 <= k < cs[c].devices@[d].device_ids@.len() && x
                        == cs[c].devices@[d].resource_name@ + seq!['='] + (#[trigger] cs[c].devices@[d].device_ids@[k])@;
                assert(plugin_allocated(p, x));
            } else {
                let (r, q, k) = choose|r: int, q: int, k: int|
                    0 <= r < cs[c].dynamic_resources@.len() && 0 <= q < cs[c].dynamic_resources@[r].claim_resources@.len()
                        && 0 <= k < cs[c].dynamic_resources@[r].claim_resources@[q].cdi_devices@.len()
                        && (#[trigger] cs[c].dynamic_resources@[r].claim_resources@[q].cdi_devices@[k]).name@ == x;
                assert(claim_allocated(p, x));
            }
        }
        if plugin_allocated(p, x) {
            let (c, d, k) = choose|c: int, d: int, k: int|
                0 <= c < cs.len() && 0 <= d < cs[c].devices@.len() && 0 <= k < cs[c].devices@[d].device_ids@.len()
                    && x == cs[c].devices@[d].resource_name@ + seq!['='] + (#[trigger] cs[c].devices@[d].device_ids@[k])@;
            lemma_devices_candidates_contains(cs[c].devices@, x);
            lemma_concat_contains(devices_candidates(cs[c].devices@), dynamics_candidates(cs[c].dynamic_resources@), x);
            assert(container_candidates(cs[c]).contains(x));
        }
        if claim_allocated(p, x) {
            let (c, r, q, k) = choose|c: int, r: int, q: int, k: int|
                0 <= c < cs.len() && 0 <= r < cs[c].dynamic_resources@.len() && 0 <= q
                    < cs[c].dynamic_resources@[r].claim_resources@.len() && 0 <= k
                    < cs[c].dynamic_resources@[r].claim_resources@[q].cdi_devices@.len()
                    && (#[trigger] cs[c].dynamic_resources@[r].claim_resources@[q].cdi_devices@[k]).name@ == x;
            lemma_dynamics_candidates_contains(cs[c].dynamic_resources@, x);
            lemma_concat_contains(devices_candidates(cs[c].devices@), dynamics_candidates(cs[c].dynamic_resources@), x);
            assert(container_candidates(cs[c]).contains(x));
        }
    }
}

proof fn lemma_add_all_unique_prefix(acc: Seq<Seq<char>>, s: Seq<Seq<char>>)
    ensures
        acc.len() <= add_all_unique(acc, s).len(),
        add_all_unique(acc, s).take(acc.len() as int) == acc,
    decreases s.len(),
{
    if s.len() > 0 {
        lemma_add_all_unique_prefix(acc, s.drop_last());
        let r = add_all_unique(acc, s.drop_last());
        assert(r.push(s.last()).take(acc.len() as int) =~= r.take(acc.len() as int));
    } else {
        assert(acc.take(acc.len() as int) =~= acc);
    }
}

proof fn lemma_containers_candidates_concat(a: Seq<ContainerResources>, b: Seq<ContainerResources>)
    ensures
        containers_candidates(a + b) == containers_candidates(a) + containers_candidates(b),
    decreases b.len(),
{
    if b.len() == 0 {
        assert(a + b =~= a);
        assert(containers_candidates(a) + Seq::<Seq<char>>::empty() =~= containers_candidates(a));
    } else {
        lemma_containers_candidates_concat(a, b.drop_last());
        assert((a + b).drop_last() =~= a + b.drop_last());
        assert((a + b).last() == b.last());
        assert(containers_candidates(a + b) =~= containers_candidates(a) + containers_candidates(b));
    }
}

/// The CDI devices of a pod come in the order they are first seen,
/// container by container: the devices of a pod's first containers stay the
/// first devices, in the same order, whatever containers follow.
pub proof fn lemma_earlier_containers_come_first(p: PodResources, q: PodResources)
    requires
        p.containers@.len() <= q.containers@.len(),
        p.containers@ == q.containers@.take(p.containers@.len() as int),
    ensures
        pod_cdi_devices(p).len() <= pod_cdi_devices(q).len(),
        pod_cdi_devices(q).take(pod_cdi_devices(p).len() as int) == pod_cdi_devices(p),
{
    let a = p.containers@;
    let b = q.containers@.skip(p.containers@.len() as int);
    assert(q.containers@ =~= a + b);
    lemma_containers_candidates_concat(a, b);
    lemma_add_all_unique_concat(Seq::<Seq<char>>::empty(), containers_candidates(a), containers_candidates(b));
    lemma_add_all_unique_prefix(pod_cdi_devices(p), containers_candidates(b));
}

/// Within a container, the devices its device plugins allocated come before
/// those its resource claims name: the devices of a pod whose last container
/// has no claims stay the first devices when that container's claims are
/// added.
pub proof fn lemma_plugin_devices_come_before_claims(p: PodResources, q: PodResources)
    requires
        p.containers@.len() > 0,
        p.containers@.len() == q.containers@.len(),
        p.containers@.drop_last() == q.containers@.drop_last(),
        p.containers@.last().devices@ == q.containers@.last().devices@,
        p.containers@.last().dynamic_resources@.len() == 0,
    ensures
        pod_cdi_devices(p).len() <= pod_cdi_devices(q).len(),
        pod_cdi_devices(q).take(pod_cdi_devices(p).len() as int) == pod_cdi_devices(p),
{
    let init = p.containers@.drop_last();
    let c1 = p.containers@.last();
    let c2 = q.containers@.last();
    let e = Seq::<Seq<char>>::empty();
    let x = containers_candidates(init) + devices_candidates(c1.devices@);
    assert(dynamics_candidates(c1.dynamic_resources@) == e);
    assert(devices_candidates(c1.devices@) + e =~= devices_candidates(c1.devices@));
    assert(cdi_candidates(p) =~= x);
    assert(cdi_candidates(q) =~= x + dynamics_candidates(c2.dynamic_resources@));
    lemma_add_all_unique_concat(e, x, dynamics_candidates(c2.dynamic_resources@));
    lemma_add_all_unique_prefix(pod_cdi_devices(p), dynamics_candidates(c2.dynamic_resources@));
}

/// Why a pod's name or namespace cannot be told from its annotations.
#[derive(Debug, Clone, Copy, PartialEq, Eq, Structural)]
pub enum PodIdentityError {
    MissingName,
    MissingNamespace,
}

impl PodIdentityError {
    /// The error as a person reads it.
    pub open spec fn describe(self) -> Seq<char> {
        match self {
            PodIdentityError::MissingName => "cold plug: missing annotation "@ + SANDBOX_NAME_ANNOTATION@ + " or "@
                + CRIO_NAME_ANNOTATION@,
            PodIdentityError::MissingNamespace => "cold plug: missing annotation "@ + SANDBOX_NAMESPACE_ANNOTATION@
                + " or "@ + CRIO_NAMESPACE_ANNOTATION@,
        }
    }

    pub fn message(&self) -> (r: String)
        ensures
            r@ == self.describe(),
    {
        let mut m = owned("cold plug: missing annotation ");
        match self {
            PodIdentityError::MissingName => {
                m.append(SANDBOX_NAME_ANNOTATION);
                m.append(" or ");
                m.append(CRIO_NAME_ANNOTATION);
            },
            PodIdentityError::MissingNamespace => {
                m.append(SANDBOX_NAMESPACE_ANNOTATION);
                m.append(" or ");
                m.append(CRIO_NAMESPACE_ANNOTATION);
            },
        }
        m
    }
}

/// The value of `primary`, or else of `fallback`.
pub open spec fn annotation_with_fallback(
    m: Map<String, String>,
    primary: Seq<char>,
    fallback: Seq<char>,
) -> Option<Seq<char>> {
    if has_key(m, primary) {
        Some(value_at(m, primary))
    } else if has_key(m, fallback) {
        Some(value_at(m, fallback))
    } else {
        None
    }
}

/// The name and namespace of the pod a sandbox belongs to, from the
/// annotations containerd sets or, failing those, CRI-O's.
pub fn pod_identity_from_annotations(annotations: &HashMap<String, String>) -> (r: Result<
    (String, String),
    PodIdentityError,
>)
    ensures
        match (
            annotation_with_fallback(annotations@, SANDBOX_NAME_ANNOTATION@, CRIO_NAME_ANNOTATION@),
            annotation_with_fallback(
                annotations@,
                SANDBOX_NAMESPACE_ANNOTATION@,
                CRIO_NAMESPACE_ANNOTATION@,
            ),
        ) {
            (None, _) => r == Err::<(String, String), PodIdentityError>(PodIdentityError::MissingName),
            (Some(_), None) => r == Err::<(String, String), PodIdentityError>(
                PodIdentityError::MissingNamespace,
            ),
            (Some(name), Some(ns)) => (r matches Ok((n, s)) && n@ == name && s@ == ns),
        },
{
    let name = match map_get(annotations, SANDBOX_NAME_ANNOTATION) {
        Some(v) => v,
        None => match map_get(annotations, CRIO_NAME_ANNOTATION) {
            Some(v) => v,
            None => return Err(PodIdentityError::MissingName),
        },
    };
    let namespace = match map_get(annotations, SANDBOX_NAMESPACE_ANNOTATION) {
        Some(v) => v,
        None => match map_get(annotations, CRIO_NAMESPACE_ANNOTATION) {
            Some(v) => v,
            None => return Err(PodIdentityError::MissingNamespace),
        },
    };
    Ok((name, namespace))
}

/// Scheme prefix a kubelet socket address may carry.
pub const UNIX_SCHEME: &'static str = "unix://";

/// `s` without every leading repetition of `prefix`, as
/// `str::trim_start_matches` leaves it.
pub open spec fn trim_leading(s: Seq<char>, prefix: Seq<char>) -> Seq<char>
    decreases s.len(),
{
    if prefix.len() > 0 && has_prefix(s, prefix) {
        trim_leading(s.skip(prefix.len() as int), prefix)
    } else {
        s
    }
}

/// The file system path of a kubelet socket address: the address without
/// its `unix://` scheme.
pub fn unix_socket_path(socket: &str) -> (r: String)
    ensures
        r@ == trim_leading(socket@, UNIX_SCHEME@),
{
    proof {
        reveal_strlit("unix://");
    }
    let n = socket.unicode_len();
    let mut start: usize = 0;
    assert(socket@.skip(0) =~= socket@);
    loop
        invariant
            n == socket@.len(),
            start <= n,
            UNIX_SCHEME@.len() == 7,
            trim_leading(socket@, UNIX_SCHEME@) == trim_leading(socket@.skip(start as int), UNIX_SCHEME@),
        ensures
            start <= n,
            trim_leading(socket@, UNIX_SCHEME@) == socket@.skip(start as int),
        decreases n - start,
    {
        let rest = socket.substring_char(start, n);
        assert(rest@ =~= socket@.skip(start as int));
        if !starts_with(rest, UNIX_SCHEME) {
            break;
        }
        assert(socket@.skip(start as int).skip(7) =~= socket@.skip(start + 7));
        start = start + 7;
    }
    assert(socket@.subrange(start as int, n as int) =~= socket@.skip(start as int));
    owned(socket.substring_char(start, n))
}

/// The device node paths of the CDI devices looked up, in order.
pub open spec fn flattened(found: Seq<Option<Vec<String>>>) -> Seq<Seq<char>>
    decreases found.len(),
{
    if found.len() == 0 {
        Seq::empty()
    } else {
        flattened(found.drop_last()) + match found.last() {
            Some(p) => names(p@),
            None => Seq::empty(),
        }
    }
}

/// Index of the first CDI device the cache does not know.
pub open spec fn first_missing(found: Seq<Option<Vec<String>>>, i: int) -> bool {
    &&& 0 <= i < found.len()
    &&& found[i] is None
    &&& forall|j: int| 0 <= j < i ==> (#[trigger] found[j]) is Some
}

/// Why CDI devices could not be resolved.
#[derive(Debug)]
pub enum CdiResolveError {
    /// The CDI cache holds no device of this fully-qualified name.
    NotInCache(String),
}

impl CdiResolveError {
    /// The error as a person reads it.
    pub open spec fn describe(self) -> Seq<char> {
        match self {
            CdiResolveError::NotInCache(d) => "Failed to get device node for CDI device: "@ + d@ + " in cache"@,
        }
    }

    pub fn message(&self) -> (r: String)
        ensures
            r@ == self.describe(),
    {
        match self {
            CdiResolveError::NotInCache(d) => {
                let mut m = owned("Failed to get device node for CDI device: ");
                m.append(d.as_str());
                m.append(" in cache");
                m
            },
        }
    }
}

/// The host device node paths of the requested CDI devices, given what the
/// CDI cache holds for each (`found[i]` for `devices[i]`: its device node
/// paths, or `None` when the cache does not know it). A device the cache
/// does not know is an error naming the first such device.
pub fn cdi_device_paths(devices: &Vec<String>, found: &Vec<Option<Vec<String>>>) -> (r: Result<
    Vec<String>,
    CdiResolveError,
>)
    requires
        devices@.len() == found@.len(),
    ensures
        r is Err <==> exists|i: int| 0 <= i < found@.len() && (#[trigger] found@[i]) is None,
        r matches Err(CdiResolveError::NotInCache(d)) ==> exists|i: int|
            first_missing(found@, i) && #[trigger] devices@[i]@ == d@,
        r matches Ok(paths) ==> names(paths@) == flattened(found@),
{
    let mut paths: Vec<String> = Vec::new();
    let mut i: usize = 0;
    while i < found.len()
        invariant
            devices@.len() == found@.len(),
            i <= found@.len(),
            forall|j: int| 0 <= j < i ==> (#[trigger] found@[j]) is Some,
            names(paths@) == flattened(found@.take(i as int)),
        decreases found@.len() - i,
    {
        assert(found@.take(i + 1).drop_last() =~= found@.take(i as int));
        assert(found@.take(i + 1).last() == found@[i as int]);
        match &found[i] {
            None => {
                let d = devices[i].clone();
                assert(first_missing(found@, i as int) && devices@[i as int]@ == d@);
                return Err(CdiResolveError::NotInCache(d));
            },
            Some(nodes) => {
                let mut k: usize = 0;
                let ghost base = names(paths@);
                while k < nodes.len()
                    invariant
                        k <= nodes@.len(),
                        names(paths@) == base + names(nodes@).take(k as int),
                    decreases nodes@.len() - k,
                {
                    let ghost before = names(paths@);
                    paths.push(nodes[k].clone());
                    assert(names(paths@) =~= before.push(nodes@[k as int]@));
                    assert(names(nodes@).take(k + 1) =~= names(nodes@).take(k as int).push(nodes@[k as int]@));
                    assert(names(paths@) =~= base + names(nodes@).take(k + 1));
                    k = k + 1;
                }
                assert(names(nodes@).take(nodes@.len() as int) =~= names(nodes@));
            },
        }
        i = i + 1;
    }
    assert(found@.take(found@.len() as int) =~= found@);
    Ok(paths)
}

} // verus!
