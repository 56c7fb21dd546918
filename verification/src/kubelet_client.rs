//! Messages of kubelet's `PodResourcesLister/Get` call and the CDI device
//! names a response stands for.

use vstd::prelude::*;
use vstd::string::*;
use crate::dedup::names;
use crate::text::owned;

verus! {

/// gRPC path of the `Get` call of the `PodResourcesLister` service.
pub const GET_RPC_PATH: &'static str = "/v1.PodResourcesLister/Get";

#[derive(Debug, Clone, PartialEq, Default)]
pub struct GetPodResourcesRequest {
    pub pod_name: String,
    pub pod_namespace: String,
}

#[derive(Debug, Clone, PartialEq, Default)]
pub struct GetPodResourcesResponse {
    pub pod_resources: Option<PodResources>,
}

#[derive(Debug, Clone, PartialEq, Default)]
pub struct PodResources {
    pub name: String,
    pub namespace: String,
    pub containers: Vec<ContainerResources>,
}

#[derive(Debug, Clone, PartialEq, Default)]
pub struct ContainerResources {
    pub name: String,
    pub devices: Vec<ContainerDevices>,
}

#[derive(Debug, Clone, PartialEq, Default)]
pub struct ContainerDevices {
    pub resource_name: String,
    pub device_ids: Vec<String>,
}

impl GetPodResourcesRequest {
    /// The request for the resources of one pod.
    pub fn new(pod_name: &str, pod_namespace: &str) -> (r: GetPodResourcesRequest)
        ensures
            r.pod_name@ == pod_name@,
            r.pod_namespace@ == pod_namespace@,
    {
        GetPodResourcesRequest { pod_name: owned(pod_name), pod_namespace: owned(pod_namespace) }
    }
}

/// `<resource>=<id>` for each device id of one resource.
pub open spec fn resource_device_names(d: ContainerDevices) -> Seq<Seq<char>> {
    d.device_ids@.map_values(|id: String| d.resource_name@ + seq!['='] + id@)
}

pub open spec fn container_device_names(ds: Seq<ContainerDevices>) -> Seq<Seq<char>>
    decreases ds.len(),
{
    if ds.len() == 0 {
        Seq::<Seq<char>>::empty()
    } else {
        container_device_names(ds.drop_last()) + resource_device_names(ds.last())
    }
}

/// Every `<resource>=<id>` of the pod, container by container, in order.
pub open spec fn pod_device_names(cs: Seq<ContainerResources>) -> Seq<Seq<char>>
    decreases cs.len(),
{
    if cs.len() == 0 {
        Seq::<Seq<char>>::empty()
    } else {
        pod_device_names(cs.drop_last()) + container_device_names(cs.last().devices@)
    }
}

fn append_resource_names(out: &mut Vec<String>, d: &ContainerDevices)
    ensures
        names(final(out)@) == names(old(out)@) + resource_device_names(*d),
{
    let ghost start = names(out@);
    let ghost all = resource_device_names(*d);
    let mut i: usize = 0;
    while i < d.device_ids.len()
        invariant
            all == resource_device_names(*d),
            all.len() == d.device_ids@.len(),
            i <= all.len(),
            names(out@) == start + all.take(i as int),
        decreases all.len() - i,
    {
        let mut name = owned(d.resource_name.as_str());
        name.append("=");
        name.append(d.device_ids[i].as_str());
        proof {
            reveal_strlit("=");
            assert(name@ == all[i as int]);
        }
        let ghost before = names(out@);
        out.push(name);
        assert(names(out@) =~= before.push(all[i as int]));
        assert(all.take(i + 1) =~= all.take(i as int).push(all[i as int]));
        assert(names(out@) =~= start + all.take(i + 1));
        i = i + 1;
    }
    assert(all.take(all.len() as int) =~= all);
}

fn append_container_names(out: &mut Vec<String>, ds: &Vec<ContainerDevices>)
    ensures
        names(final(out)@) == names(old(out)@) + container_device_names(ds@),
{
    let ghost start = names(out@);
    let mut i: usize = 0;
    while i < ds.len()
        invariant
            i <= ds@.len(),
            names(out@) == start + container_device_names(ds@.take(i as int)),
        decreases ds@.len() - i,
    {
        assert(ds@.take(i + 1).drop_last() =~= ds@.take(i as int));
        append_resource_names(out, &ds[i]);
        assert(names(out@) =~= start + container_device_names(ds@.take(i + 1)));
        i = i + 1;
    }
    assert(ds@.take(ds@.len() as int) =~= ds@);
}

/// The CDI device names a PodResources response stands for, formatted
/// `<resource_name>=<device_id>` for the CDI injection layer; `None` when
/// kubelet returned no PodResources at all.
pub fn cdi_devices_from_response(response: &GetPodResourcesResponse) -> (r: Option<Vec<String>>)
    ensures
        response.pod_resources is None <==> r is None,
        r matches Some(v) ==> names(v@) == pod_device_names(response.pod_resources->Some_0.containers@),
{
    let pod = match &response.pod_resources {
        Some(p) => p,
        None => return None,
    };
    let mut out: Vec<String> = Vec::new();
    assert(names(out@) =~= Seq::<Seq<char>>::empty());
    let ghost cs = pod.containers@;
    let mut i: usize = 0;
    while i < pod.containers.len()
        invariant
            cs == pod.containers@,
            i <= cs.len(),
            names(out@) == pod_device_names(cs.take(i as int)),
        decreases cs.len() - i,
    {
        assert(cs.take(i + 1).drop_last() =~= cs.take(i as int));
        append_container_names(&mut out, &pod.containers[i].devices);
        i = i + 1;
    }
    assert(cs.take(cs.len() as int) =~= cs);
    Some(out)
}

} // verus!
