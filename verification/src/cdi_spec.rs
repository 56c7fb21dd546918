//! Reading CDI (Container Device Interface) specs: which files hold them,
//! which devices the annotations of a pod ask for, and which device nodes
//! those requests add to an OCI spec's `linux.devices`.

use std::collections::HashMap;
use vstd::prelude::*;
use vstd::string::*;
use crate::dedup::names;
use crate::string_map::{has_key, keys_of, map_get, map_keys, value_at};
use crate::paths::{extension_of, path_extension, paths_equal, same_path};
use crate::text::{find_char, first_index_of, has_prefix, owned, starts_with, str_eq};

verus! {

/// Directories CDI specs are read from, in order.
pub const CDI_SPEC_DIRS: [&'static str; 2] = ["/etc/cdi", "/var/run/cdi"];

/// Prefix of the annotations that request CDI devices.
pub const CDI_ANNOTATION_PREFIX: &'static str = "cdi.k8s.io/";

/// A CDI spec file, as far as device nodes are concerned.
#[derive(Debug, Clone)]
pub struct CdiSpec {
    pub kind: String,
    pub devices: Vec<CdiDevice>,
}

/// A device a CDI spec describes.
#[derive(Debug, Clone)]
pub struct CdiDevice {
    pub name: String,
    pub container_edits: ContainerEdits,
}

/// The edits a device makes to a container.
#[derive(Debug, Clone, Default)]
pub struct ContainerEdits {
    pub device_nodes: Vec<DeviceNode>,
}

/// A device node a CDI device brings into the container.
#[derive(Debug, Clone)]
pub struct DeviceNode {
    pub path: String,
    pub typ: String,
    pub major: Option<i64>,
    pub minor: Option<i64>,
    pub file_mode: Option<u32>,
}

/// The type a device node has when its spec names none.
pub fn default_char_type() -> (r: String)
    ensures
        r@ == "c"@,
{
    owned("c")
}

/// Whether a path names a CDI spec file: one ending in `.yaml`, `.yml` or
/// `.json`.
pub open spec fn cdi_file_extension(path: Seq<char>) -> bool {
    match extension_of(path) {
        Some(e) => e == "yaml"@ || e == "yml"@ || e == "json"@,
        None => false,
    }
}

/// Whether `path` is a CDI spec file.
pub fn is_cdi_file(path: &str) -> (r: bool)
    ensures
        r == cdi_file_extension(path@),
{
    match path_extension(path) {
        Some(e) => str_eq(e.as_str(), "yaml") || str_eq(e.as_str(), "yml") || str_eq(e.as_str(), "json"),
        None => false,
    }
}

/// How a CDI spec file is encoded.
#[derive(Debug, Clone, Copy, PartialEq, Eq, Structural)]
pub enum CdiSpecFormat {
    Json,
    Yaml,
}

/// The encoding of a spec file: JSON for `.json`, YAML for anything else.
pub fn cdi_spec_format(path: &str) -> (r: CdiSpecFormat)
    ensures
        r == (if extension_of(path@) == Some("json"@) {
            CdiSpecFormat::Json
        } else {
            CdiSpecFormat::Yaml
        }),
{
    match path_extension(path) {
        Some(e) => if str_eq(e.as_str(), "json") {
            CdiSpecFormat::Json
        } else {
            CdiSpecFormat::Yaml
        },
        None => CdiSpecFormat::Yaml,
    }
}

/// The CDI device names the annotations ask for: the value of every
/// annotation whose key starts with `cdi.k8s.io/`, each once, in the order
/// the map is walked.
pub fn devices_from_annotations(annotations: &HashMap<String, String>) -> (r: Vec<String>)
    ensures
        exists|keys: Seq<Seq<char>>|
            {
                &&& keys.len() == r@.len()
                &&& keys.no_duplicates()
                &&& forall|i: int|
                    0 <= i < keys.len() ==> has_key(annotations@, #[trigger] keys[i]) && has_prefix(
                        keys[i],
                        CDI_ANNOTATION_PREFIX@,
                    ) && r@[i]@ == value_at(annotations@, keys[i])
                &&& forall|k: Seq<char>|
                    has_key(annotations@, k) && has_prefix(k, CDI_ANNOTATION_PREFIX@) ==> #[trigger] keys.contains(k)
            },
{
    let keys = map_keys(annotations);
    let mut out: Vec<String> = Vec::new();
    let ghost mut picked: Seq<Seq<char>> = Seq::empty();
    let ghost mut taken: Seq<int> = Seq::empty();
    let mut i: usize = 0;
    while i < keys.len()
        invariant
            keys_of(annotations@, keys@),
            i <= keys@.len(),
            picked.len() == out@.len(),
            taken.len() == picked.len(),
            forall|j: int| 0 <= j < taken.len() ==> 0 <= #[trigger] taken[j] < i,
            forall|j: int, l: int| 0 <= j < l < taken.len() ==> #[trigger] taken[j] < #[trigger] taken[l],
            forall|j: int|
                0 <= j < picked.len() ==> #[trigger] picked[j] == keys@[taken[j]]@ && out@[j]@ == value_at(
                    annotations@,
                    picked[j],
                ) && has_prefix(picked[j], CDI_ANNOTATION_PREFIX@),
            forall|e: int|
                0 <= e < i && has_prefix(#[trigger] keys@[e]@, CDI_ANNOTATION_PREFIX@) ==> picked.contains(keys@[e]@),
        decreases keys@.len() - i,
    {
        let ghost old_picked = picked;
        let key = keys[i].as_str();
        if starts_with(key, CDI_ANNOTATION_PREFIX) {
            assert(has_key(annotations@, keys@[i as int]@));
            match map_get(annotations, key) {
                Some(v) => {
                    out.push(v);
                    proof {
                        picked = picked.push(keys@[i as int]@);
                        taken = taken.push(i as int);
                        assert(picked[picked.len() - 1] == keys@[i as int]@);
                        assert(picked.contains(keys@[i as int]@));
                    }
                },
                None => {},
            }
        }
        proof {
            assert forall|e: int|
                0 <= e < i + 1 && has_prefix(#[trigger] keys@[e]@, CDI_ANNOTATION_PREFIX@) implies picked.contains(
                keys@[e]@,
            ) by {
                if e < i {
                    assert(old_picked.contains(keys@[e]@));
                    let j = choose|j: int| 0 <= j < old_picked.len() && old_picked[j] == keys@[e]@;
                    assert(picked[j] == old_picked[j]);
                }
            }
        }
        i = i + 1;
    }
    proof {
        assert forall|j: int, l: int| 0 <= j < picked.len() && 0 <= l < picked.len() && j != l implies picked[j]
            != picked[l] by {
            if j < l {
                assert(taken[j] < taken[l]);
                assert(keys@[taken[j]]@ != keys@[taken[l]]@);
            } else {
                assert(taken[l] < taken[j]);
                assert(keys@[taken[l]]@ != keys@[taken[j]]@);
            }
        }
        assert forall|j: int| 0 <= j < picked.len() implies has_key(annotations@, #[trigger] picked[j]) && has_prefix(
            picked[j],
            CDI_ANNOTATION_PREFIX@,
        ) && out@[j]@ == value_at(annotations@, picked[j]) by {
            let e = taken[j];
            assert(has_key(annotations@, keys@[e]@));
        }
        assert forall|k: Seq<char>| has_key(annotations@, k) && has_prefix(k, CDI_ANNOTATION_PREFIX@) implies #[trigger] picked.contains(k) by {
            let e = choose|e: int| 0 <= e < keys@.len() && #[trigger] keys@[e]@ == k;
            assert(has_prefix(keys@[e]@, CDI_ANNOTATION_PREFIX@));
        }
        assert({
            &&& picked.len() == out@.len()
            &&& picked.no_duplicates()
            &&& forall|i: int|
                0 <= i < picked.len() ==> has_key(annotations@, #[trigger] picked[i]) && has_prefix(
                    picked[i],
                    CDI_ANNOTATION_PREFIX@,
                ) && out@[i]@ == value_at(annotations@, picked[i])
            &&& forall|k: Seq<char>|
                has_key(annotations@, k) && has_prefix(k, CDI_ANNOTATION_PREFIX@) ==> #[trigger] picked.contains(k)
        });
    }
    out
}

/// The type of a Linux device node.
#[derive(Debug, Clone, Copy, PartialEq, Eq, Structural)]
pub enum LinuxDeviceType {
    /// Character device.
    C,
    /// Block device.
    B,
    /// FIFO.
    P,
}

/// The device type a CDI node type names: `c` and `u` are character
/// devices, `b` block devices, `p` FIFOs.
pub open spec fn device_type_of(typ: Seq<char>) -> Option<LinuxDeviceType> {
    if typ == "c"@ || typ == "u"@ {
        Some(LinuxDeviceType::C)
    } else if typ == "b"@ {
        Some(LinuxDeviceType::B)
    } else if typ == "p"@ {
        Some(LinuxDeviceType::P)
    } else {
        None
    }
}

/// The device type of a CDI node type.
pub fn linux_device_type(typ: &str) -> (r: Option<LinuxDeviceType>)
    ensures
        r == device_type_of(typ@),
{
    if str_eq(typ, "c") || str_eq(typ, "u") {
        Some(LinuxDeviceType::C)
    } else if str_eq(typ, "b") {
        Some(LinuxDeviceType::B)
    } else if str_eq(typ, "p") {
        Some(LinuxDeviceType::P)
    } else {
        None
    }
}

/// The major number glibc's `major()` extracts from a device number.
pub open spec fn rdev_major(rdev: u64) -> u64 {
    ((rdev >> 8u64) & 0xfffu64) | ((rdev >> 32u64) & 0xffff_f000u64)
}

/// The minor number of a device number: its low byte, and every bit from
/// the thirteenth up above it.
pub open spec fn rdev_minor(rdev: u64) -> u64 {
    (rdev & 0xffu64) | ((rdev >> 12u64) & 0xffff_ffff_ffff_ff00u64)
}

/// The device number glibc's `makedev()` builds from a major and a minor.
pub open spec fn make_rdev(major: u64, minor: u64) -> u64 {
    ((major & 0xffff_f000u64) << 32u64) | ((major & 0xfffu64) << 8u64) | ((minor & 0xffff_ff00u64)
        << 12u64) | (minor & 0xffu64)
}

/// The major and minor number of a Linux device number.
pub fn major_minor_from_rdev(rdev: u64) -> (r: (i64, i64))
    ensures
        r.0 == rdev_major(rdev),
        r.1 == rdev_minor(rdev),
        0 <= r.0 < 0x1_0000_0000,
        0 <= r.1 < 0x10_0000_0000_0000,
{
    let major_u: u64 = ((rdev >> 8u64) & 0xfffu64) | ((rdev >> 32u64) & !0xfffu64);
    let minor_u: u64 = (rdev & 0xffu64) | ((rdev >> 12u64) & !0xffu64);
    assert(major_u == rdev_major(rdev) && major_u < 0x1_0000_0000u64) by (bit_vector)
        requires
            major_u == ((rdev >> 8u64) & 0xfffu64) | ((rdev >> 32u64) & !0xfffu64),
    ;
    assert(minor_u == rdev_minor(rdev) && minor_u < 0x10_0000_0000_0000u64) by (bit_vector)
        requires
            minor_u == (rdev & 0xffu64) | ((rdev >> 12u64) & !0xffu64),
    ;
    (major_u as i64, minor_u as i64)
}

/// Splitting a device number built from a 32-bit major gives the major
/// back, whatever the minor.
pub proof fn lemma_rdev_major_round_trip(major: u64, minor: u64)
    requires
        major < 0x1_0000_0000,
    ensures
        rdev_major(make_rdev(major, minor)) == major,
{
    assert(rdev_major(make_rdev(major, minor)) == major) by (bit_vector)
        requires
            major < 0x1_0000_0000u64,
    ;
}

/// Splitting a device number built from a 32-bit minor gives the minor
/// back, provided the major fits in twelve bits: the split keeps the bits a
/// larger major sets above the minor's.
pub proof fn lemma_rdev_minor_round_trip(major: u64, minor: u64)
    requires
        major < 0x1000,
        minor < 0x1_0000_0000,
    ensures
        rdev_minor(make_rdev(major, minor)) == minor,
{
    assert(rdev_minor(make_rdev(major, minor)) == minor) by (bit_vector)
        requires
            major < 0x1000u64,
            minor < 0x1_0000_0000u64,
    ;
}

} // verus!

verus! {

/// A device node to add to `linux.devices`. `major_minor` is `None` when
/// the spec does not give both numbers, in which case the host node has to
/// be looked at.
#[derive(Debug, Clone)]
pub struct PlannedDevice {
    pub path: String,
    pub typ: LinuxDeviceType,
    pub major_minor: Option<(i64, i64)>,
    pub file_mode: Option<u32>,
}

pub type PlannedView = (Seq<char>, LinuxDeviceType, Option<(i64, i64)>, Option<u32>);

impl View for PlannedDevice {
    type V = PlannedView;

    open spec fn view(&self) -> PlannedView {
        (self.path@, self.typ, self.major_minor, self.file_mode)
    }
}

pub open spec fn planned_views(v: Seq<PlannedDevice>) -> Seq<PlannedView> {
    v.map_values(|d: PlannedDevice| d@)
}

/// Why CDI devices cannot be injected, as the specifications see it.
pub enum CdiFailure {
    UnknownType(Seq<char>, Seq<char>, Seq<char>),
    NotFound(Seq<char>, Seq<char>),
}

/// Why CDI devices cannot be injected.
#[derive(Debug)]
pub enum CdiError {
    /// A node of device `kind=name` has a type that is not a device type.
    UnknownDeviceType { kind: String, name: String, typ: String },
    /// No spec describes device `kind=name`.
    DeviceNotFound { kind: String, name: String },
}

impl View for CdiError {
    type V = CdiFailure;

    open spec fn view(&self) -> CdiFailure {
        match self {
            CdiError::UnknownDeviceType { kind, name, typ } => CdiFailure::UnknownType(kind@, name@, typ@),
            CdiError::DeviceNotFound { kind, name } => CdiFailure::NotFound(kind@, name@),
        }
    }
}

impl CdiError {
    /// The error as a person reads it.
    pub open spec fn describe(self) -> Seq<char> {
        match self {
            CdiError::UnknownDeviceType { kind, name, typ } => "build device for "@ + kind@ + "="@ + name@
                + ": unknown CDI device type '"@ + typ@ + "'"@,
            CdiError::DeviceNotFound { kind, name } => "CDI device "@ + kind@ + "="@ + name@
                + " not found in spec files under [\"/etc/cdi\", \"/var/run/cdi\"]"@,
        }
    }

    pub fn message(&self) -> (r: String)
        ensures
            r@ == self.describe(),
    {
        match self {
            CdiError::UnknownDeviceType { kind, name, typ } => {
                let mut m = owned("build device for ");
                m.append(kind.as_str());
                m.append("=");
                m.append(name.as_str());
                m.append(": unknown CDI device type '");
                m.append(typ.as_str());
                m.append("'");
                m
            },
            CdiError::DeviceNotFound { kind, name } => {
                let mut m = owned("CDI device ");
                m.append(kind.as_str());
                m.append("=");
                m.append(name.as_str());
                m.append(" not found in spec files under [\"/etc/cdi\", \"/var/run/cdi\"]");
                m
            },
        }
    }
}

/// The kind and name a fully-qualified device name `vendor.com/class=name`
/// splits into at its first `=`; `None` without one.
pub open spec fn request_of(d: Seq<char>) -> Option<(Seq<char>, Seq<char>)> {
    match first_index_of(d, '=') {
        Some(i) => Some((d.take(i), d.skip(i + 1))),
        None => None,
    }
}

/// The first device called `name`.
pub open spec fn device_named(devs: Seq<CdiDevice>, name: Seq<char>) -> Option<CdiDevice>
    decreases devs.len(),
{
    if devs.len() == 0 {
        None
    } else if devs[0].name@ == name {
        Some(devs[0])
    } else {
        device_named(devs.drop_first(), name)
    }
}

/// The device a request resolves to: in the first spec of kind `kind` that
/// describes a device called `name`, the first such device.
pub open spec fn find_device(specs: Seq<CdiSpec>, kind: Seq<char>, name: Seq<char>) -> Option<
    CdiDevice,
>
    decreases specs.len(),
{
    if specs.len() == 0 {
        None
    } else if specs[0].kind@ == kind && device_named(specs[0].devices@, name) is Some {
        device_named(specs[0].devices@, name)
    } else {
        find_device(specs.drop_first(), kind, name)
    }
}

/// Whether a path equal to `p` is already known.
pub open spec fn known_path(seen: Seq<Seq<char>>, p: Seq<char>) -> bool {
    exists|i: int| 0 <= i < seen.len() && same_path(#[trigger] seen[i], p)
}

/// The major and minor a node gives, when it gives both.
pub open spec fn node_major_minor(n: DeviceNode) -> Option<(i64, i64)> {
    match (n.major, n.minor) {
        (Some(a), Some(b)) => Some((a, b)),
        _ => None,
    }
}

/// The nodes of device `kind=name` that are new, given the paths already
/// `seen`; and the paths seen afterwards.
pub open spec fn plan_nodes(
    kind: Seq<char>,
    name: Seq<char>,
    seen: Seq<Seq<char>>,
    nodes: Seq<DeviceNode>,
) -> Result<(Seq<Seq<char>>, Seq<PlannedView>), CdiFailure>
    decreases nodes.len(),
{
    if nodes.len() == 0 {
        Ok((seen, Seq::<PlannedView>::empty()))
    } else {
        match plan_nodes(kind, name, seen, nodes.drop_last()) {
            Err(e) => Err(e),
            Ok((s, out)) => {
                let n = nodes.last();
                if known_path(s, n.path@) {
                    Ok((s, out))
                } else {
                    match device_type_of(n.typ@) {
                        None => Err(CdiFailure::UnknownType(kind, name, n.typ@)),
                        Some(t) => Ok(
                            (
                                s.push(n.path@),
                                out.push((n.path@, t, node_major_minor(n), n.file_mode)),
                            ),
                        ),
                    }
                }
            },
        }
    }
}

/// The nodes the requested devices add, in request order, given the paths
/// already `seen`; and the paths seen afterwards. A name without `=` is
/// ignored; a device no spec describes is an error.
pub open spec fn plan_requests(
    devices: Seq<Seq<char>>,
    specs: Seq<CdiSpec>,
    seen: Seq<Seq<char>>,
) -> Result<(Seq<Seq<char>>, Seq<PlannedView>), CdiFailure>
    decreases devices.len(),
{
    if devices.len() == 0 {
        Ok((seen, Seq::<PlannedView>::empty()))
    } else {
        match plan_requests(devices.drop_last(), specs, seen) {
            Err(e) => Err(e),
            Ok((s, out)) => match request_of(devices.last()) {
                None => Ok((s, out)),
                Some((kind, name)) => match find_device(specs, kind, name) {
                    None => Err(CdiFailure::NotFound(kind, name)),
                    Some(dev) => match plan_nodes(kind, name, s, dev.container_edits.device_nodes@) {
                        Err(e) => Err(e),
                        Ok((s2, more)) => Ok((s2, out + more)),
                    },
                },
            },
        }
    }
}

/// An error planning a prefix of the nodes is the error of them all.
proof fn lemma_plan_nodes_prefix_err(
    kind: Seq<char>,
    name: Seq<char>,
    seen: Seq<Seq<char>>,
    nodes: Seq<DeviceNode>,
    k: int,
)
    requires
        0 <= k <= nodes.len(),
        plan_nodes(kind, name, seen, nodes.take(k)) is Err,
    ensures
        plan_nodes(kind, name, seen, nodes) == plan_nodes(kind, name, seen, nodes.take(k)),
    decreases nodes.len() - k,
{
    if k < nodes.len() {
        assert(nodes.take(k + 1).drop_last() =~= nodes.take(k));
        lemma_plan_nodes_prefix_err(kind, name, seen, nodes, k + 1);
    } else {
        assert(nodes.take(k) =~= nodes);
    }
}

/// An error planning a prefix of the requests is the error of them all.
proof fn lemma_plan_requests_prefix_err(
    devices: Seq<Seq<char>>,
    specs: Seq<CdiSpec>,
    seen: Seq<Seq<char>>,
    k: int,
)
    requires
        0 <= k <= devices.len(),
        plan_requests(devices.take(k), specs, seen) is Err,
    ensures
        plan_requests(devices, specs, seen) == plan_requests(devices.take(k), specs, seen),
    decreases devices.len() - k,
{
    if k < devices.len() {
        assert(devices.take(k + 1).drop_last() =~= devices.take(k));
        lemma_plan_requests_prefix_err(devices, specs, seen, k + 1);
    } else {
        assert(devices.take(k) =~= devices);
    }
}

fn is_known_path(seen: &Vec<String>, p: &str) -> (r: bool)
    ensures
        r == known_path(names(seen@), p@),
{
    let mut i: usize = 0;
    while i < seen.len()
        invariant
            i <= seen@.len(),
            forall|j: int| 0 <= j < i ==> !same_path(#[trigger] names(seen@)[j], p@),
        decreases seen@.len() - i,
    {
        if paths_equal(seen[i].as_str(), p) {
            assert(same_path(names(seen@)[i as int], p@));
            return true;
        }
        i = i + 1;
    }
    false
}

fn plan_device_nodes(
    kind: &str,
    name: &str,
    seen: &mut Vec<String>,
    out: &mut Vec<PlannedDevice>,
    nodes: &Vec<DeviceNode>,
) -> (r: Result<(), CdiError>)
    ensures
        match plan_nodes(kind@, name@, names(old(seen)@), nodes@) {
            Ok((s, more)) => r is Ok && names(final(seen)@) == s && planned_views(final(out)@)
                == planned_views(old(out)@) + more,
            Err(e) => (r matches Err(x) && x@ == e),
        },
{
    let ghost seen0 = names(seen@);
    let ghost out0 = planned_views(out@);
    let mut i: usize = 0;
    assert(planned_views(out@) =~= out0 + Seq::<PlannedView>::empty());
    while i < nodes.len()
        invariant
            i <= nodes@.len(),
            seen0 == names(old(seen)@),
            out0 == planned_views(old(out)@),
            plan_nodes(kind@, name@, seen0, nodes@.take(i as int)) matches Ok((s, more)) && names(seen@)
                == s && planned_views(out@) == out0 + more,
        decreases nodes@.len() - i,
    {
        let n = &nodes[i];
        assert(nodes@.take(i + 1).drop_last() =~= nodes@.take(i as int));
        assert(nodes@.take(i + 1).last() == *n);
        let ghost prev_out = planned_views(out@);
        if !is_known_path(seen, n.path.as_str()) {
            match linux_device_type(n.typ.as_str()) {
                None => {
                    proof {
                        lemma_plan_nodes_prefix_err(kind@, name@, seen0, nodes@, i + 1);
                    }
                    return Err(
                        CdiError::UnknownDeviceType {
                            kind: owned(kind),
                            name: owned(name),
                            typ: n.typ.clone(),
                        },
                    );
                },
                Some(t) => {
                    let major_minor = match (n.major, n.minor) {
                        (Some(a), Some(b)) => Some((a, b)),
                        _ => None,
                    };
                    seen.push(n.path.clone());
                    out.push(PlannedDevice { path: n.path.clone(), typ: t, major_minor, file_mode: n.file_mode });
                    assert(planned_views(out@) =~= prev_out.push(planned_views(out@).last()));
                    assert(names(seen@) =~= names(seen@).drop_last().push(n.path@));
                },
            }
        }
        i = i + 1;
    }
    assert(nodes@.take(nodes@.len() as int) =~= nodes@);
    Ok(())
}

#[verifier::loop_isolation(false)]
fn find_cdi_device<'a>(specs: &'a Vec<CdiSpec>, kind: &str, name: &str) -> (r: Option<&'a CdiDevice>)
    ensures
        match find_device(specs@, kind@, name@) {
            Some(d) => (r matches Some(x) && *x == d),
            None => r is None,
        },
{
    let mut i: usize = 0;
    assert(specs@.skip(0) =~= specs@);
    while i < specs.len()
        invariant
            i <= specs@.len(),
            find_device(specs@, kind@, name@) == find_device(specs@.skip(i as int), kind@, name@),
        decreases specs@.len() - i,
    {
        assert(specs@.skip(i as int).drop_first() =~= specs@.skip(i + 1));
        assert(specs@.skip(i as int)[0] == specs@[i as int]);
        let spec = &specs[i];
        if str_eq(spec.kind.as_str(), kind) {
            let devs = &spec.devices;
            let mut j: usize = 0;
            assert(devs@.skip(0) =~= devs@);
            while j < devs.len()
                invariant
                    j <= devs@.len(),
                    device_named(devs@, name@) == device_named(devs@.skip(j as int), name@),
                decreases devs@.len() - j,
            {
                assert(devs@.skip(j as int).drop_first() =~= devs@.skip(j + 1));
                assert(devs@.skip(j as int)[0] == devs@[j as int]);
                if str_eq(devs[j].name.as_str(), name) {
                    return Some(&devs[j]);
                }
                j = j + 1;
            }
            assert(devs@.skip(j as int) =~= Seq::<CdiDevice>::empty());
        }
        i = i + 1;
    }
    assert(specs@.skip(i as int) =~= Seq::<CdiSpec>::empty());
    None
}

/// One step of `plan_requests`.
pub open spec fn plan_request_step(
    d: Seq<char>,
    specs: Seq<CdiSpec>,
    s: Seq<Seq<char>>,
    out: Seq<PlannedView>,
) -> Result<(Seq<Seq<char>>, Seq<PlannedView>), CdiFailure> {
    match request_of(d) {
        None => Ok((s, out)),
        Some((kind, name)) => match find_device(specs, kind, name) {
            None => Err(CdiFailure::NotFound(kind, name)),
            Some(dev) => match plan_nodes(kind, name, s, dev.container_edits.device_nodes@) {
                Err(e) => Err(e),
                Ok((s2, more)) => Ok((s2, out + more)),
            },
        },
    }
}

fn plan_request(
    d: &str,
    specs: &Vec<CdiSpec>,
    seen: &mut Vec<String>,
    out: &mut Vec<PlannedDevice>,
) -> (r: Result<(), CdiError>)
    ensures
        match plan_request_step(d@, specs@, names(old(seen)@), planned_views(old(out)@)) {
            Ok((s, o)) => r is Ok && names(final(seen)@) == s && planned_views(final(out)@) == o,
            Err(e) => (r matches Err(x) && x@ == e),
        },
{
    match find_char(d, '=') {
        None => Ok(()),
        Some(eq) => {
            let n = d.unicode_len();
            let kind = d.substring_char(0, eq);
            let name = d.substring_char(eq + 1, n);
            assert(kind@ =~= d@.take(eq as int));
            assert(name@ =~= d@.skip(eq + 1));
            match find_cdi_device(specs, kind, name) {
                None => Err(CdiError::DeviceNotFound { kind: owned(kind), name: owned(name) }),
                Some(dev) => plan_device_nodes(kind, name, seen, out, &dev.container_edits.device_nodes),
            }
        },
    }
}

/// The device nodes that injecting `devices` adds to a `linux.devices` list
/// already holding `existing_paths`: for each device name of the form
/// `kind=name`, in order, the nodes of the device the CDI specs describe,
/// except nodes whose path is already present or already added.
pub fn plan_cdi_injection(
    existing_paths: &Vec<String>,
    devices: &Vec<String>,
    specs: &Vec<CdiSpec>,
) -> (r: Result<Vec<PlannedDevice>, CdiError>)
    ensures
        match plan_requests(names(devices@), specs@, names(existing_paths@)) {
            Ok((_, planned)) => (r matches Ok(v) && planned_views(v@) == planned),
            Err(e) => (r matches Err(x) && x@ == e),
        },
{
    let mut seen: Vec<String> = Vec::new();
    let mut k: usize = 0;
    while k < existing_paths.len()
        invariant
            k <= existing_paths@.len(),
            names(seen@) == names(existing_paths@).take(k as int),
        decreases existing_paths@.len() - k,
    {
        let ghost prev = names(seen@);
        let p = existing_paths[k].clone();
        seen.push(p);
        assert(names(seen@) =~= prev.push(existing_paths@[k as int]@));
        assert(names(existing_paths@).take(k + 1) =~= names(existing_paths@).take(k as int).push(
            existing_paths@[k as int]@,
        ));
        k = k + 1;
    }
    assert(names(existing_paths@).take(k as int) =~= names(existing_paths@));
    let ghost seen0 = names(seen@);
    let ghost devs = names(devices@);
    let mut out: Vec<PlannedDevice> = Vec::new();
    let mut i: usize = 0;
    assert(planned_views(out@) =~= Seq::<PlannedView>::empty());
    while i < devices.len()
        invariant
            i <= devices@.len(),
            devs == names(devices@),
            seen0 == names(existing_paths@),
            plan_requests(devs.take(i as int), specs@, seen0) matches Ok((s, planned)) && names(seen@)
                == s && planned_views(out@) == planned,
        decreases devices@.len() - i,
    {
        assert(devs.take(i + 1).drop_last() =~= devs.take(i as int));
        assert(devs.take(i + 1).last() == devices@[i as int]@);
        let ghost seen_before = names(seen@);
        let ghost out_before = planned_views(out@);
        let step = plan_request(devices[i].as_str(), specs, &mut seen, &mut out);
        if let Err(e) = step {
            proof {
                lemma_plan_requests_prefix_err(devs, specs@, seen0, i + 1);
            }
            return Err(e);
        }
        i = i + 1;
    }
    assert(devs.take(devices@.len() as int) =~= devs);
    Ok(out)
}

} // verus!

verus! {

/// The paths of planned device nodes.
pub open spec fn planned_paths(out: Seq<PlannedView>) -> Seq<Seq<char>> {
    out.map_values(|p: PlannedView| p.0)
}

/// Each planned path differs from every path known before it: the ones in
/// `seen` and the ones planned earlier.
pub open spec fn fresh_paths(seen: Seq<Seq<char>>, out: Seq<PlannedView>) -> bool {
    forall|j: int, i: int|
        0 <= j < out.len() && 0 <= i < seen.len() + j ==> !same_path(
            #[trigger] (seen + planned_paths(out))[i],
            #[trigger] out[j].0,
        )
}

proof fn lemma_fresh_paths_concat(seen: Seq<Seq<char>>, out: Seq<PlannedView>, more: Seq<PlannedView>)
    requires
        fresh_paths(seen, out),
        fresh_paths(seen + planned_paths(out), more),
    ensures
        fresh_paths(seen, out + more),
        seen + planned_paths(out) + planned_paths(more) == seen + planned_paths(out + more),
{
    let all = seen + planned_paths(out + more);
    assert(planned_paths(out + more) =~= planned_paths(out) + planned_paths(more));
    assert(seen + planned_paths(out) + planned_paths(more) =~= all);
    assert forall|j: int, i: int| 0 <= j < (out + more).len() && 0 <= i < seen.len() + j implies !same_path(
        #[trigger] all[i],
        #[trigger] (out + more)[j].0,
    ) by {
        if j < out.len() {
            assert(all[i] == (seen + planned_paths(out))[i]);
            assert((out + more)[j] == out[j]);
        } else {
            let jj = j - out.len();
            assert((out + more)[j] == more[jj]);
            assert(all[i] == (seen + planned_paths(out) + planned_paths(more))[i]);
        }
    }
}

proof fn lemma_plan_nodes_fresh(kind: Seq<char>, name: Seq<char>, seen: Seq<Seq<char>>, nodes: Seq<DeviceNode>)
    ensures
        plan_nodes(kind, name, seen, nodes) matches Ok((s, more)) ==> s == seen + planned_paths(more)
            && fresh_paths(seen, more),
    decreases nodes.len(),
{
    if nodes.len() == 0 {
        assert(seen + planned_paths(Seq::<PlannedView>::empty()) =~= seen);
    } else {
        lemma_plan_nodes_fresh(kind, name, seen, nodes.drop_last());
        if let Ok((s, out)) = plan_nodes(kind, name, seen, nodes.drop_last()) {
            let n = nodes.last();
            if !known_path(s, n.path@) {
                if let Some(t) = device_type_of(n.typ@) {
                    let p = (n.path@, t, node_major_minor(n), n.file_mode);
                    let out2 = out.push(p);
                    assert(planned_paths(out2) =~= planned_paths(out).push(n.path@));
                    assert(seen + planned_paths(out2) =~= s.push(n.path@));
                    assert forall|j: int, i: int| 0 <= j < out2.len() && 0 <= i < seen.len() + j implies !same_path(
                        #[trigger] (seen + planned_paths(out2))[i],
                        #[trigger] out2[j].0,
                    ) by {
                        if j < out.len() {
                            assert((seen + planned_paths(out2))[i] == (seen + planned_paths(out))[i]);
                            assert(out2[j] == out[j]);
                        } else {
                            assert((seen + planned_paths(out2))[i] == s[i]);
                        }
                    }
                }
            }
        }
    }
}

/// Injection never adds a device node whose path is already in the list,
/// nor two nodes with the same path.
pub proof fn lemma_injection_adds_no_duplicate_paths(
    devices: Seq<Seq<char>>,
    specs: Seq<CdiSpec>,
    seen: Seq<Seq<char>>,
)
    ensures
        plan_requests(devices, specs, seen) matches Ok((s, out)) ==> {
            &&& s == seen + planned_paths(out)
            &&& forall|j: int, i: int|
                0 <= j < out.len() && 0 <= i < seen.len() ==> !same_path(#[trigger] seen[i], #[trigger] out[j].0)
            &&& forall|i: int, j: int|
                0 <= i < j < out.len() ==> !same_path(#[trigger] out[i].0, #[trigger] out[j].0)
        },
    decreases devices.len(),
{
    lemma_plan_requests_fresh(devices, specs, seen);
    if let Ok((s, out)) = plan_requests(devices, specs, seen) {
        assert forall|j: int, i: int| 0 <= j < out.len() && 0 <= i < seen.len() implies !same_path(
            #[trigger] seen[i],
            #[trigger] out[j].0,
        ) by {
            assert((seen + planned_paths(out))[i] == seen[i]);
        }
        assert forall|i: int, j: int| 0 <= i < j < out.len() implies !same_path(
            #[trigger] out[i].0,
            #[trigger] out[j].0,
        ) by {
            assert((seen + planned_paths(out))[seen.len() + i] == out[i].0);
        }
    }
}

proof fn lemma_plan_requests_fresh(devices: Seq<Seq<char>>, specs: Seq<CdiSpec>, seen: Seq<Seq<char>>)
    ensures
        plan_requests(devices, specs, seen) matches Ok((s, out)) ==> s == seen + planned_paths(out)
            && fresh_paths(seen, out),
    decreases devices.len(),
{
    if devices.len() == 0 {
        assert(seen + planned_paths(Seq::<PlannedView>::empty()) =~= seen);
    } else {
        lemma_plan_requests_fresh(devices.drop_last(), specs, seen);
        if let Ok((s, out)) = plan_requests(devices.drop_last(), specs, seen) {
            if let Some((kind, name)) = request_of(devices.last()) {
                if let Some(dev) = find_device(specs, kind, name) {
                    lemma_plan_nodes_fresh(kind, name, s, dev.container_edits.device_nodes@);
                    if let Ok((s2, more)) = plan_nodes(kind, name, s, dev.container_edits.device_nodes@) {
                        lemma_fresh_paths_concat(seen, out, more);
                    }
                }
            }
        }
    }
}

/// `n` is a device node one of the specs describes.
pub open spec fn node_of_specs(specs: Seq<CdiSpec>, n: DeviceNode) -> bool {
    exists|a: int, b: int, k: int|
        0 <= a < specs.len() && 0 <= b < specs[a].devices@.len() && 0 <= k
            < specs[a].devices@[b].container_edits.device_nodes@.len()
            && #[trigger] specs[a].devices@[b].container_edits.device_nodes@[k] == n
}

/// `p` is what node `n` is injected as: at the node's path, with its file
/// mode, its major and minor numbers when it gives both, and the device
/// type its type letter names: `b` a block device, `c` or `u` a character
/// device, `p` a FIFO.
pub open spec fn injected_as(p: PlannedView, n: DeviceNode) -> bool {
    &&& p.0 == n.path@
    &&& p.3 == n.file_mode
    &&& p.2 == (if n.major is Some && n.minor is Some {
        Some((n.major->Some_0, n.minor->Some_0))
    } else {
        None
    })
    &&& n.typ@ == "b"@ || n.typ@ == "c"@ || n.typ@ == "u"@ || n.typ@ == "p"@
    &&& n.typ@ == "b"@ ==> p.1 == LinuxDeviceType::B
    &&& n.typ@ == "c"@ || n.typ@ == "u"@ ==> p.1 == LinuxDeviceType::C
    &&& n.typ@ == "p"@ ==> p.1 == LinuxDeviceType::P
}

proof fn lemma_device_named_in(devs: Seq<CdiDevice>, name: Seq<char>)
    ensures
        device_named(devs, name) matches Some(d) ==> exists|b: int| 0 <= b < devs.len() && #[trigger] devs[b] == d,
    decreases devs.len(),
{
    if devs.len() > 0 && devs[0].name@ != name {
        lemma_device_named_in(devs.drop_first(), name);
        if let Some(d) = device_named(devs, name) {
            let b = choose|b: int| 0 <= b < devs.drop_first().len() && #[trigger] devs.drop_first()[b] == d;
            assert(devs[b + 1] == d);
        }
    } else if devs.len() > 0 {
        assert(devs[0] == device_named(devs, name)->Some_0);
    }
}

proof fn lemma_find_device_in(specs: Seq<CdiSpec>, kind: Seq<char>, name: Seq<char>)
    ensures
        find_device(specs, kind, name) matches Some(d) ==> exists|a: int, b: int|
            0 <= a < specs.len() && 0 <= b < specs[a].devices@.len() && #[trigger] specs[a].devices@[b] == d,
    decreases specs.len(),
{
    if specs.len() > 0 {
        if specs[0].kind@ == kind && device_named(specs[0].devices@, name) is Some {
            lemma_device_named_in(specs[0].devices@, name);
        } else {
            lemma_find_device_in(specs.drop_first(), kind, name);
            if let Some(d) = find_device(specs, kind, name) {
                let (a, b) = choose|a: int, b: int|
                    0 <= a < specs.drop_first().len() && 0 <= b < specs.drop_first()[a].devices@.len()
                        && #[trigger] specs.drop_first()[a].devices@[b] == d;
                assert(specs[a + 1].devices@[b] == d);
            }
        }
    }
}

proof fn lemma_types_distinct()
    ensures
        "b"@ != "c"@,
        "b"@ != "u"@,
        "b"@ != "p"@,
        "c"@ != "p"@,
        "u"@ != "p"@,
{
    reveal_strlit("b");
    reveal_strlit("c");
    reveal_strlit("u");
    reveal_strlit("p");
    assert("b"@[0] != "c"@[0]);
    assert("b"@[0] != "u"@[0]);
    assert("b"@[0] != "p"@[0]);
    assert("c"@[0] != "p"@[0]);
    assert("u"@[0] != "p"@[0]);
}

proof fn lemma_plan_nodes_injected(kind: Seq<char>, name: Seq<char>, seen: Seq<Seq<char>>, nodes: Seq<DeviceNode>)
    ensures
        plan_nodes(kind, name, seen, nodes) matches Ok((s, out)) ==> forall|j: int|
            #![trigger out[j]]
            0 <= j < out.len() ==> exists|k: int| 0 <= k < nodes.len() && injected_as(out[j], #[trigger] nodes[k]),
    decreases nodes.len(),
{
    if nodes.len() > 0 {
        let init = nodes.drop_last();
        lemma_plan_nodes_injected(kind, name, seen, init);
        lemma_types_distinct();
        if let Ok((s, out)) = plan_nodes(kind, name, seen, nodes) {
            let (s0, out0) = plan_nodes(kind, name, seen, init)->Ok_0;
            let n = nodes.last();
            assert forall|j: int| #![trigger out[j]] 0 <= j < out.len() implies exists|k: int|
                0 <= k < nodes.len() && injected_as(out[j], #[trigger] nodes[k]) by {
                if j < out0.len() {
                    assert(out[j] == out0[j]);
                    let k = choose|k: int| 0 <= k < init.len() && injected_as(out0[j], #[trigger] init[k]);
                    assert(nodes[k] == init[k]);
                } else {
                    assert(out[j] == (n.path@, device_type_of(n.typ@)->Some_0, node_major_minor(n), n.file_mode));
                    assert(nodes[nodes.len() - 1] == n);
                    assert(injected_as(out[j], nodes[nodes.len() - 1]));
                }
            }
        }
    }
}

/// The node of the specs the `j`th planned device comes from.
proof fn lemma_planned_device_node(devices: Seq<Seq<char>>, specs: Seq<CdiSpec>, seen: Seq<Seq<char>>, j: int) -> (n:
    DeviceNode)
    requires
        plan_requests(devices, specs, seen) is Ok,
        0 <= j < plan_requests(devices, specs, seen)->Ok_0.1.len(),
    ensures
        node_of_specs(specs, n),
        injected_as(plan_requests(devices, specs, seen)->Ok_0.1[j], n),
    decreases devices.len(),
{
    let init = devices.drop_last();
    let out = plan_requests(devices, specs, seen)->Ok_0.1;
    let s0 = plan_requests(init, specs, seen)->Ok_0.0;
    let out0 = plan_requests(init, specs, seen)->Ok_0.1;
    if j < out0.len() {
        let n = lemma_planned_device_node(init, specs, seen, j);
        assert(out[j] == out0[j]);
        n
    } else {
        let (kind, name) = request_of(devices.last())->Some_0;
        let dev = find_device(specs, kind, name)->Some_0;
        let nodes = dev.container_edits.device_nodes@;
        let more = plan_nodes(kind, name, s0, nodes)->Ok_0.1;
        assert(out == out0 + more);
        assert(out[j] == more[j - out0.len()]);
        lemma_plan_nodes_injected(kind, name, s0, nodes);
        lemma_find_device_in(specs, kind, name);
        let k = choose|k: int| 0 <= k < nodes.len() && injected_as(more[j - out0.len()], #[trigger] nodes[k]);
        let (a, b) = choose|a: int, b: int|
            0 <= a < specs.len() && 0 <= b < specs[a].devices@.len() && #[trigger] specs[a].devices@[b] == dev;
        assert(specs[a].devices@[b].container_edits.device_nodes@[k] == nodes[k]);
        nodes[k]
    }
}

/// `p` is one of the specs' device nodes, as it is injected.
pub open spec fn injected_from_specs(specs: Seq<CdiSpec>, p: PlannedView) -> bool {
    exists|n: DeviceNode| node_of_specs(specs, n) && #[trigger] injected_as(p, n)
}

/// Every device node injection plans is a node of one of the CDI specs,
/// injected at the node's path, with its file mode, its major and minor
/// numbers when it gives both, and the device type its type letter names:
/// a block device for `b`, a character device for `c` or `u`, a FIFO for
/// `p`.
pub proof fn lemma_planned_devices_follow_their_nodes(
    devices: Seq<Seq<char>>,
    specs: Seq<CdiSpec>,
    seen: Seq<Seq<char>>,
)
    ensures
        plan_requests(devices, specs, seen) matches Ok((s, out)) ==> forall|j: int|
            0 <= j < out.len() ==> injected_from_specs(specs, #[trigger] out[j]),
{
    if let Ok((s, out)) = plan_requests(devices, specs, seen) {
        assert forall|j: int| 0 <= j < out.len() implies injected_from_specs(specs, #[trigger] out[j]) by {
            let n = lemma_planned_device_node(devices, specs, seen, j);
            assert(injected_as(out[j], n));
        }
    }
}

/// The path `x` is in the list `s`, or equal as a path to one that is.
pub open spec fn path_covered(s: Seq<Seq<char>>, x: Seq<char>) -> bool {
    s.contains(x) || known_path(s, x)
}

proof fn lemma_path_covered_grows(a: Seq<Seq<char>>, b: Seq<Seq<char>>, x: Seq<char>)
    requires
        path_covered(a, x),
    ensures
        path_covered(a + b, x),
{
    if a.contains(x) {
        let i = choose|i: int| 0 <= i < a.len() && a[i] == x;
        assert((a + b)[i] == x);
    } else {
        let i = choose|i: int| 0 <= i < a.len() && same_path(#[trigger] a[i], x);
        assert((a + b)[i] == a[i]);
    }
}

proof fn lemma_plan_nodes_cover(kind: Seq<char>, name: Seq<char>, seen: Seq<Seq<char>>, nodes: Seq<DeviceNode>)
    ensures
        plan_nodes(kind, name, seen, nodes) matches Ok((s, more)) ==> forall|k: int|
            0 <= k < nodes.len() ==> path_covered(s, (#[trigger] nodes[k]).path@),
    decreases nodes.len(),
{
    if nodes.len() > 0 {
        let init = nodes.drop_last();
        lemma_plan_nodes_cover(kind, name, seen, init);
        if let Ok((s1, more1)) = plan_nodes(kind, name, seen, nodes) {
            let s0 = plan_nodes(kind, name, seen, init)->Ok_0.0;
            let n = nodes.last();
            assert forall|k: int| 0 <= k < nodes.len() implies path_covered(s1, (#[trigger] nodes[k]).path@) by {
                if k < init.len() {
                    assert(nodes[k] == init[k]);
                    assert(path_covered(s0, init[k].path@));
                    if s1 != s0 {
                        assert(s1 == s0.push(n.path@));
                        lemma_path_covered_grows(s0, seq![n.path@], init[k].path@);
                        assert(s0 + seq![n.path@] =~= s1);
                    }
                } else {
                    assert(nodes[k] == n);
                    if !known_path(s0, n.path@) {
                        assert(s1 == s0.push(n.path@));
                        assert(s1[s0.len() as int] == n.path@);
                    }
                }
            }
        }
    }
}

proof fn lemma_plan_requests_cover(devices: Seq<Seq<char>>, specs: Seq<CdiSpec>, seen: Seq<Seq<char>>)
    ensures
        plan_requests(devices, specs, seen) matches Ok((s, out)) ==> forall|i: int|
            0 <= i < devices.len() && #[trigger] request_of(devices[i]) is Some ==> find_device(
                specs,
                request_of(devices[i])->Some_0.0,
                request_of(devices[i])->Some_0.1,
            ) is Some && forall|k: int|
                0 <= k < find_device(
                    specs,
                    request_of(devices[i])->Some_0.0,
                    request_of(devices[i])->Some_0.1,
                )->Some_0.container_edits.device_nodes@.len() ==> path_covered(
                    s,
                    (#[trigger] find_device(
                        specs,
                        request_of(devices[i])->Some_0.0,
                        request_of(devices[i])->Some_0.1,
                    )->Some_0.container_edits.device_nodes@[k]).path@,
                ),
    decreases devices.len(),
{
    if devices.len() > 0 {
        let init = devices.drop_last();
        lemma_plan_requests_cover(init, specs, seen);
        if let Ok((s, out)) = plan_requests(devices, specs, seen) {
            let s0 = plan_requests(init, specs, seen)->Ok_0.0;
            let extra = if request_of(devices.last()) is Some {
                let (kind, name) = request_of(devices.last())->Some_0;
                let dev = find_device(specs, kind, name)->Some_0;
                let nodes = dev.container_edits.device_nodes@;
                lemma_plan_nodes_fresh(kind, name, s0, nodes);
                lemma_plan_nodes_cover(kind, name, s0, nodes);
                planned_paths(plan_nodes(kind, name, s0, nodes)->Ok_0.1)
            } else {
                Seq::<Seq<char>>::empty()
            };
            assert(s =~= s0 + extra);
            assert forall|i: int| 0 <= i < devices.len() && #[trigger] request_of(devices[i]) is Some implies find_device(
                specs,
                request_of(devices[i])->Some_0.0,
                request_of(devices[i])->Some_0.1,
            ) is Some && forall|k: int|
                0 <= k < find_device(
                    specs,
                    request_of(devices[i])->Some_0.0,
                    request_of(devices[i])->Some_0.1,
                )->Some_0.container_edits.device_nodes@.len() ==> path_covered(
                    s,
                    (#[trigger] find_device(
                        specs,
                        request_of(devices[i])->Some_0.0,
                        request_of(devices[i])->Some_0.1,
                    )->Some_0.container_edits.device_nodes@[k]).path@,
                ) by {
                let (kind, name) = request_of(devices[i])->Some_0;
                let nodes = find_device(specs, kind, name)->Some_0.container_edits.device_nodes@;
                if i < init.len() {
                    assert(init[i] == devices[i]);
                    assert forall|k: int| 0 <= k < nodes.len() implies path_covered(s, (#[trigger] nodes[k]).path@) by {
                        lemma_path_covered_grows(s0, extra, nodes[k].path@);
                    }
                } else {
                    assert(devices[i] == devices.last());
                }
            }
        }
    }
}

/// Injection leaves out no node of a requested device: when planning
/// succeeds, every `kind=name` request names a device of the specs, and
/// each node path of that device ends up in the device list, already there
/// or planned.
pub proof fn lemma_requested_nodes_are_covered(devices: Seq<Seq<char>>, specs: Seq<CdiSpec>, seen: Seq<Seq<char>>)
    ensures
        plan_requests(devices, specs, seen) matches Ok((s, out)) ==> forall|i: int|
            0 <= i < devices.len() && #[trigger] request_of(devices[i]) is Some ==> find_device(
                specs,
                request_of(devices[i])->Some_0.0,
                request_of(devices[i])->Some_0.1,
            ) is Some && forall|k: int|
                0 <= k < find_device(
                    specs,
                    request_of(devices[i])->Some_0.0,
                    request_of(devices[i])->Some_0.1,
                )->Some_0.container_edits.device_nodes@.len() ==> path_covered(
                    seen + planned_paths(out),
                    (#[trigger] find_device(
                        specs,
                        request_of(devices[i])->Some_0.0,
                        request_of(devices[i])->Some_0.1,
                    )->Some_0.container_edits.device_nodes@[k]).path@,
                ),
{
    lemma_plan_requests_cover(devices, specs, seen);
    lemma_plan_requests_fresh(devices, specs, seen);
}

} // verus!
