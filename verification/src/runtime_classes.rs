//! Decisions kata-deploy takes about the RuntimeClasses of a cluster: which
//! ones need a Node Feature Discovery resource added to their pod overhead,
//! and which need their guest kernel command line annotation set.

use vstd::prelude::*;
use vstd::string::*;
use crate::dedup::names;
use crate::sorted::{get_value, holds_map, insert_pair, lemma_lookup_holds, lookup, pair_keys, pair_views, strictly_sorted};
use crate::text::{contains_str, has_infix, has_prefix, owned, starts_with, str_eq};
use crate::whisperer::opt_view;

verus! {

/// Extended resource NFD advertises on TDX hosts.
pub const TDX_NFD_KEY: &'static str = "tdx.intel.com/keys";

/// Extended resource NFD advertises on SEV-SNP hosts.
pub const SNP_NFD_KEY: &'static str = "sev-snp.amd.com/esids";

/// Quantity of the NFD resource a pod asks for.
pub const NFD_QUANTITY: &'static str = "1";

/// The pod overhead of a RuntimeClass.
#[derive(Debug, Clone)]
pub struct Overhead {
    /// Resources each pod is charged, by name, sorted by name.
    pub pod_fixed: Option<Vec<(String, String)>>,
}

/// What kata-deploy reads of a RuntimeClass.
#[derive(Debug, Clone)]
pub struct RuntimeClass {
    pub name: Option<String>,
    /// Annotations, sorted by key.
    pub annotations: Option<Vec<(String, String)>>,
    pub overhead: Option<Overhead>,
}

/// Maps kept as vectors are sorted by key, each key once.
pub open spec fn well_formed_map(m: Option<Vec<(String, String)>>) -> bool {
    match m {
        Some(v) => strictly_sorted(pair_keys(pair_views(v@))),
        None => true,
    }
}

impl RuntimeClass {
    pub open spec fn well_formed(&self) -> bool {
        &&& well_formed_map(self.annotations)
        &&& match self.overhead {
            Some(o) => well_formed_map(o.pod_fixed),
            None => true,
        }
    }
}

/// Why a RuntimeClass cannot be handled.
#[derive(Debug)]
pub enum RuntimeClassError {
    MissingName,
}

impl RuntimeClassError {
    pub fn message(&self) -> (r: String)
        ensures
            r@ == "RuntimeClass missing name"@,
    {
        String::from_str("RuntimeClass missing name")
    }
}

/// The NFD resource a RuntimeClass should request: only Kata classes do,
/// TDX ones the TDX key and SEV-SNP ones the SNP key.
pub open spec fn nfd_key_of(name: Seq<char>) -> Option<Seq<char>> {
    if !has_prefix(name, "kata"@) {
        None
    } else if has_infix(name, "tdx"@) {
        Some(TDX_NFD_KEY@)
    } else if has_infix(name, "snp"@) {
        Some(SNP_NFD_KEY@)
    } else {
        None
    }
}

/// The NFD resource a RuntimeClass should request, if any.
pub fn nfd_key_for(name: &str) -> (r: Option<&'static str>)
    ensures
        match r {
            Some(k) => nfd_key_of(name@) == Some(k@),
            None => nfd_key_of(name@) is None,
        },
{
    if !starts_with(name, "kata") {
        None
    } else if contains_str(name, "tdx") {
        Some(TDX_NFD_KEY)
    } else if contains_str(name, "snp") {
        Some(SNP_NFD_KEY)
    } else {
        None
    }
}

/// Whether a RuntimeClass lacks `key` in its pod overhead.
pub open spec fn lacks_nfd_key(overhead: Option<Overhead>, key: Seq<char>) -> bool {
    match overhead {
        None => true,
        Some(o) => match o.pod_fixed {
            None => true,
            Some(p) => !pair_keys(pair_views(p@)).contains(key),
        },
    }
}

fn contains_key(map: &Vec<(String, String)>, key: &str) -> (r: bool)
    ensures
        r == pair_keys(pair_views(map@)).contains(key@),
{
    let v = get_value(map, key);
    proof {
        crate::sorted::lemma_lookup_some(pair_views(map@), key@);
    }
    v.is_some()
}

/// Whether a RuntimeClass lacks `key` in its pod overhead.
pub fn needs_nfd_update(rc: &RuntimeClass, key: &str) -> (r: bool)
    ensures
        r == lacks_nfd_key(rc.overhead, key@),
{
    match &rc.overhead {
        None => true,
        Some(o) => match &o.pod_fixed {
            None => true,
            Some(p) => !contains_key(p, key),
        },
    }
}

/// The pod overhead resources of a RuntimeClass, as a map.
pub open spec fn pod_fixed_holds(overhead: Option<Overhead>, m: Map<Seq<char>, Seq<char>>) -> bool {
    match overhead {
        Some(o) => match o.pod_fixed {
            Some(p) => holds_map(pair_views(p@), m),
            None => false,
        },
        None => false,
    }
}

/// The RuntimeClass to write back so that it requests its NFD resource:
/// `None` when it needs no change (not a Kata TEE class, or the resource is
/// already there). A RuntimeClass without a name is an error.
pub fn nfd_update(rc: &RuntimeClass) -> (r: Result<Option<RuntimeClass>, RuntimeClassError>)
    requires
        rc.well_formed(),
    ensures
        rc.name is None <==> r is Err,
        r matches Ok(None) ==> nfd_key_of(rc.name.unwrap()@) is None || !lacks_nfd_key(
            rc.overhead,
            nfd_key_of(rc.name.unwrap()@).unwrap(),
        ),
        r matches Ok(Some(p)) ==> {
            let key = nfd_key_of(rc.name.unwrap()@).unwrap();
            &&& nfd_key_of(rc.name.unwrap()@) is Some
            &&& lacks_nfd_key(rc.overhead, key)
            &&& opt_view(p.name) == opt_view(rc.name)
            &&& opt_pairs(p.annotations) == opt_pairs(rc.annotations)
            &&& p.well_formed()
            &&& match rc.overhead {
                Some(Overhead { pod_fixed: Some(old) }) => forall|m: Map<Seq<char>, Seq<char>>|
                    holds_map(pair_views(old@), m) ==> #[trigger] pod_fixed_holds(
                        p.overhead,
                        m.insert(key, NFD_QUANTITY@),
                    ),
                _ => pod_fixed_holds(p.overhead, Map::empty().insert(key, NFD_QUANTITY@)),
            }
        },
{
    let name = match &rc.name {
        Some(n) => n,
        None => return Err(RuntimeClassError::MissingName),
    };
    let key = match nfd_key_for(name.as_str()) {
        Some(k) => k,
        None => return Ok(None),
    };
    if !needs_nfd_update(rc, key) {
        return Ok(None);
    }
    let mut pod_fixed: Vec<(String, String)> = match &rc.overhead {
        Some(o) => match &o.pod_fixed {
            Some(p) => copy_pairs(p),
            None => Vec::new(),
        },
        None => Vec::new(),
    };
    let ghost before = pair_views(pod_fixed@);
    proof {
        if before.len() == 0 {
            assert(pair_keys(before) =~= Seq::<Seq<char>>::empty());
            assert(holds_map(before, Map::empty()));
        }
    }
    insert_pair(&mut pod_fixed, owned(key), owned(NFD_QUANTITY));
    proof {
        if before.len() == 0 {
            assert(holds_map(pair_views(pod_fixed@), Map::empty().insert(key@, NFD_QUANTITY@)));
        }
    }
    let patched = RuntimeClass {
        name: Some(name.clone()),
        annotations: copy_map(&rc.annotations),
        overhead: Some(Overhead { pod_fixed: Some(pod_fixed) }),
    };
    Ok(Some(patched))
}

fn copy_pairs(p: &Vec<(String, String)>) -> (r: Vec<(String, String)>)
    ensures
        r@ == p@,
{
    let mut out: Vec<(String, String)> = Vec::new();
    let mut i: usize = 0;
    while i < p.len()
        invariant
            i <= p@.len(),
            out@ == p@.take(i as int),
        decreases p@.len() - i,
    {
        let pair = &p[i];
        out.push((pair.0.clone(), pair.1.clone()));
        assert(out@ =~= p@.take(i + 1));
        i = i + 1;
    }
    assert(p@.take(p@.len() as int) =~= p@);
    out
}

fn copy_map(m: &Option<Vec<(String, String)>>) -> (r: Option<Vec<(String, String)>>)
    ensures
        opt_pairs(r) == opt_pairs(*m),
{
    match m {
        Some(p) => Some(copy_pairs(p)),
        None => None,
    }
}

/// What to do about one RuntimeClass' command line annotation.
#[derive(Debug)]
pub enum AnnotationAction {
    /// Nothing: the class has no name, or no command line is known for it.
    Skip,
    /// The annotation already holds the command line.
    Unchanged,
    /// Set the annotation to this value.
    Patch(String),
}

/// The action for a RuntimeClass, given the encoded command line of each
/// class this node installed.
pub open spec fn annotation_action_of(
    name: Option<Seq<char>>,
    annotations: Option<Seq<(Seq<char>, Seq<char>)>>,
    key: Seq<char>,
    cmdlines: Seq<(Seq<char>, Seq<char>)>,
) -> Option<Option<Seq<char>>> {
    match name {
        None => None,
        Some(n) => match lookup(cmdlines, n) {
            None => None,
            Some(v) => if annotations is Some && lookup(annotations.unwrap(), key) == Some(v) {
                Some(None)
            } else {
                Some(Some(v))
            },
        },
    }
}

pub open spec fn opt_pairs(m: Option<Vec<(String, String)>>) -> Option<Seq<(Seq<char>, Seq<char>)>> {
    match m {
        Some(v) => Some(pair_views(v@)),
        None => None,
    }
}

/// What to do about a RuntimeClass' guest kernel command line annotation
/// `key`: skip a class without a name or without a command line, leave one
/// whose annotation already holds its command line, and patch the rest.
pub fn annotation_action(rc: &RuntimeClass, key: &str, cmdlines: &Vec<(String, String)>) -> (r: AnnotationAction)
    ensures
        match annotation_action_of(opt_view(rc.name), opt_pairs(rc.annotations), key@, pair_views(cmdlines@)) {
            None => r is Skip,
            Some(None) => r is Unchanged,
            Some(Some(v)) => (r matches AnnotationAction::Patch(p) && p@ == v),
        },
{
    let name = match &rc.name {
        Some(n) => n,
        None => return AnnotationAction::Skip,
    };
    let encoded = match get_value(cmdlines, name.as_str()) {
        Some(v) => v,
        None => return AnnotationAction::Skip,
    };
    let current = match &rc.annotations {
        Some(a) => get_value(a, key),
        None => None,
    };
    match current {
        Some(c) => if str_eq(c.as_str(), encoded.as_str()) {
            AnnotationAction::Unchanged
        } else {
            AnnotationAction::Patch(encoded)
        },
        None => AnnotationAction::Patch(encoded),
    }
}

/// The classes with a command line that the cluster does not have, in key
/// order.
pub open spec fn absent_classes(keys: Seq<Seq<char>>, found: Seq<Seq<char>>) -> Seq<Seq<char>> {
    keys.filter(|k: Seq<char>| !found.contains(k))
}

/// The RuntimeClasses this node installed a command line for but that do
/// not exist in the cluster.
pub fn absent_runtime_classes(cmdlines: &Vec<(String, String)>, found: &Vec<String>) -> (r: Vec<String>)
    ensures
        names(r@) == absent_classes(pair_keys(pair_views(cmdlines@)), names(found@)),
{
    let ghost ks = pair_keys(pair_views(cmdlines@));
    let ghost fs = names(found@);
    let mut out: Vec<String> = Vec::new();
    let mut i: usize = 0;
    while i < cmdlines.len()
        invariant
            ks == pair_keys(pair_views(cmdlines@)),
            fs == names(found@),
            i <= cmdlines@.len(),
            names(out@) == absent_classes(ks.take(i as int), fs),
        decreases cmdlines@.len() - i,
    {
        let k = &cmdlines[i].0;
        assert(ks[i as int] == k@);
        assert(ks.take(i + 1).drop_last() =~= ks.take(i as int));
        reveal(Seq::filter);
        if !crate::cmdline_annotation::contains_name(found, k.as_str()) {
            let ghost before = names(out@);
            out.push(k.clone());
            assert(names(out@) =~= before.push(k@));
        }
        i = i + 1;
    }
    assert(ks.take(ks.len() as int) =~= ks);
    out
}

/// Once a RuntimeClass carries its command line, the annotation step leaves
/// it alone: repeat installs have nothing to patch.
pub proof fn lemma_annotated_class_is_unchanged(
    name: Seq<char>,
    annotations: Seq<(Seq<char>, Seq<char>)>,
    m: Map<Seq<char>, Seq<char>>,
    key: Seq<char>,
    cmdlines: Seq<(Seq<char>, Seq<char>)>,
    v: Seq<char>,
)
    requires
        lookup(cmdlines, name) == Some(v),
        holds_map(annotations, m.insert(key, v)),
    ensures
        annotation_action_of(Some(name), Some(annotations), key, cmdlines) == Some(None::<Seq<char>>),
{
    lemma_lookup_holds(annotations, m.insert(key, v), key);
}

/// A RuntimeClass whose overhead requests the NFD resource needs no update:
/// updating is done once.
pub proof fn lemma_nfd_update_is_idempotent(
    overhead: Option<Overhead>,
    m: Map<Seq<char>, Seq<char>>,
    key: Seq<char>,
    quantity: Seq<char>,
)
    requires
        pod_fixed_holds(overhead, m.insert(key, quantity)),
    ensures
        !lacks_nfd_key(overhead, key),
{
    assert(m.insert(key, quantity).dom().contains(key));
}

/// The NFD resource a Kata RuntimeClass asks for follows from where `tdx`
/// or `snp` occurs in its name, anywhere in it: a name holding `tdx` asks
/// for the TDX resource, one holding `snp` but no `tdx` for the SEV-SNP
/// resource; a name holding neither, or not starting with `kata`, asks for
/// none.
pub proof fn lemma_nfd_key_follows_name(name: Seq<char>, i: int)
    ensures
        has_prefix(name, "kata"@) && 0 <= i && i + 3 <= name.len() && name.subrange(i, i + 3) == "tdx"@
            ==> nfd_key_of(name) == Some("tdx.intel.com/keys"@),
        has_prefix(name, "kata"@) && 0 <= i && i + 3 <= name.len() && name.subrange(i, i + 3) == "snp"@
            && !has_infix(name, "tdx"@) ==> nfd_key_of(name) == Some("sev-snp.amd.com/esids"@),
        !has_prefix(name, "kata"@) ==> nfd_key_of(name) is None,
        !has_infix(name, "tdx"@) && !has_infix(name, "snp"@) ==> nfd_key_of(name) is None,
{
    reveal_strlit("tdx");
    reveal_strlit("snp");
    if 0 <= i && i + 3 <= name.len() {
        assert(name.subrange(i, i + "tdx"@.len()) == name.subrange(i, i + 3));
    }
}

/// Text added at the end of a Kata RuntimeClass' name never takes its NFD
/// resource away: a name asking for the TDX resource still does, and one
/// asking for any resource still asks for one.
pub proof fn lemma_nfd_key_kept_by_longer_name(name: Seq<char>, more: Seq<char>)
    ensures
        nfd_key_of(name) == Some("tdx.intel.com/keys"@) ==> nfd_key_of(name + more) == Some(
            "tdx.intel.com/keys"@,
        ),
        nfd_key_of(name) is Some ==> nfd_key_of(name + more) is Some,
{
    let l = name + more;
    if has_prefix(name, "kata"@) {
        assert(l.subrange(0, "kata"@.len() as int) =~= name.subrange(0, "kata"@.len() as int));
    }
    if has_infix(name, "tdx"@) {
        let i = choose|i: int| 0 <= i && i + "tdx"@.len() <= name.len() && #[trigger] name.subrange(i, i + "tdx"@.len()) == "tdx"@;
        assert(l.subrange(i, i + "tdx"@.len()) =~= name.subrange(i, i + "tdx"@.len()));
    }
    if has_infix(name, "snp"@) {
        let i = choose|i: int| 0 <= i && i + "snp"@.len() <= name.len() && #[trigger] name.subrange(i, i + "snp"@.len()) == "snp"@;
        assert(l.subrange(i, i + "snp"@.len()) =~= name.subrange(i, i + "snp"@.len()));
    }
}

} // verus!
