//! Guest kernel command lines of the confidential RuntimeClasses a node
//! installs, encoded for publication as a RuntimeClass annotation.
//!
//! Only confidential classes are published: there the guest command line is
//! covered by the launch measurement, so a relying party has to know it up
//! front. The command lines themselves come from the kernel whisperer's
//! report; this module decides which of them to publish and how they are
//! encoded (gzip, then standard base64, so `base64 -d | gunzip` recovers them).

use vstd::prelude::*;
use vstd::string::*;
use vstd::utf8::encode_utf8;
use crate::dedup::names;
use crate::order::lemma_stably_sorted_lists_every_index;
use crate::paths::{paths_equal, same_path};
use crate::runtime_manifest::{
    base_shims, config_entries, describes_config, entry_views, hypervisor_of, DeployConfig, ManifestError,
    RuntimeEntry, RuntimeManifest,
};
use crate::sorted::{holds_map, insert_name, insert_pair, pair_keys, pair_views, strictly_sorted};
use crate::text::{split_char, split_on, str_eq};
use crate::whisperer::{Report, RuntimeClassOutput};

verus! {

/// Component tarball carrying the whisperer.
pub const WHISPERER_COMPONENT: &'static str = "kata-kernel-whisperer";

/// Where the whisperer is unpacked inside the kata-deploy container.
pub const WHISPERER_DIR: &'static str = "/opt/kata-artifacts/kernel-whisperer";

/// Path of the binary within the extracted component.
pub const WHISPERER_BIN: &'static str = "bin/kata-kernel-whisperer";

/// Name under `WHISPERER_DIR` the manifest is handed over as.
pub const MANIFEST_FILE: &'static str = "kata-deploy-runtimes.json";

/// Highest report schema this code reads.
pub const SUPPORTED_REPORT_VERSION: u32 = 1;

/// Annotation carrying a RuntimeClass' guest kernel command line, gzip'd and
/// then base64-encoded.
pub const CMDLINE_ANNOTATION_KEY: &'static str = "katacontainers.io/guest-kernel-cmdline.gz.base64";

/// Shim name segments that mark a shim whose guests run under a TEE with a
/// launch measurement covering the command line: `snp`, `tdx` and `cca`.
pub open spec fn confidential_marker(segment: Seq<char>) -> bool {
    segment == "snp"@ || segment == "tdx"@ || segment == "cca"@
}

fn is_confidential_marker(segment: &str) -> (r: bool)
    ensures
        r == confidential_marker(segment@),
{
    str_eq(segment, "snp") || str_eq(segment, "tdx") || str_eq(segment, "cca")
}

/// A shim is confidential when one of its hyphen-separated name segments
/// is a marker: a whole segment, not merely a substring.
pub open spec fn confidential_shim(shim: Seq<char>) -> bool {
    exists|i: int| 0 <= i < split_on(shim, '-').len() && confidential_marker(#[trigger] split_on(shim, '-')[i])
}

/// Whether `shim` runs guests under a TEE whose launch measurement covers
/// the guest kernel command line.
pub fn is_confidential_shim(shim: &str) -> (r: bool)
    ensures
        r == confidential_shim(shim@),
{
    let segments = split_char(shim, '-');
    let ghost segs = segments@.map_values(|p: String| p@);
    let mut i: usize = 0;
    while i < segments.len()
        invariant
            segs == segments@.map_values(|p: String| p@),
            segs == split_on(shim@, '-'),
            i <= segments@.len(),
            forall|j: int| 0 <= j < i ==> !confidential_marker(#[trigger] segs[j]),
        decreases segments@.len() - i,
    {
        if is_confidential_marker(segments[i].as_str()) {
            assert(confidential_marker(segs[i as int]));
            return true;
        }
        i = i + 1;
    }
    false
}

/// The RuntimeClasses of confidential entries.
pub open spec fn is_confidential_class(runtimes: Seq<RuntimeEntry>, class: Seq<char>) -> bool {
    exists|i: int|
        0 <= i < runtimes.len() && (#[trigger] runtimes[i]).runtime_class@ == class && confidential_shim(
            runtimes[i].shim@,
        )
}

/// The RuntimeClasses of `manifest` whose guest command line is worth
/// publishing: those whose shim is confidential, each once, in order. Decided
/// from the shim rather than the class name, so debug and devkit variants of a
/// confidential class come along.
pub fn confidential_runtime_classes(manifest: &RuntimeManifest) -> (r: Vec<String>)
    ensures
        strictly_sorted(names(r@)),
        forall|c: Seq<char>| #[trigger] names(r@).contains(c) <==> is_confidential_class(manifest.runtimes@, c),
{
    let ghost rs = manifest.runtimes@;
    let mut out: Vec<String> = Vec::new();
    let mut i: usize = 0;
    while i < manifest.runtimes.len()
        invariant
            rs == manifest.runtimes@,
            i <= rs.len(),
            strictly_sorted(names(out@)),
            forall|c: Seq<char>| #[trigger] names(out@).contains(c) <==> is_confidential_class(rs.take(i as int), c),
        decreases rs.len() - i,
    {
        let e = &manifest.runtimes[i];
        let ghost before = names(out@);
        assert forall|c: Seq<char>| is_confidential_class(rs.take(i + 1), c) <==> (is_confidential_class(
            rs.take(i as int),
            c,
        ) || (c == e.runtime_class@ && confidential_shim(e.shim@))) by {
            if is_confidential_class(rs.take(i + 1), c) {
                let k = choose|k: int|
                    0 <= k < rs.take(i + 1).len() && (#[trigger] rs.take(i + 1)[k]).runtime_class@ == c
                        && confidential_shim(rs.take(i + 1)[k].shim@);
                if k < i {
                    assert(rs.take(i as int)[k] == rs.take(i + 1)[k]);
                }
            }
            if is_confidential_class(rs.take(i as int), c) {
                let k = choose|k: int|
                    0 <= k < rs.take(i as int).len() && (#[trigger] rs.take(i as int)[k]).runtime_class@ == c
                        && confidential_shim(rs.take(i as int)[k].shim@);
                assert(rs.take(i + 1)[k] == rs.take(i as int)[k]);
            }
            if c == e.runtime_class@ && confidential_shim(e.shim@) {
                assert(rs.take(i + 1)[i as int] == *e);
            }
        }
        if is_confidential_shim(e.shim.as_str()) {
            insert_name(&mut out, e.runtime_class.clone());
        }
        assert forall|c: Seq<char>| #[trigger] names(out@).contains(c) <==> is_confidential_class(
            rs.take(i + 1),
            c,
        ) by {
            assert(before.contains(c) <==> is_confidential_class(rs.take(i as int), c));
        }
        i = i + 1;
    }
    assert(rs.take(rs.len() as int) =~= rs);
    out
}

/// What to look up for the confidential RuntimeClasses `config` installs on
/// `architecture`: the manifest to hand the whisperer, and the classes whose
/// command line is to be published. `None` when nothing confidential is
/// installed, the common case, where there is nothing to look up at all.
pub fn guest_kernel_cmdline_targets(config: &DeployConfig, architecture: &str) -> (r: Result<
    Option<(RuntimeManifest, Vec<String>)>,
    ManifestError,
>)
    ensures
        r is Err <==> exists|i: int| 0 <= i < base_shims(*config).len() && (#[trigger] hypervisor_of(
            base_shims(*config)[i],
        )) is None,
        r matches Err(ManifestError::UnknownShim(s)) ==> exists|i: int|
            crate::runtime_manifest::first_unknown(base_shims(*config), i) && #[trigger] base_shims(*config)[i]
                == s@,
        r matches Ok(None) <==> (forall|i: int|
            0 <= i < base_shims(*config).len() ==> (#[trigger] hypervisor_of(base_shims(*config)[i])) is Some)
            && (forall|i: int| 0 <= i < base_shims(*config).len() ==> !confidential_shim(
            #[trigger] base_shims(*config)[i],
        )),
        r matches Ok(Some((m, classes))) ==> {
            &&& describes_config(m, *config, architecture@)
            &&& classes@.len() > 0
            &&& strictly_sorted(names(classes@))
            &&& forall|c: Seq<char>| #[trigger] names(classes@).contains(c) <==> is_confidential_class(m.runtimes@, c)
        },
{
    let manifest = RuntimeManifest::from_config(config, architecture)?;
    let confidential = confidential_runtime_classes(&manifest);
    proof {
        lemma_confidential_classes_of_config(*config, manifest, architecture@);
        if confidential@.len() > 0 {
            assert(names(confidential@).contains(names(confidential@)[0]));
        } else {
            assert forall|c: Seq<char>| !is_confidential_class(manifest.runtimes@, c) by {
                if is_confidential_class(manifest.runtimes@, c) {
                    assert(names(confidential@).contains(c));
                }
            }
        }
    }
    if confidential.len() == 0 {
        Ok(None)
    } else {
        Ok(Some((manifest, confidential)))
    }
}

/// The manifest of a configuration has a confidential class exactly when
/// one of the configuration's shims is confidential.
proof fn lemma_confidential_classes_of_config(config: DeployConfig, m: RuntimeManifest, architecture: Seq<char>)
    requires
        describes_config(m, config, architecture),
    ensures
        (exists|c: Seq<char>| is_confidential_class(m.runtimes@, c)) <==> exists|i: int|
            0 <= i < base_shims(config).len() && confidential_shim(#[trigger] base_shims(config)[i]),
{
    let want = config_entries(config);
    let b = base_shims(config);
    let order = choose|order: Seq<usize>|
        crate::order::stably_sorted(crate::runtime_manifest::entry_keys(want), order) && entry_views(
            m.runtimes@,
        ) == crate::runtime_manifest::reorder_entries(want, order);
    let ns = config.shims_for_arch@.len();
    assert(entry_views(m.runtimes@).len() == order.len());
    assert(crate::runtime_manifest::entry_keys(want).len() == want.len());
    assert forall|i: int| 0 <= i < want.len() implies (#[trigger] want[i]).1 == b[i] by {
        if i < ns {
            assert(want[i] == crate::runtime_manifest::shim_entry(
                crate::whisperer::opt_view(config.multi_install_suffix),
                config.shims_for_arch@[i]@,
            ));
        } else {
            assert(want[i] == crate::runtime_manifest::custom_entry(config.custom_runtimes@[i - ns]));
        }
    }
    if exists|c: Seq<char>| is_confidential_class(m.runtimes@, c) {
        let c = choose|c: Seq<char>| is_confidential_class(m.runtimes@, c);
        let j = choose|j: int|
            0 <= j < m.runtimes@.len() && (#[trigger] m.runtimes@[j]).runtime_class@ == c && confidential_shim(
                m.runtimes@[j].shim@,
            );
        assert(entry_views(m.runtimes@)[j] == m.runtimes@[j]@);
        let k = order[j] as int;
        assert(order[j] < crate::runtime_manifest::entry_keys(want).len());
        assert(want[k].1 == b[k]);
        assert(confidential_shim(b[k]));
    }
    if exists|i: int| 0 <= i < b.len() && confidential_shim(#[trigger] b[i]) {
        let i = choose|i: int| 0 <= i < b.len() && confidential_shim(#[trigger] b[i]);
        lemma_stably_sorted_lists_every_index(crate::runtime_manifest::entry_keys(want), order, i);
        let j = choose|j: int| 0 <= j < order.len() && order[j] == i;
        assert(entry_views(m.runtimes@)[j] == m.runtimes@[j]@);
        assert(want[i].1 == b[i]);
        assert(is_confidential_class(m.runtimes@, m.runtimes@[j].runtime_class@));
    }
}

/// Whether the install directory has to be linked into the container to be
/// reached under its node path: not when the container sees it there
/// already, as when kata-deploy runs directly on a host.
pub fn needs_install_dir_link(node_path: &str, host_view: &str) -> (r: bool)
    ensures
        r == !same_path(node_path@, host_view@),
        node_path@ == host_view@ ==> !r,
{
    !paths_equal(node_path, host_view)
}

/// What the container has at the install directory's node path.
#[derive(Debug)]
pub enum InstallPathState {
    /// Nothing.
    Missing,
    /// A symbolic link to this target.
    LinkTo(String),
    /// Anything else: a directory or file of the container's own.
    Other,
}

/// How to reach the installation under its node path.
#[derive(Debug, Clone, Copy, PartialEq, Eq, Structural)]
pub enum LinkPlan {
    /// It is reachable already, through a link left in place by an earlier
    /// attempt; that link is not ours to remove.
    UseExisting,
    /// Create a link to the host view, and remove it afterwards.
    Create,
    /// Something else is there, which is not ours to replace.
    GiveUp,
}

/// How to reach the installation under its node path, given what is there.
pub fn install_dir_link_plan(host_view: &str, state: &InstallPathState) -> (r: LinkPlan)
    ensures
        r == match state {
            InstallPathState::Missing => LinkPlan::Create,
            InstallPathState::LinkTo(t) => if same_path(t@, host_view@) {
                LinkPlan::UseExisting
            } else {
                LinkPlan::GiveUp
            },
            InstallPathState::Other => LinkPlan::GiveUp,
        },
{
    match state {
        InstallPathState::Missing => LinkPlan::Create,
        InstallPathState::LinkTo(t) => if paths_equal(t.as_str(), host_view) {
            LinkPlan::UseExisting
        } else {
            LinkPlan::GiveUp
        },
        InstallPathState::Other => LinkPlan::GiveUp,
    }
}

/// What `flate2`'s `GzEncoder` makes of `input` at `Compression::best()`,
/// with its default header (no file name, no time stamp): the compressed
/// bytes, or `None` where the encoder reports an error.
pub uninterp spec fn gzip_best(input: Seq<u8>) -> Option<Seq<u8>>;

#[verifier::external_type_specification]
#[verifier::external_body]
pub struct ExIoError(std::io::Error);

/// Trusted: writes `input` through `flate2::write::GzEncoder::new(Vec::new(),
/// Compression::best())` and returns what `finish` gives back. Claims that
/// the outcome, success with the bytes or failure, is the one `gzip_best`
/// names for the input: the encoder starts afresh on each call, writes a
/// header with a fixed time stamp, writes into a `Vec` that never refuses
/// bytes, and its deflate backend decides each step from the bytes it is
/// given. Also claims no more than `isize::MAX` bytes, as for any `Vec`.
/// Which inputs the backend refuses is left to the name.
#[verifier::external_body]
fn gzip(input: &[u8]) -> (r: Result<Vec<u8>, std::io::Error>)
    ensures
        match gzip_best(input@) {
            Some(b) => (r matches Ok(v) && v@ == b && v@.len() <= isize::MAX),
            None => r is Err,
        },
{
    let mut encoder = flate2::write::GzEncoder::new(Vec::new(), flate2::Compression::best());
    match std::io::Write::write_all(&mut encoder, input) {
        Ok(()) => encoder.finish(),
        Err(e) => Err(e),
    }
}

/// The standard base64 digit of a six-bit value: `A`-`Z`, `a`-`z`, `0`-`9`,
/// `+`, `/`.
pub open spec fn b64_digit(v: int) -> char {
    if v < 26 {
        (65 + v) as char
    } else if v < 52 {
        (97 + v - 26) as char
    } else if v < 62 {
        (48 + v - 52) as char
    } else if v == 62 {
        '+'
    } else {
        '/'
    }
}

/// Standard base64 with `=` padding: each three bytes become four digits,
/// and a last group of one or two bytes is padded to four.
pub open spec fn base64_standard(s: Seq<u8>) -> Seq<char>
    decreases s.len(),
{
    if s.len() == 0 {
        Seq::empty()
    } else if s.len() == 1 {
        seq![b64_digit(s[0] as int / 4), b64_digit((s[0] % 4) * 16), '=', '=']
    } else if s.len() == 2 {
        seq![b64_digit(s[0] as int / 4), b64_digit((s[0] % 4) * 16 + s[1] / 16), b64_digit((s[1] % 16) * 4), '=']
    } else {
        seq![
            b64_digit(s[0] as int / 4),
            b64_digit((s[0] % 4) * 16 + s[1] / 16),
            b64_digit((s[1] % 16) * 4 + s[2] / 64),
            b64_digit(s[2] as int % 64),
        ] + base64_standard(s.skip(3))
    }
}

/// Trusted: `base64::engine::general_purpose::STANDARD.encode(input)`, the
/// standard alphabet with padding. Claims the result is `base64_standard`
/// of the input. The crate panics when the encoded length overflows `usize`,
/// which `requires` rules out.
#[verifier::external_body]
fn base64_encode(input: &[u8]) -> (r: String)
    requires
        input@.len() <= isize::MAX,
    ensures
        r@ == base64_standard(input@),
{
    base64::Engine::encode(&base64::engine::general_purpose::STANDARD, input)
}

/// Four digits for every three bytes, the last group padded.
pub proof fn lemma_base64_len(s: Seq<u8>)
    ensures
        base64_standard(s).len() == 4 * ((s.len() + 2) / 3),
    decreases s.len(),
{
    if s.len() >= 3 {
        lemma_base64_len(s.skip(3));
    }
}

/// The annotation value of a compressed command line.
pub fn encode_compressed(compressed: &[u8]) -> (r: String)
    requires
        compressed@.len() <= isize::MAX,
    ensures
        r@ == base64_standard(compressed@),
{
    base64_encode(compressed)
}

/// Whether a command line's UTF-8 bytes gzip without an encoder error.
pub open spec fn encodes(cmdline: Seq<char>) -> bool {
    gzip_best(encode_utf8(cmdline)) is Some
}

/// The annotation value of a command line: its UTF-8 bytes gzip'd, then
/// base64-encoded.
pub open spec fn encoded_cmdline(cmdline: Seq<char>) -> Seq<char> {
    base64_standard(gzip_best(encode_utf8(cmdline)).unwrap())
}

/// Why a command line could not be encoded.
#[derive(Debug)]
pub enum EncodeError {
    /// The gzip encoder failed.
    Compression,
}

impl EncodeError {
    pub fn message(&self) -> (r: String)
        ensures
            r@ == "Failed to compress a guest kernel command line"@,
    {
        String::from_str("Failed to compress a guest kernel command line")
    }
}

/// gzip, then base64. The same command line always encodes to the same
/// value, so repeat installs have nothing to patch.
pub fn encode_cmdline(cmdline: &str) -> (r: Result<String, EncodeError>)
    ensures
        r is Ok <==> encodes(cmdline@),
        r matches Ok(s) ==> s@ == encoded_cmdline(cmdline@),
{
    match gzip(cmdline.as_bytes()) {
        Ok(compressed) => Ok(encode_compressed(compressed.as_slice())),
        Err(_) => Err(EncodeError::Compression),
    }
}

/// Encoding is a function of the command line alone.
pub proof fn lemma_encoding_is_deterministic(a: Seq<char>, b: Seq<char>)
    requires
        a == b,
    ensures
        encodes(a) == encodes(b),
        encoded_cmdline(a) == encoded_cmdline(b),
{
}

/// What is published for the described classes `classes` of a report: for
/// each confidential class, the encoding of the last command line the
/// report gives it.
pub open spec fn published(classes: Seq<RuntimeClassOutput>, confidential: Seq<Seq<char>>) -> Map<
    Seq<char>,
    Seq<char>,
>
    decreases classes.len(),
{
    if classes.len() == 0 {
        Map::empty()
    } else {
        let m = published(classes.drop_last(), confidential);
        let c = classes.last();
        if confidential.contains(c.runtime_class@) {
            m.insert(c.runtime_class@, encoded_cmdline(c.cmdline@))
        } else {
            m
        }
    }
}

/// Some confidential class among `classes` has a command line that does not
/// encode.
pub open spec fn some_fails_to_encode(classes: Seq<RuntimeClassOutput>, confidential: Seq<Seq<char>>) -> bool {
    exists|i: int|
        0 <= i < classes.len() && confidential.contains((#[trigger] classes[i]).runtime_class@) && !encodes(
            classes[i].cmdline@,
        )
}

/// The encoded command lines of the confidential classes a whisperer report
/// describes, keyed by RuntimeClass in name order. `None` when the report is
/// of a schema newer than this code reads; an error when a command line could
/// not be encoded.
pub fn cmdlines_from_report(confidential: &Vec<String>, report: &Report) -> (r: Result<
    Option<Vec<(String, String)>>,
    EncodeError,
>)
    ensures
        r matches Ok(None) <==> report.version > SUPPORTED_REPORT_VERSION,
        r matches Ok(Some(m)) ==> holds_map(
            pair_views(m@),
            published(report.runtime_classes@, names(confidential@)),
        ),
        r is Err <==> report.version <= SUPPORTED_REPORT_VERSION && some_fails_to_encode(
            report.runtime_classes@,
            names(confidential@),
        ),
{
    if report.version > SUPPORTED_REPORT_VERSION {
        return Ok(None);
    }
    let ghost conf = names(confidential@);
    let ghost classes = report.runtime_classes@;
    let mut out: Vec<(String, String)> = Vec::new();
    let mut i: usize = 0;
    assert(pair_keys(pair_views(out@)) =~= Seq::<Seq<char>>::empty());
    while i < report.runtime_classes.len()
        invariant
            conf == names(confidential@),
            classes == report.runtime_classes@,
            report.version <= SUPPORTED_REPORT_VERSION,
            i <= classes.len(),
            holds_map(pair_views(out@), published(classes.take(i as int), conf)),
            forall|j: int|
                0 <= j < i && conf.contains((#[trigger] classes[j]).runtime_class@) ==> encodes(classes[j].cmdline@),
        decreases classes.len() - i,
    {
        let c = &report.runtime_classes[i];
        assert(classes.take(i + 1).drop_last() =~= classes.take(i as int));
        assert(classes.take(i + 1).last() == *c);
        if contains_name(confidential, c.runtime_class.as_str()) {
            let encoded = match encode_cmdline(c.cmdline.as_str()) {
                Ok(e) => e,
                Err(e) => {
                    assert(conf.contains(classes[i as int].runtime_class@));
                    return Err(e);
                },
            };
            let ghost m = published(classes.take(i as int), conf);
            insert_pair(&mut out, c.runtime_class.clone(), encoded);
            assert(holds_map(pair_views(out@), m.insert(c.runtime_class@, encoded_cmdline(c.cmdline@))));
        }
        i = i + 1;
    }
    assert(classes.take(classes.len() as int) =~= classes);
    assert(!some_fails_to_encode(classes, conf));
    Ok(Some(out))
}

/// Whether `set` holds `name`.
pub fn contains_name(set: &Vec<String>, name: &str) -> (r: bool)
    ensures
        r == names(set@).contains(name@),
{
    let mut i: usize = 0;
    while i < set.len()
        invariant
            i <= set@.len(),
            forall|j: int| 0 <= j < i ==> (#[trigger] set@[j])@ != name@,
        decreases set@.len() - i,
    {
        if str_eq(set[i].as_str(), name) {
            assert(names(set@)[i as int] == name@);
            return true;
        }
        i = i + 1;
    }
    assert(!names(set@).contains(name@)) by {
        if names(set@).contains(name@) {
            let j = choose|j: int| 0 <= j < set@.len() && names(set@)[j] == name@;
            assert(set@[j]@ == name@);
        }
    }
    false
}

} // verus!
