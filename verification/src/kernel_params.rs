//! Guest kernel parameters: an ordered list of `key[=value]` entries that is
//! parsed from and rendered to a space-separated command line.

use vstd::prelude::*;
use vstd::string::*;
use crate::verity::{verity_device_table, verity_setup, DM_MOD_CREATE, VERITY_ROOT_DEVICE};
use crate::text::{lemma_first_index_of, find_char, first_index_of, owned, split_char, split_on, str_eq};

verus! {

/// A parameter as the specifications see it: its key and its value.
pub type ParamView = (Seq<char>, Seq<char>);

/// Port the agent sends its logs to over vsock when debugging is on.
pub const VSOCK_LOGS_PORT: &'static str = "1025";

pub const VM_ROOTFS_DRIVER_BLK: &'static str = "virtio-blk-pci";
pub const VM_ROOTFS_DRIVER_BLK_CCW: &'static str = "virtio-blk-ccw";
pub const VM_ROOTFS_DRIVER_MMIO: &'static str = "virtio-blk-mmio";
pub const VM_ROOTFS_DRIVER_PMEM: &'static str = "virtio-pmem";
pub const VM_ROOTFS_ROOT_BLK: &'static str = "/dev/vda1";
pub const VM_ROOTFS_ROOT_PMEM: &'static str = "/dev/pmem0p1";
pub const VM_ROOTFS_FILESYSTEM_EXT4: &'static str = "ext4";
pub const VM_ROOTFS_FILESYSTEM_XFS: &'static str = "xfs";
pub const VM_ROOTFS_FILESYSTEM_EROFS: &'static str = "erofs";

/// One `key[=value]` kernel parameter.
#[derive(Debug, Clone)]
pub struct Param {
    pub key: String,
    pub value: String,
}

impl View for Param {
    type V = ParamView;

    open spec fn view(&self) -> ParamView {
        (self.key@, self.value@)
    }
}

impl Param {
    pub fn new(key: &str, value: &str) -> (p: Param)
        ensures
            p@ == (key@, value@),
    {
        Param { key: owned(key), value: owned(value) }
    }

    pub fn duplicate(&self) -> (p: Param)
        ensures
            p@ == self@,
    {
        Param { key: self.key.clone(), value: self.value.clone() }
    }
}

/// An ordered list of kernel parameters.
#[derive(Debug)]
pub struct KernelParams {
    params: Vec<Param>,
}

impl View for KernelParams {
    type V = Seq<ParamView>;

    closed spec fn view(&self) -> Seq<ParamView> {
        self.params@.map_values(|p: Param| p@)
    }
}

/// A token split at its first `=`: the part before is the key, the part
/// after the value; a token without `=` is a key with an empty value.
pub open spec fn parse_token(t: Seq<char>) -> ParamView {
    match first_index_of(t, '=') {
        Some(i) => (t.take(i), t.skip(i + 1)),
        None => (t, Seq::<char>::empty()),
    }
}

/// The non-empty pieces, in order.
pub open spec fn nonempty_pieces(ps: Seq<Seq<char>>) -> Seq<Seq<char>>
    decreases ps.len(),
{
    if ps.len() == 0 {
        ps
    } else {
        let rest = nonempty_pieces(ps.drop_last());
        if ps.last().len() == 0 {
            rest
        } else {
            rest.push(ps.last())
        }
    }
}

/// The `key=value` fields of a string: its non-empty pieces between
/// occurrences of `sep`, each split at its first `=`.
pub open spec fn parse_separated(s: Seq<char>, sep: char) -> Seq<ParamView> {
    nonempty_pieces(split_on(s, sep)).map_values(|t: Seq<char>| parse_token(t))
}

/// The parameters a command line string holds: its space-separated
/// non-empty tokens, each split at its first `=`.
pub open spec fn parse_params(s: Seq<char>) -> Seq<ParamView> {
    parse_separated(s, ' ')
}

/// How one parameter is written: `key` alone when the value is empty,
/// `key=value` otherwise.
pub open spec fn param_text(p: ParamView) -> Seq<char> {
    if p.1.len() == 0 {
        p.0
    } else {
        p.0 + seq!['='] + p.1
    }
}

/// The parameters written out, separated by single spaces.
pub open spec fn join_params(ps: Seq<ParamView>) -> Seq<char>
    decreases ps.len(),
{
    if ps.len() == 0 {
        Seq::<char>::empty()
    } else if ps.len() == 1 {
        param_text(ps[0])
    } else {
        join_params(ps.drop_last()) + seq![' '] + param_text(ps.last())
    }
}

/// Why a parameter list cannot be written out.
#[derive(Debug, Clone, Copy, PartialEq, Eq, Structural)]
pub enum ParamError {
    /// A parameter has neither key nor value.
    EmptyKeyAndValue,
    /// A parameter has a value but no key.
    EmptyKey,
}

impl ParamError {
    /// The error as a person reads it.
    pub open spec fn describe(self) -> Seq<char> {
        match self {
            ParamError::EmptyKeyAndValue => "Empty key and value"@,
            ParamError::EmptyKey => "Empty key"@,
        }
    }

    pub fn message(&self) -> (r: String)
        ensures
            r@ == self.describe(),
    {
        match self {
            ParamError::EmptyKeyAndValue => owned("Empty key and value"),
            ParamError::EmptyKey => owned("Empty key"),
        }
    }
}

/// The error a parameter without key is reported with.
pub open spec fn keyless_error(p: ParamView) -> ParamError {
    if p.1.len() == 0 {
        ParamError::EmptyKeyAndValue
    } else {
        ParamError::EmptyKey
    }
}

/// Every parameter has a key.
pub open spec fn all_keyed(ps: Seq<ParamView>) -> bool {
    forall|i: int| 0 <= i < ps.len() ==> #[trigger] ps[i].0.len() > 0
}

/// `e` is the error of the first parameter without a key.
pub open spec fn first_keyless_error(ps: Seq<ParamView>, e: ParamError) -> bool {
    exists|i: int|
        0 <= i < ps.len() && ps[i].0.len() == 0 && (forall|j: int| 0 <= j < i ==> #[trigger] ps[j].0.len() > 0)
            && e == keyless_error(#[trigger] ps[i])
}

/// What rendering a parameter list gives: the command line when every
/// parameter has a key, otherwise the error of the first one without.
pub open spec fn render_ok(ps: Seq<ParamView>, r: Result<String, ParamError>) -> bool {
    match r {
        Ok(s) => all_keyed(ps) && s@ == join_params(ps),
        Err(e) => !all_keyed(ps) && first_keyless_error(ps, e),
    }
}

/// The parameters without any whose key is `key`, order kept.
pub open spec fn without_key(ps: Seq<ParamView>, key: Seq<char>) -> Seq<ParamView>
    decreases ps.len(),
{
    if ps.len() == 0 {
        ps
    } else {
        let rest = without_key(ps.drop_last(), key);
        if ps.last().0 == key {
            rest
        } else {
            rest.push(ps.last())
        }
    }
}

/// The parameters every guest starts from; debugging adds the agent's
/// log port.
pub open spec fn default_params(debug: bool) -> Seq<ParamView> {
    let base = seq![
        ("reboot"@, "k"@),
        ("panic"@, "1"@),
        ("systemd.unit"@, "kata-containers.target"@),
        ("systemd.mask"@, "systemd-networkd.service"@),
        ("systemd.mask"@, "systemd-networkd.socket"@),
    ];
    if debug {
        base.push(("agent.log_vport"@, VSOCK_LOGS_PORT@))
    } else {
        base
    }
}

/// Why the root filesystem parameters cannot be built, as the
/// specifications see it.
pub enum RootfsFailure {
    Driver(Seq<char>),
    FsType(Seq<char>),
    Verity(Seq<char>),
}

/// Why the root filesystem parameters cannot be built.
#[derive(Debug)]
pub enum RootfsError {
    /// The rootfs block driver is not one a guest can boot from.
    UnsupportedDriver(String),
    /// The driver cannot carry a root filesystem of this type.
    UnsupportedType(String),
    /// The dm-verity option lacks this field, or it holds no usable value.
    InvalidVerityParam(String),
}

impl View for RootfsError {
    type V = RootfsFailure;

    open spec fn view(&self) -> RootfsFailure {
        match self {
            RootfsError::UnsupportedDriver(d) => RootfsFailure::Driver(d@),
            RootfsError::UnsupportedType(t) => RootfsFailure::FsType(t@),
            RootfsError::InvalidVerityParam(k) => RootfsFailure::Verity(k@),
        }
    }
}

impl RootfsError {
    /// The error as a person reads it.
    pub open spec fn describe(self) -> Seq<char> {
        match self {
            RootfsError::UnsupportedDriver(d) => "Unsupported rootfs driver "@ + d@,
            RootfsError::UnsupportedType(t) => "Unsupported rootfs type "@ + t@,
            RootfsError::InvalidVerityParam(k) => "Invalid kernel verity param "@ + k@,
        }
    }

    pub fn message(&self) -> (r: String)
        ensures
            r@ == self.describe(),
    {
        match self {
            RootfsError::UnsupportedDriver(d) => {
                let mut m = owned("Unsupported rootfs driver ");
                m.append(d.as_str());
                m
            },
            RootfsError::UnsupportedType(t) => {
                let mut m = owned("Unsupported rootfs type ");
                m.append(t.as_str());
                m
            },
            RootfsError::InvalidVerityParam(k) => {
                let mut m = owned("Invalid kernel verity param ");
                m.append(k.as_str());
                m
            },
        }
    }
}

/// The device the root filesystem is found on, per rootfs driver.
pub open spec fn root_device(driver: Seq<char>) -> Option<Seq<char>> {
    if driver == VM_ROOTFS_DRIVER_PMEM@ {
        Some(VM_ROOTFS_ROOT_PMEM@)
    } else if driver == VM_ROOTFS_DRIVER_BLK@ || driver == VM_ROOTFS_DRIVER_BLK_CCW@ || driver
        == VM_ROOTFS_DRIVER_MMIO@ {
        Some(VM_ROOTFS_ROOT_BLK@)
    } else {
        None
    }
}

/// The mount flags of the root filesystem, per driver and filesystem type.
pub open spec fn root_flags(driver: Seq<char>, fs_type: Seq<char>, use_dax: bool) -> Option<
    Seq<char>,
> {
    if driver == VM_ROOTFS_DRIVER_PMEM@ {
        if fs_type == VM_ROOTFS_FILESYSTEM_EXT4@ {
            if use_dax {
                Some("dax,data=ordered,errors=remount-ro ro"@)
            } else {
                Some("data=ordered,errors=remount-ro ro"@)
            }
        } else if fs_type == VM_ROOTFS_FILESYSTEM_XFS@ {
            if use_dax {
                Some("dax ro"@)
            } else {
                Some("ro"@)
            }
        } else {
            None
        }
    } else if fs_type == VM_ROOTFS_FILESYSTEM_EXT4@ {
        Some("data=ordered,errors=remount-ro ro"@)
    } else if fs_type == VM_ROOTFS_FILESYSTEM_XFS@ || fs_type == VM_ROOTFS_FILESYSTEM_EROFS@ {
        Some("ro"@)
    } else {
        None
    }
}

/// The parameters that boot a guest from its root filesystem image. With
/// dm-verity asked for, the root is the verified device the
/// `dm-mod.create` table sets up over the image's device.
pub open spec fn rootfs_params(
    verity: Seq<char>,
    driver: Seq<char>,
    fs_type: Seq<char>,
    use_dax: bool,
) -> Result<Seq<ParamView>, RootfsFailure> {
    match root_device(driver) {
        None => Err(RootfsFailure::Driver(driver)),
        Some(dev) => match root_flags(driver, fs_type, use_dax) {
            None => Err(RootfsFailure::FsType(fs_type)),
            Some(flags) => if verity.len() > 0 {
                match verity_setup(verity, dev) {
                    Err(k) => Err(RootfsFailure::Verity(k)),
                    Ok(table) => Ok(
                        seq![
                            ("root"@, VERITY_ROOT_DEVICE@),
                            ("rootflags"@, flags),
                            ("rootfstype"@, fs_type),
                            (DM_MOD_CREATE@, table),
                        ],
                    ),
                }
            } else {
                Ok(seq![("root"@, dev), ("rootflags"@, flags), ("rootfstype"@, fs_type)])
            },
        },
    }
}

proof fn lemma_nonempty_pieces_step(ps: Seq<Seq<char>>, p: Seq<char>)
    ensures
        nonempty_pieces(ps.push(p)) == if p.len() == 0 {
            nonempty_pieces(ps)
        } else {
            nonempty_pieces(ps).push(p)
        },
{
    assert(ps.push(p).drop_last() =~= ps);
}

proof fn lemma_without_key_step(ps: Seq<ParamView>, p: ParamView, key: Seq<char>)
    ensures
        without_key(ps.push(p), key) == if p.0 == key {
            without_key(ps, key)
        } else {
            without_key(ps, key).push(p)
        },
{
    assert(ps.push(p).drop_last() =~= ps);
}

/// Removing a key leaves no parameter with that key, keeps every other
/// parameter, and adds none.
pub proof fn lemma_without_key_contents(ps: Seq<ParamView>, key: Seq<char>)
    ensures
        forall|i: int| 0 <= i < without_key(ps, key).len() ==> #[trigger] without_key(ps, key)[i].0 != key,
        forall|p: ParamView| ps.contains(p) && p.0 != key ==> #[trigger] without_key(ps, key).contains(p),
        forall|p: ParamView| #[trigger] without_key(ps, key).contains(p) ==> ps.contains(p),
    decreases ps.len(),
{
    if ps.len() > 0 {
        let init = ps.drop_last();
        lemma_without_key_contents(init, key);
        let rest = without_key(init, key);
        assert forall|p: ParamView| ps.contains(p) && p.0 != key implies #[trigger] without_key(ps, key).contains(p) by {
            let i = choose|i: int| 0 <= i < ps.len() && ps[i] == p;
            if i < ps.len() - 1 {
                assert(init[i] == p);
                assert(init.contains(p));
                assert(without_key(init, key).contains(p));
                let j = choose|j: int| 0 <= j < rest.len() && rest[j] == p;
                if ps.last().0 != key {
                    assert(rest.push(ps.last())[j] == p);
                } else {
                    assert(without_key(ps, key) == rest);
                }
            } else {
                assert(rest.push(ps.last())[rest.len() as int] == p);
            }
        }
        assert forall|p: ParamView| #[trigger] without_key(ps, key).contains(p) implies ps.contains(p) by {
            let r = without_key(ps, key);
            let j = choose|j: int| 0 <= j < r.len() && r[j] == p;
            if j < rest.len() {
                assert(rest[j] == p);
                assert(rest.contains(p));
                let i = choose|i: int| 0 <= i < init.len() && init[i] == p;
                assert(ps[i] == p);
            } else {
                assert(ps[ps.len() - 1] == p);
            }
        }
    }
}

/// The character `c` occurs nowhere in `s`.
pub open spec fn lacks(s: Seq<char>, c: char) -> bool {
    forall|i: int| 0 <= i < s.len() ==> s[i] != c
}

/// A parameter that reads back as itself once written: a key without
/// spaces or `=`, and a value without spaces.
pub open spec fn writable(p: ParamView) -> bool {
    p.0.len() > 0 && lacks(p.0, ' ') && lacks(p.0, '=') && lacks(p.1, ' ')
}

pub(crate) proof fn lemma_split_single(b: Seq<char>, sep: char)
    requires
        lacks(b, sep),
    ensures
        split_on(b, sep) == seq![b],
    decreases b.len(),
{
    if b.len() > 0 {
        assert forall|i: int| 0 <= i < b.drop_last().len() implies b.drop_last()[i] != sep by {
            assert(b.drop_last()[i] == b[i]);
        }
        lemma_split_single(b.drop_last(), sep);
        assert(b.last() != sep);
        assert(b.drop_last().push(b.last()) =~= b);
        assert(seq![b.drop_last()].update(0, b.drop_last().push(b.last())) =~= seq![b]);
    } else {
        assert(b =~= Seq::<char>::empty());
    }
}

proof fn lemma_split_after_sep(x: Seq<char>, b: Seq<char>, sep: char)
    requires
        lacks(b, sep),
    ensures
        split_on(x + seq![sep] + b, sep) == split_on(x, sep).push(b),
    decreases b.len(),
{
    let s = x + seq![sep] + b;
    if b.len() == 0 {
        assert(s.drop_last() =~= x);
        assert(b =~= Seq::<char>::empty());
    } else {
        assert forall|i: int| 0 <= i < b.drop_last().len() implies b.drop_last()[i] != sep by {
            assert(b.drop_last()[i] == b[i]);
        }
        lemma_split_after_sep(x, b.drop_last(), sep);
        assert(b.last() != sep);
        assert(b.drop_last().push(b.last()) =~= b);
        assert(s.drop_last() =~= x + seq![sep] + b.drop_last());
        assert(s.last() == b.last());
        let pieces = split_on(x, sep).push(b.drop_last());
        assert(pieces.update(pieces.len() - 1, b.drop_last().push(b.last())) =~= split_on(x, sep).push(b));
    }
}

pub(crate) proof fn lemma_param_text_reads_back(p: ParamView)
    requires
        writable(p),
    ensures
        lacks(param_text(p), ' '),
        param_text(p).len() > 0,
        parse_token(param_text(p)) == p,
{
    let t = param_text(p);
    if p.1.len() == 0 {
        assert(!(exists|i: int| 0 <= i < t.len() && t[i] == '='));
        assert(p.1 =~= Seq::<char>::empty());
    } else {
        let k = p.0.len() as int;
        assert(t[k] == '=');
        assert forall|j: int| 0 <= j < k implies t[j] != '=' by {
            assert(t[j] == p.0[j]);
        }
        lemma_first_index_of(t, '=', k);
        assert(t.take(k) =~= p.0);
        assert(t.skip(k + 1) =~= p.1);
        assert forall|i: int| 0 <= i < t.len() implies t[i] != ' ' by {
            if i < k {
                assert(t[i] == p.0[i]);
            } else if i > k {
                assert(t[i] == p.1[i - k - 1]);
            }
        }
    }
}

proof fn lemma_split_join(ps: Seq<ParamView>)
    requires
        ps.len() > 0,
        forall|i: int| 0 <= i < ps.len() ==> writable(#[trigger] ps[i]),
    ensures
        split_on(join_params(ps), ' ') == ps.map_values(|p: ParamView| param_text(p)),
    decreases ps.len(),
{
    lemma_param_text_reads_back(ps.last());
    if ps.len() == 1 {
        lemma_split_single(param_text(ps[0]), ' ');
        assert(ps.map_values(|p: ParamView| param_text(p)) =~= seq![param_text(ps[0])]);
    } else {
        let init = ps.drop_last();
        assert forall|i: int| 0 <= i < init.len() implies writable(#[trigger] init[i]) by {
            assert(init[i] == ps[i]);
        }
        lemma_split_join(init);
        lemma_split_after_sep(join_params(init), param_text(ps.last()), ' ');
        assert(ps.map_values(|p: ParamView| param_text(p)) =~= init.map_values(|p: ParamView| param_text(p)).push(
            param_text(ps.last()),
        ));
    }
}

proof fn lemma_nonempty_pieces_all(ts: Seq<Seq<char>>)
    requires
        forall|i: int| 0 <= i < ts.len() ==> (#[trigger] ts[i]).len() > 0,
    ensures
        nonempty_pieces(ts) == ts,
    decreases ts.len(),
{
    if ts.len() > 0 {
        let init = ts.drop_last();
        assert forall|i: int| 0 <= i < init.len() implies (#[trigger] init[i]).len() > 0 by {
            assert(init[i] == ts[i]);
        }
        lemma_nonempty_pieces_all(init);
        assert(init.push(ts.last()) =~= ts);
    }
}

/// A command line written out reads back as the parameters it was written
/// from, when no key holds a space or `=` and no value a space: reading a
/// string `to_string` produced with `from_string` gives the same list.
pub proof fn lemma_written_params_read_back(ps: Seq<ParamView>)
    requires
        forall|i: int| 0 <= i < ps.len() ==> writable(#[trigger] ps[i]),
    ensures
        parse_params(join_params(ps)) == ps,
{
    if ps.len() == 0 {
        let sp = split_on(join_params(ps), ' ');
        assert(join_params(ps) =~= Seq::<char>::empty());
        assert(sp == seq![Seq::<char>::empty()]);
        assert(sp.drop_last() =~= Seq::<Seq<char>>::empty());
        assert(nonempty_pieces(sp.drop_last()) =~= Seq::<Seq<char>>::empty());
        assert(nonempty_pieces(sp) =~= Seq::<Seq<char>>::empty());
        assert(parse_params(join_params(ps)) =~= ps);
    } else {
        lemma_split_join(ps);
        let texts = ps.map_values(|p: ParamView| param_text(p));
        assert forall|i: int| 0 <= i < texts.len() implies (#[trigger] texts[i]).len() > 0 by {
            lemma_param_text_reads_back(ps[i]);
        }
        lemma_nonempty_pieces_all(texts);
        let parsed = texts.map_values(|t: Seq<char>| parse_token(t));
        assert forall|i: int| 0 <= i < ps.len() implies #[trigger] parsed[i] == ps[i] by {
            lemma_param_text_reads_back(ps[i]);
        }
        assert(parsed =~= ps);
    }
}

/// The parameter a single token stands for.
fn parse_param_token(t: &str) -> (p: Param)
    ensures
        p@ == parse_token(t@),
{
    let n = t.unicode_len();
    match find_char(t, '=') {
        Some(i) => {
            let key = t.substring_char(0, i);
            let value = t.substring_char(i + 1, n);
            assert(key@ =~= t@.take(i as int));
            assert(value@ =~= t@.skip(i + 1));
            Param { key: owned(key), value: owned(value) }
        },
        None => Param { key: owned(t), value: String::new() },
    }
}

impl KernelParams {
    pub open spec fn params_view(v: Seq<Param>) -> Seq<ParamView> {
        v.map_values(|p: Param| p@)
    }

    /// The parameters every guest boots with.
    pub fn new(debug: bool) -> (r: KernelParams)
        ensures
            r@ == default_params(debug),
    {
        let mut params: Vec<Param> = Vec::new();
        params.push(Param::new("reboot", "k"));
        params.push(Param::new("panic", "1"));
        params.push(Param::new("systemd.unit", "kata-containers.target"));
        params.push(Param::new("systemd.mask", "systemd-networkd.service"));
        params.push(Param::new("systemd.mask", "systemd-networkd.socket"));
        if debug {
            params.push(Param::new("agent.log_vport", VSOCK_LOGS_PORT));
        }
        let r = KernelParams { params };
        assert(r@ =~= default_params(debug));
        r
    }

    /// A list built from the given parameters.
    pub fn from_params(params: Vec<Param>) -> (r: KernelParams)
        ensures
            r@ == Self::params_view(params@),
    {
        KernelParams { params }
    }

    /// The parameters in a space-separated command line.
    pub fn from_string(params_string: &str) -> (r: KernelParams)
        ensures
            r@ == parse_params(params_string@),
    {
        let params = parse_separated_fields(params_string, ' ');
        KernelParams { params }
    }
}

/// The `key=value` fields of `s` between occurrences of `sep`.
pub fn parse_separated_fields(s: &str, sep: char) -> (r: Vec<Param>)
    ensures
        KernelParams::params_view(r@) == parse_separated(s@, sep),
{
    let pieces = split_char(s, sep);
    let ghost pv = pieces@.map_values(|p: String| p@);
    let mut params: Vec<Param> = Vec::new();
    let mut i: usize = 0;
    while i < pieces.len()
        invariant
            pv == pieces@.map_values(|p: String| p@),
            pv == split_on(s@, sep),
            i <= pieces@.len(),
            KernelParams::params_view(params@) == nonempty_pieces(pv.take(i as int)).map_values(
                |t: Seq<char>| parse_token(t),
            ),
        decreases pieces@.len() - i,
    {
        let ghost before = KernelParams::params_view(params@);
        proof {
            assert(pv.take(i + 1) =~= pv.take(i as int).push(pv[i as int]));
            lemma_nonempty_pieces_step(pv.take(i as int), pv[i as int]);
        }
        let piece = pieces[i].as_str();
        if piece.unicode_len() > 0 {
            let p = parse_param_token(piece);
            params.push(p);
            assert(KernelParams::params_view(params@) =~= before.push(parse_token(pv[i as int])));
            assert(nonempty_pieces(pv.take(i as int)).push(pv[i as int]).map_values(
                |t: Seq<char>| parse_token(t),
            ) =~= nonempty_pieces(pv.take(i as int)).map_values(|t: Seq<char>| parse_token(t)).push(
                parse_token(pv[i as int]),
            ));
        }
        i = i + 1;
    }
    assert(pv.take(pieces@.len() as int) =~= pv);
    params
}

impl KernelParams {

    /// Moves every parameter of `other` to the end of this list.
    pub fn append(&mut self, other: &mut KernelParams)
        ensures
            final(self)@ == old(self)@ + old(other)@,
            final(other)@ == Seq::<ParamView>::empty(),
    {
        let ghost a = self.params@;
        let ghost b = other.params@;
        self.params.append(&mut other.params);
        assert((a + b).map_values(|p: Param| p@) =~= a.map_values(|p: Param| p@) + b.map_values(
            |p: Param| p@,
        ));
        assert(other@ =~= Seq::<ParamView>::empty());
    }

    /// Drops every parameter whose key is `key`, keeping the order of the rest.
    pub fn remove_all_by_key(&mut self, key: &str)
        ensures
            final(self)@ == without_key(old(self)@, key@),
    {
        let mut old_params: Vec<Param> = Vec::new();
        std::mem::swap(&mut old_params, &mut self.params);
        let ghost ov = Self::params_view(old_params@);
        let mut kept: Vec<Param> = Vec::new();
        let mut i: usize = 0;
        while i < old_params.len()
            invariant
                ov == Self::params_view(old_params@),
                i <= old_params@.len(),
                Self::params_view(kept@) == without_key(ov.take(i as int), key@),
            decreases old_params@.len() - i,
        {
            let ghost before = Self::params_view(kept@);
            proof {
                assert(ov.take(i + 1) =~= ov.take(i as int).push(ov[i as int]));
                lemma_without_key_step(ov.take(i as int), ov[i as int], key@);
            }
            if !str_eq(old_params[i].key.as_str(), key) {
                let p = old_params[i].duplicate();
                kept.push(p);
                assert(Self::params_view(kept@) =~= before.push(ov[i as int]));
            }
            i = i + 1;
        }
        assert(ov.take(old_params@.len() as int) =~= ov);
        self.params = kept;
    }

    /// The parameters written out as a command line.
    pub fn to_string(&self) -> (r: Result<String, ParamError>)
        ensures
            render_ok(self@, r),
    {
        let ghost ps = self@;
        let mut out = String::new();
        let mut i: usize = 0;
        while i < self.params.len()
            invariant
                ps == self@,
                i <= ps.len(),
                all_keyed(ps.take(i as int)),
                out@ == join_params(ps.take(i as int)),
            decreases ps.len() - i,
        {
            proof {
                reveal_strlit("=");
                reveal_strlit(" ");
            }
            let p = &self.params[i];
            assert(ps[i as int] == p@);
            if p.key.as_str().unicode_len() == 0 {
                let e = if p.value.as_str().unicode_len() == 0 {
                    ParamError::EmptyKeyAndValue
                } else {
                    ParamError::EmptyKey
                };
                assert(ps[i as int].0.len() == 0);
                assert(!all_keyed(ps));
                assert(first_keyless_error(ps, e)) by {
                    assert(forall|j: int| 0 <= j < i ==> ps.take(i as int)[j] == ps[j]);
                }
                return Err(e);
            }
            let ghost prev = out@;
            assert(ps.take(i + 1).drop_last() =~= ps.take(i as int));
            assert(ps.take(i + 1).len() == i + 1);
            assert(ps.take(i + 1).last() == p@);
            assert(i == 0 ==> ps.take(i + 1)[0] == p@);
            if i > 0 {
                out.append(" ");
            }
            out.append(p.key.as_str());
            if p.value.as_str().unicode_len() > 0 {
                out.append("=");
                out.append(p.value.as_str());
            }
            assert(out@ =~= join_params(ps.take(i + 1)));
            assert(all_keyed(ps.take(i + 1))) by {
                assert forall|j: int| 0 <= j < i + 1 implies #[trigger] ps.take(i + 1)[j].0.len() > 0 by {
                    if j < i {
                        assert(ps.take(i + 1)[j] == ps.take(i as int)[j]);
                    }
                }
            }
            i = i + 1;
        }
        assert(ps.take(ps.len() as int) =~= ps);
        Ok(out)
    }
}

/// The parameters that boot a guest from its root filesystem image.
pub fn new_rootfs_kernel_params(
    verity_params: &str,
    rootfs_driver: &str,
    rootfs_type: &str,
    use_dax: bool,
) -> (r: Result<KernelParams, RootfsError>)
    ensures
        match r {
            Ok(p) => rootfs_params(verity_params@, rootfs_driver@, rootfs_type@, use_dax) == Ok::<
                Seq<ParamView>,
                RootfsFailure,
            >(p@),
            Err(e) => rootfs_params(verity_params@, rootfs_driver@, rootfs_type@, use_dax) == Err::<
                Seq<ParamView>,
                RootfsFailure,
            >(e@),
        },
{
    let is_pmem = str_eq(rootfs_driver, VM_ROOTFS_DRIVER_PMEM);
    let is_blk = str_eq(rootfs_driver, VM_ROOTFS_DRIVER_BLK) || str_eq(
        rootfs_driver,
        VM_ROOTFS_DRIVER_BLK_CCW,
    ) || str_eq(rootfs_driver, VM_ROOTFS_DRIVER_MMIO);
    if !is_pmem && !is_blk {
        return Err(RootfsError::UnsupportedDriver(owned(rootfs_driver)));
    }
    let device = if is_pmem {
        VM_ROOTFS_ROOT_PMEM
    } else {
        VM_ROOTFS_ROOT_BLK
    };
    let is_ext4 = str_eq(rootfs_type, VM_ROOTFS_FILESYSTEM_EXT4);
    let is_xfs = str_eq(rootfs_type, VM_ROOTFS_FILESYSTEM_XFS);
    let is_erofs = str_eq(rootfs_type, VM_ROOTFS_FILESYSTEM_EROFS);
    let flags = if is_pmem {
        if is_ext4 {
            if use_dax {
                "dax,data=ordered,errors=remount-ro ro"
            } else {
                "data=ordered,errors=remount-ro ro"
            }
        } else if is_xfs {
            if use_dax {
                "dax ro"
            } else {
                "ro"
            }
        } else {
            return Err(RootfsError::UnsupportedType(owned(rootfs_type)));
        }
    } else if is_ext4 {
        "data=ordered,errors=remount-ro ro"
    } else if is_xfs || is_erofs {
        "ro"
    } else {
        return Err(RootfsError::UnsupportedType(owned(rootfs_type)));
    };
    if verity_params.unicode_len() > 0 {
        let table = match verity_device_table(verity_params, device) {
            Ok(t) => t,
            Err(k) => return Err(RootfsError::InvalidVerityParam(k)),
        };
        let mut params: Vec<Param> = Vec::new();
        params.push(Param::new("root", VERITY_ROOT_DEVICE));
        params.push(Param::new("rootflags", flags));
        params.push(Param::new("rootfstype", rootfs_type));
        params.push(Param::new(DM_MOD_CREATE, table.as_str()));
        let r = KernelParams::from_params(params);
        assert(r@ =~= seq![
            ("root"@, VERITY_ROOT_DEVICE@),
            ("rootflags"@, flags@),
            ("rootfstype"@, rootfs_type@),
            (DM_MOD_CREATE@, table@),
        ]);
        return Ok(r);
    }
    let mut params: Vec<Param> = Vec::new();
    params.push(Param::new("root", device));
    params.push(Param::new("rootflags", flags));
    params.push(Param::new("rootfstype", rootfs_type));
    let r = KernelParams::from_params(params);
    assert(r@ =~= seq![("root"@, device@), ("rootflags"@, flags@), ("rootfstype"@, rootfs_type@)]);
    Ok(r)
}

} // verus!
