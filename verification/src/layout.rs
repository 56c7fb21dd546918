//! Discovery of an installation's RuntimeClasses from its directory layout,
//! for installations that carry no manifest.

use vstd::prelude::*;
use vstd::string::*;
use crate::order::{stable_sort_indices, stably_sorted};
use crate::paths::{paths_equal, same_path};
use crate::text::{ends_with, has_prefix, has_suffix, owned, split_char, split_on, starts_with};
use crate::whisperer::{
    runtime_class_of, shim_of, target_for_config, target_views, Target, TargetView, WhispererError,
};

verus! {

/// Directory under the defaults directory holding runtime-rs' shims.
pub const RUNTIME_RS_DIR: &'static str = "runtime-rs";

/// Directories under the defaults directory holding one directory of
/// configurations per shim or handler.
pub const RUNTIME_RS_RUNTIMES_DIR: &'static str = "runtime-rs/runtimes";

pub const RUNTIMES_DIR: &'static str = "runtimes";

pub const CUSTOM_RUNTIMES_DIR: &'static str = "custom-runtimes";

/// A file name of the form `configuration-*.toml`.
pub open spec fn config_file_name(name: Seq<char>) -> bool {
    has_prefix(name, "configuration-"@) && has_suffix(name, ".toml"@)
}

/// Whether a file name is that of a runtime configuration.
pub fn is_config_file_name(name: &str) -> (r: bool)
    ensures
        r == config_file_name(name@),
{
    starts_with(name, "configuration-") && ends_with(name, ".toml")
}

/// The key of one piece of a path split at `/`, as `Path::components`
/// reads it on Unix: an empty piece (a repeated or trailing separator) and
/// a `.` anywhere but at the start give no component; `.` at the start is
/// the current directory, `..` the parent directory, anything else a
/// normal component. Each component's key is a tag that orders the kinds
/// as `Component` orders them, then its text, then a NUL that ends it.
pub open spec fn component_key(piece: Seq<char>, first: bool) -> Seq<char> {
    if piece.len() == 0 {
        Seq::empty()
    } else if piece == seq!['.'] {
        if first {
            seq!['\u{2}', '\u{0}']
        } else {
            Seq::empty()
        }
    } else if piece == seq!['.', '.'] {
        seq!['\u{3}', '\u{0}']
    } else {
        seq!['\u{4}'] + piece + seq!['\u{0}']
    }
}

/// The keys of the components the pieces of a path give, in order.
pub open spec fn components_key(pieces: Seq<Seq<char>>) -> Seq<char>
    decreases pieces.len(),
{
    if pieces.len() == 0 {
        Seq::empty()
    } else {
        components_key(pieces.drop_last()) + component_key(pieces.last(), pieces.len() == 1)
    }
}

/// The key paths are ordered by: the root directory first where the path
/// is absolute, then its components. Keys compare as `Path`s compare, the
/// components in turn, for paths that hold no NUL.
pub open spec fn path_order_key(p: Seq<char>) -> Seq<char> {
    (if p.len() > 0 && p[0] == '/' {
        seq!['\u{1}', '\u{0}']
    } else {
        Seq::empty()
    }) + components_key(split_on(p, '/'))
}

fn path_order_key_of(p: &str) -> (r: String)
    ensures
        r@ == path_order_key(p@),
{
    proof {
        reveal_strlit("\u{0}");
        reveal_strlit("\u{1}\u{0}");
        reveal_strlit("\u{2}\u{0}");
        reveal_strlit("\u{3}\u{0}");
        reveal_strlit("\u{4}");
    }
    let pieces = split_char(p, '/');
    let ghost pv = pieces@.map_values(|s: String| s@);
    let mut out = String::new();
    if p.unicode_len() > 0 && p.get_char(0) == '/' {
        out.append("\u{1}\u{0}");
    }
    let ghost root = out@;
    assert(components_key(pv.take(0)) =~= Seq::<char>::empty());
    assert(root + Seq::<char>::empty() =~= root);
    let mut i: usize = 0;
    while i < pieces.len()
        invariant
            pv == pieces@.map_values(|s: String| s@),
            pv == split_on(p@, '/'),
            i <= pieces@.len(),
            out@ == root + components_key(pv.take(i as int)),
            "\u{0}"@ == seq!['\u{0}'],
            "\u{2}\u{0}"@ == seq!['\u{2}', '\u{0}'],
            "\u{3}\u{0}"@ == seq!['\u{3}', '\u{0}'],
            "\u{4}"@ == seq!['\u{4}'],
        decreases pieces@.len() - i,
    {
        let piece = pieces[i].as_str();
        assert(piece@ == pv[i as int]);
        assert(pv.take(i + 1).drop_last() =~= pv.take(i as int));
        assert(pv.take(i + 1).last() == pv[i as int]);
        let ghost before = out@;
        let len = piece.unicode_len();
        if len == 0 {
        } else if len == 1 && piece.get_char(0) == '.' {
            assert(piece@ =~= seq!['.']);
            if i == 0 {
                out.append("\u{2}\u{0}");
            }
        } else if len == 2 && piece.get_char(0) == '.' && piece.get_char(1) == '.' {
            assert(piece@ =~= seq!['.', '.']);
            out.append("\u{3}\u{0}");
        } else {
            assert(piece@ != seq!['.']);
            assert(piece@ != seq!['.', '.']);
            out.append("\u{4}");
            out.append(piece);
            out.append("\u{0}");
        }
        assert(out@ =~= before + component_key(pv[i as int], i == 0));
        assert(out@ =~= root + components_key(pv.take(i + 1)));
        i = i + 1;
    }
    assert(pv.take(pv.len() as int) =~= pv);
    out
}

/// The paths without any that repeats the one kept before it, as
/// `Vec::dedup` removes them.
pub open spec fn dedup_paths(s: Seq<Seq<char>>) -> Seq<Seq<char>>
    decreases s.len(),
{
    if s.len() == 0 {
        s
    } else {
        let r = dedup_paths(s.drop_last());
        if r.len() > 0 && same_path(s.last(), r.last()) {
            r
        } else {
            r.push(s.last())
        }
    }
}

pub open spec fn reorder_paths(s: Seq<Seq<char>>, order: Seq<usize>) -> Seq<Seq<char>> {
    order.map_values(|i: usize| s[i as int])
}

pub open spec fn path_keys(s: Seq<Seq<char>>) -> Seq<Seq<char>> {
    s.map_values(|p: Seq<char>| path_order_key(p))
}

pub open spec fn views(s: Seq<String>) -> Seq<Seq<char>> {
    s.map_values(|p: String| p@)
}

/// The configurations found, sorted component by component and without
/// repeats, as the layout is walked in that order.
pub fn order_configs(configs: Vec<String>) -> (r: Vec<String>)
    ensures
        exists|order: Seq<usize>|
            stably_sorted(path_keys(views(configs@)), order) && views(r@) == dedup_paths(
                reorder_paths(views(configs@), order),
            ),
{
    let ghost cv = views(configs@);
    let mut keys: Vec<String> = Vec::new();
    let mut k: usize = 0;
    while k < configs.len()
        invariant
            cv == views(configs@),
            k <= configs@.len(),
            views(keys@) == path_keys(cv).take(k as int),
        decreases configs@.len() - k,
    {
        let ghost before = views(keys@);
        keys.push(path_order_key_of(configs[k].as_str()));
        assert(views(keys@) =~= before.push(path_order_key(cv[k as int])));
        assert(path_keys(cv).take(k + 1) =~= path_keys(cv).take(k as int).push(path_order_key(cv[k as int])));
        k = k + 1;
    }
    assert(path_keys(cv).take(cv.len() as int) =~= path_keys(cv));
    assert(keys@.map_values(|s: String| s@) == views(keys@));
    let order = stable_sort_indices(&keys);
    let ghost sorted = reorder_paths(cv, order@);
    let mut out: Vec<String> = Vec::new();
    let mut j: usize = 0;
    while j < order.len()
        invariant
            cv == views(configs@),
            stably_sorted(path_keys(cv), order@),
            sorted == reorder_paths(cv, order@),
            j <= order@.len(),
            views(out@) == dedup_paths(sorted.take(j as int)),
        decreases order@.len() - j,
    {
        let p = &configs[order[j]];
        assert(sorted[j as int] == p@);
        assert(sorted.take(j + 1).drop_last() =~= sorted.take(j as int));
        assert(sorted.take(j + 1).last() == p@);
        let n = out.len();
        let repeat = n > 0 && paths_equal(p.as_str(), out[n - 1].as_str());
        if !repeat {
            let ghost before = views(out@);
            out.push(p.clone());
            assert(views(out@) =~= before.push(p@));
        } else {
            assert(views(out@).last() == out@[n - 1]@);
        }
        j = j + 1;
    }
    assert(sorted.take(sorted.len() as int) =~= sorted);
    out
}

/// The target of each configuration found by layout, with whether
/// runtime-rs serves it as the layout says.
pub open spec fn layout_targets(configs: Seq<Seq<char>>, runtime_rs: Seq<Option<bool>>) -> Seq<TargetView> {
    Seq::new(
        configs.len(),
        |i: int| (runtime_class_of(configs[i]).unwrap(), shim_of(configs[i]), configs[i], runtime_rs[i], None),
    )
}

/// Index of the first configuration no RuntimeClass can be derived from.
pub open spec fn first_classless(configs: Seq<Seq<char>>, i: int) -> bool {
    &&& 0 <= i < configs.len()
    &&& runtime_class_of(configs[i]) is None
    &&& forall|j: int| 0 <= j < i ==> (#[trigger] runtime_class_of(configs[j])) is Some
}

/// The targets of the configurations found under `defaults_dir`, each with
/// whether runtime-rs serves it as the layout says. Finding none is an
/// error, as is a configuration no RuntimeClass can be derived from.
pub fn targets_from_layout(defaults_dir: &str, configs: &Vec<String>, runtime_rs: &Vec<Option<bool>>) -> (r: Result<
    Vec<Target>,
    WhispererError,
>)
    requires
        configs@.len() == runtime_rs@.len(),
    ensures
        configs@.len() == 0 ==> (r matches Err(WhispererError::NoConfigurations(d)) && d@ == defaults_dir@),
        configs@.len() > 0 ==> (r is Err <==> exists|i: int|
            0 <= i < configs@.len() && (#[trigger] runtime_class_of(views(configs@)[i])) is None),
        r matches Err(WhispererError::NoRuntimeClass(p)) ==> exists|i: int|
            first_classless(views(configs@), i) && #[trigger] views(configs@)[i] == p@,
        r matches Ok(v) ==> target_views(v@) == layout_targets(views(configs@), runtime_rs@),
{
    if configs.len() == 0 {
        return Err(WhispererError::NoConfigurations(owned(defaults_dir)));
    }
    let ghost cv = views(configs@);
    let ghost want = layout_targets(cv, runtime_rs@);
    let mut out: Vec<Target> = Vec::new();
    let mut i: usize = 0;
    while i < configs.len()
        invariant
            cv == views(configs@),
            want == layout_targets(cv, runtime_rs@),
            configs@.len() == runtime_rs@.len(),
            i <= configs@.len(),
            forall|j: int| 0 <= j < i ==> (#[trigger] runtime_class_of(cv[j])) is Some,
            target_views(out@) == want.take(i as int),
        decreases configs@.len() - i,
    {
        assert(cv[i as int] == configs@[i as int]@);
        let t = match target_for_config(configs[i].as_str(), runtime_rs[i]) {
            Ok(t) => t,
            Err(e) => {
                assert(first_classless(cv, i as int));
                return Err(e);
            },
        };
        let ghost before = target_views(out@);
        out.push(t);
        assert(target_views(out@) =~= before.push(want[i as int]));
        assert(want.take(i + 1) =~= want.take(i as int).push(want[i as int]));
        i = i + 1;
    }
    assert(want.take(want.len() as int) =~= want);
    assert forall|j: int| 0 <= j < cv.len() implies (#[trigger] runtime_class_of(cv[j])) is Some by {}
    Ok(out)
}

} // verus!
