//! The materialization engine: from a document value to the creation of a
//! directory tree.
//!
//! The engine exists in two connected forms. [`materialize`] carries out the
//! creation against the in-memory tree model, with the exact semantics of
//! creating entries on disk: an entry that already exists under its parent, or
//! whose name is unusable, makes the creation fail, the work done so far is
//! kept, and nothing pre-existing is touched. [`plan`] lists, in creation
//! order, the entries the document asks for, as paths of name components under
//! the root; the input/output layer outside the library performs them one by
//! one and stops at the first failure, which reproduces the same abort
//! behaviour against a real filesystem.

use vstd::prelude::*;
use crate::error::Error;
use crate::fs_model::{FsTree, FsTreeV, fs_view, fs_seq_view, entry_name, has_entry,
    lemma_fs_seq_view};
use crate::value::{
    TreeValue, TreeV, tree_view, tree_seq_view, tree_entries_view, valid_name, has_marker,
    strip_marker_spec, strip_marker, name_has_marker, is_valid_name,
};

verus! {

/// The entry a name asks to create: a directory for a marked name, a file for
/// a bare one; `IOError` when the name (marker aside) is not usable.
pub open spec fn new_entry_spec(s: Seq<char>) -> Result<FsTreeV, Error> {
    let n = strip_marker_spec(s);
    if !valid_name(n) {
        Result::Err(Error::IOError)
    } else if has_marker(s) {
        Result::Ok(FsTreeV::Dir { name: n, entries: Seq::empty() })
    } else {
        Result::Ok(FsTreeV::File { name: n })
    }
}

/// What materializing one value into the entry `ctx` does: the entry
/// afterwards, and the error that aborted the work, if one did.
///
/// A scalar creates one child; a mapping creates a child per key and fills it
/// from the key's value; a sequence materializes its items in order; any other
/// shape is ignored. Creating a child fails with `IOError` when `ctx` is a
/// file, when the child's name is unusable, or when `ctx` already holds an
/// entry of that name; the first failure aborts, keeping what was created.
pub open spec fn mat_value_spec(v: TreeV, ctx: FsTreeV) -> (FsTreeV, Option<Error>)
    decreases v, 0int,
{
    match v {
        TreeV::Other => (ctx, Option::None),
        TreeV::Scalar(s) => mat_create_spec(s, ctx),
        TreeV::Sequence(items) => mat_seq_spec(items, ctx),
        TreeV::Mapping(pairs) => mat_pairs_spec(pairs, ctx),
    }
}

/// Creating the entry named `s` inside `ctx`, with no children to fill.
pub open spec fn mat_create_spec(s: Seq<char>, ctx: FsTreeV) -> (FsTreeV, Option<Error>) {
    match ctx {
        FsTreeV::File { .. } => (ctx, Option::Some(Error::IOError)),
        FsTreeV::Dir { name, entries } => match new_entry_spec(s) {
            Result::Err(e) => (ctx, Option::Some(e)),
            Result::Ok(c) => if has_entry(entries, entry_name(c)) {
                (ctx, Option::Some(Error::IOError))
            } else {
                (FsTreeV::Dir { name, entries: entries.push(c) }, Option::None)
            },
        },
    }
}

/// Materializing the items of a sequence into `ctx`, in order, aborting on
/// the first failure.
pub open spec fn mat_seq_spec(items: Seq<TreeV>, ctx: FsTreeV) -> (FsTreeV, Option<Error>)
    decreases items, 1int,
{
    if items.len() == 0 {
        (ctx, Option::None)
    } else {
        let (c1, e1) = mat_value_spec(items[0], ctx);
        if e1 is Some {
            (c1, e1)
        } else {
            mat_seq_spec(items.drop_first(), c1)
        }
    }
}

/// Materializing one mapping entry into `ctx`: create the entry the key asks
/// for, then fill it from the key's value.
pub open spec fn mat_pair_spec(k: Seq<char>, v: TreeV, ctx: FsTreeV) -> (FsTreeV, Option<Error>)
    decreases v, 1int,
{
    match ctx {
        FsTreeV::File { .. } => (ctx, Option::Some(Error::IOError)),
        FsTreeV::Dir { name, entries } => match new_entry_spec(k) {
            Result::Err(e) => (ctx, Option::Some(e)),
            Result::Ok(c) => if has_entry(entries, entry_name(c)) {
                (ctx, Option::Some(Error::IOError))
            } else {
                let (c2, e2) = mat_value_spec(v, c);
                (FsTreeV::Dir { name, entries: entries.push(c2) }, e2)
            },
        },
    }
}

/// Materializing the entries of a mapping into `ctx`, in order, aborting on
/// the first failure.
pub open spec fn mat_pairs_spec(pairs: Seq<(Seq<char>, TreeV)>, ctx: FsTreeV) -> (
    FsTreeV,
    Option<Error>,
)
    decreases pairs, 2int,
{
    if pairs.len() == 0 {
        (ctx, Option::None)
    } else {
        let (c1, e1) = mat_pair_spec(pairs[0].0, pairs[0].1, ctx);
        if e1 is Some {
            (c1, e1)
        } else {
            mat_pairs_spec(pairs.drop_first(), c1)
        }
    }
}

/// The bare name of an entry.
fn entry_name_ref(t: &FsTree) -> (r: &String)
    ensures
        r@ == entry_name(t@),
{
    match t {
        FsTree::File { name } => name,
        FsTree::Dir { name, .. } => name,
    }
}

/// Whether the directory contents `entries` already hold an entry named `n`.
fn dir_has_entry(entries: &Vec<FsTree>, n: &String) -> (r: bool)
    ensures
        r == has_entry(fs_seq_view(entries@), n@),
{
    proof {
        lemma_fs_seq_view(entries@);
    }
    let mut i: usize = 0;
    while i < entries.len()
        invariant
            0 <= i <= entries@.len(),
            fs_seq_view(entries@).len() == entries@.len(),
            forall|j: int| 0 <= j < entries@.len() ==> fs_seq_view(entries@)[j] == fs_view(
                entries@[j],
            ),
            forall|j: int| 0 <= j < i ==> entry_name(fs_seq_view(entries@)[j]) != n@,
        decreases entries@.len() - i,
    {
        let en = entry_name_ref(&entries[i]);
        if en.eq(n) {
            proof {
                assert(entry_name(fs_seq_view(entries@)[i as int]) == n@);
            }
            return true;
        }
        i = i + 1;
    }
    false
}

/// The entry a name asks to create, or `IOError` for an unusable name.
fn new_entry(s: &str) -> (r: Result<FsTree, Error>)
    ensures
        (match r {
            Result::Ok(c) => new_entry_spec(s@) == Result::Ok::<FsTreeV, Error>(c@),
            Result::Err(e) => new_entry_spec(s@) == Result::Err::<FsTreeV, Error>(e),
        }),
{
    let n = strip_marker(s);
    if !is_valid_name(n.as_str()) {
        Result::Err(Error::IOError)
    } else if name_has_marker(s) {
        Result::Ok(FsTree::Dir { name: n, entries: Vec::new() })
    } else {
        Result::Ok(FsTree::File { name: n })
    }
}

/// Materializes one document value into the entry `ctx` of the tree model.
/// On failure the first error comes back and `ctx` keeps everything created
/// before it; nothing already present is altered or removed.
pub fn materialize(v: &TreeValue, ctx: &mut FsTree) -> (r: Result<(), Error>)
    ensures
        ({
            let (c2, err) = mat_value_spec(tree_view(*v), old(ctx)@);
            &&& final(ctx)@ == c2
            &&& (match r {
                Result::Ok(_) => err is None,
                Result::Err(e) => err == Option::Some(e),
            })
        }),
    decreases *v, 0int, 0int,
{
    match v {
        TreeValue::Other => Result::Ok(()),
        TreeValue::Scalar(s) => mat_create(s, ctx),
        TreeValue::Sequence(items) => {
            proof {
                assert(items@.skip(0) =~= items@);
            }
            mat_items(items, 0, ctx)
        },
        TreeValue::Mapping(pairs) => {
            proof {
                assert(pairs@.skip(0) =~= pairs@);
            }
            mat_pairs(pairs, 0, ctx)
        },
    }
}

/// Creates the entry named `s` inside `ctx`.
fn mat_create(s: &String, ctx: &mut FsTree) -> (r: Result<(), Error>)
    ensures
        ({
            let (c2, err) = mat_create_spec(s@, old(ctx)@);
            &&& final(ctx)@ == c2
            &&& (match r {
                Result::Ok(_) => err is None,
                Result::Err(e) => err == Option::Some(e),
            })
        }),
{
    match ctx {
        FsTree::File { .. } => Result::Err(Error::IOError),
        FsTree::Dir { name, entries } => match new_entry(s.as_str()) {
            Result::Err(e) => Result::Err(e),
            Result::Ok(c) => {
                let cn = entry_name_ref(&c);
                if dir_has_entry(entries, cn) {
                    Result::Err(Error::IOError)
                } else {
                    let ghost entries0 = entries@;
                    let ghost c0 = c;
                    entries.push(c);
                    proof {
                        lemma_fs_seq_view_push(entries0, c0);
                    }
                    Result::Ok(())
                }
            },
        },
    }
}

/// Materializes the items of `items` from position `i` on into `ctx`.
fn mat_items(items: &Vec<TreeValue>, i: usize, ctx: &mut FsTree) -> (r: Result<(), Error>)
    requires
        i <= items@.len(),
    ensures
        ({
            let (c2, err) = mat_seq_spec(tree_seq_view(items@.skip(i as int)), old(ctx)@);
            &&& final(ctx)@ == c2
            &&& (match r {
                Result::Ok(_) => err is None,
                Result::Err(e) => err == Option::Some(e),
            })
        }),
    decreases *items, items@.len() - i, 0int,
{
    if i == items.len() {
        proof {
            assert(items@.skip(i as int) =~= Seq::<TreeValue>::empty());
        }
        return Result::Ok(());
    }
    let ghost tvs = tree_seq_view(items@.skip(i as int));
    proof {
        assert(items@.skip(i as int)[0] == items@[i as int]);
        assert(items@.skip(i as int).drop_first() =~= items@.skip(i as int + 1));
        assert(tvs == seq![tree_view(items@[i as int])] + tree_seq_view(
            items@.skip(i as int + 1),
        ));
        assert(tvs[0] == tree_view(items@[i as int]));
        assert(tvs.drop_first() =~= tree_seq_view(items@.skip(i as int + 1)));
    }
    match materialize(&items[i], ctx) {
        Result::Err(e) => Result::Err(e),
        Result::Ok(_) => mat_items(items, i + 1, ctx),
    }
}

/// Materializes the mapping entries of `pairs` from position `i` on into `ctx`.
fn mat_pairs(pairs: &Vec<(String, TreeValue)>, i: usize, ctx: &mut FsTree) -> (r: Result<
    (),
    Error,
>)
    requires
        i <= pairs@.len(),
    ensures
        ({
            let (c2, err) = mat_pairs_spec(tree_entries_view(pairs@.skip(i as int)), old(ctx)@);
            &&& final(ctx)@ == c2
            &&& (match r {
                Result::Ok(_) => err is None,
                Result::Err(e) => err == Option::Some(e),
            })
        }),
    decreases *pairs, pairs@.len() - i, 0int,
{
    if i == pairs.len() {
        proof {
            assert(pairs@.skip(i as int) =~= Seq::<(String, TreeValue)>::empty());
        }
        return Result::Ok(());
    }
    let ghost evs = tree_entries_view(pairs@.skip(i as int));
    proof {
        assert(pairs@.skip(i as int)[0] == pairs@[i as int]);
        assert(pairs@.skip(i as int).drop_first() =~= pairs@.skip(i as int + 1));
        assert(evs == seq![(pairs@[i as int].0@, tree_view(pairs@[i as int].1))]
            + tree_entries_view(pairs@.skip(i as int + 1)));
        assert(evs[0] == (pairs@[i as int].0@, tree_view(pairs@[i as int].1)));
        assert(evs.drop_first() =~= tree_entries_view(pairs@.skip(i as int + 1)));
    }
    match mat_one_pair(&pairs[i].0, &pairs[i].1, ctx) {
        Result::Err(e) => Result::Err(e),
        Result::Ok(_) => mat_pairs(pairs, i + 1, ctx),
    }
}

/// Creates the entry the key `k` asks for inside `ctx`, then fills it from `v`.
fn mat_one_pair(k: &String, v: &TreeValue, ctx: &mut FsTree) -> (r: Result<(), Error>)
    ensures
        ({
            let (c2, err) = mat_pair_spec(k@, tree_view(*v), old(ctx)@);
            &&& final(ctx)@ == c2
            &&& (match r {
                Result::Ok(_) => err is None,
                Result::Err(e) => err == Option::Some(e),
            })
        }),
    decreases *v, 1int, 0int,
{
    match ctx {
        FsTree::File { .. } => Result::Err(Error::IOError),
        FsTree::Dir { name, entries } => match new_entry(k.as_str()) {
            Result::Err(e) => Result::Err(e),
            Result::Ok(c) => {
                let cn = entry_name_ref(&c);
                if dir_has_entry(entries, cn) {
                    Result::Err(Error::IOError)
                } else {
                    let mut child = c;
                    let r1 = materialize(v, &mut child);
                    let ghost entries0 = entries@;
                    let ghost child0 = child;
                    entries.push(child);
                    proof {
                        lemma_fs_seq_view_push(entries0, child0);
                    }
                    r1
                }
            },
        },
    }
}

/// One creation step: make a directory or an empty file at `path`, a list of
/// name components under the root the materialization was asked for.
#[derive(Debug, PartialEq, Eq)]
pub struct CreateOp {
    pub path: Vec<String>,
    pub dir: bool,
}

/// The mathematical model of a [`CreateOp`].
#[verifier::ext_equal]
pub struct OpV {
    pub path: Seq<Seq<char>>,
    pub dir: bool,
}

/// The model of a component path.
pub open spec fn path_view(p: Seq<String>) -> Seq<Seq<char>> {
    p.map_values(|s: String| s@)
}

impl View for CreateOp {
    type V = OpV;

    open spec fn view(&self) -> OpV {
        OpV { path: path_view(self.path@), dir: self.dir }
    }
}

/// The model of a list of creation steps.
pub open spec fn ops_view(ops: Seq<CreateOp>) -> Seq<OpV> {
    ops.map_values(|o: CreateOp| o@)
}

/// The creations a value asks for under the path `prefix`, in the order they
/// must be performed: an entry before its children, siblings in order.
pub open spec fn plan_value_spec(v: TreeV, prefix: Seq<Seq<char>>) -> Seq<OpV>
    decreases v, 0int,
{
    match v {
        TreeV::Other => Seq::empty(),
        TreeV::Scalar(s) => seq![
            OpV { path: prefix.push(strip_marker_spec(s)), dir: has_marker(s) },
        ],
        TreeV::Sequence(items) => plan_items_spec(items, prefix),
        TreeV::Mapping(pairs) => plan_pairs_spec(pairs, prefix),
    }
}

/// The creations the items of a sequence ask for, in order.
pub open spec fn plan_items_spec(items: Seq<TreeV>, prefix: Seq<Seq<char>>) -> Seq<OpV>
    decreases items, 1int,
{
    if items.len() == 0 {
        Seq::empty()
    } else {
        plan_value_spec(items[0], prefix) + plan_items_spec(items.drop_first(), prefix)
    }
}

/// The creations the entries of a mapping ask for: for each key, the entry the
/// key names, then the creations of its value under the key's path.
pub open spec fn plan_pairs_spec(pairs: Seq<(Seq<char>, TreeV)>, prefix: Seq<Seq<char>>) -> Seq<
    OpV,
>
    decreases pairs, 1int,
{
    if pairs.len() == 0 {
        Seq::empty()
    } else {
        let k = pairs[0].0;
        let kp = prefix.push(strip_marker_spec(k));
        seq![OpV { path: kp, dir: has_marker(k) }] + plan_value_spec(pairs[0].1, kp)
            + plan_pairs_spec(pairs.drop_first(), prefix)
    }
}

/// A copy of a component path.
fn clone_names(v: &Vec<String>) -> (r: Vec<String>)
    ensures
        path_view(r@) == path_view(v@),
{
    let mut out: Vec<String> = Vec::new();
    let mut i: usize = 0;
    while i < v.len()
        invariant
            0 <= i <= v@.len(),
            out@.len() == i,
            forall|j: int| 0 <= j < i ==> out@[j]@ == v@[j]@,
        decreases v@.len() - i,
    {
        out.push(v[i].clone());
        i = i + 1;
    }
    proof {
        assert(path_view(out@) =~= path_view(v@));
    }
    out
}

/// Lists the creations `value` asks for, in the order the input/output layer
/// must perform them under its root. Performing them one by one and stopping
/// at the first failure is exactly the engine's abort-on-first-error walk.
pub fn plan(value: &TreeValue) -> (ops: Vec<CreateOp>)
    ensures
        ops_view(ops@) == plan_value_spec(tree_view(*value), Seq::empty()),
{
    let mut out: Vec<CreateOp> = Vec::new();
    let prefix: Vec<String> = Vec::new();
    proof {
        assert(path_view(prefix@) =~= Seq::<Seq<char>>::empty());
        assert(ops_view(out@) =~= Seq::<OpV>::empty());
    }
    plan_value(value, &prefix, &mut out);
    proof {
        assert(ops_view(out@) =~= plan_value_spec(tree_view(*value), Seq::empty()));
    }
    out
}

/// Appends the creations `v` asks for under `prefix` to `out`.
fn plan_value(v: &TreeValue, prefix: &Vec<String>, out: &mut Vec<CreateOp>)
    ensures
        ops_view(final(out)@) == ops_view(old(out)@) + plan_value_spec(
            tree_view(*v),
            path_view(prefix@),
        ),
    decreases *v, 0int, 0int,
{
    match v {
        TreeValue::Other => {
            proof {
                assert(ops_view(out@) =~= ops_view(out@) + Seq::<OpV>::empty());
            }
        },
        TreeValue::Scalar(s) => {
            let dir = name_has_marker(s.as_str());
            let stripped = strip_marker(s.as_str());
            let mut path = clone_names(prefix);
            path.push(stripped);
            proof {
                assert(path_view(path@) =~= path_view(prefix@).push(
                    strip_marker_spec(s@),
                ));
            }
            let op = CreateOp { path, dir };
            let ghost out0 = out@;
            out.push(op);
            proof {
                assert(ops_view(out@) =~= ops_view(out0) + plan_value_spec(
                    tree_view(*v),
                    path_view(prefix@),
                ));
            }
        },
        TreeValue::Sequence(items) => {
            proof {
                assert(items@.skip(0) =~= items@);
            }
            plan_items(items, 0, prefix, out);
        },
        TreeValue::Mapping(pairs) => {
            proof {
                assert(pairs@.skip(0) =~= pairs@);
            }
            plan_pairs(pairs, 0, prefix, out);
        },
    }
}

/// Appends the creations items `i` onward ask for under `prefix` to `out`.
fn plan_items(items: &Vec<TreeValue>, i: usize, prefix: &Vec<String>, out: &mut Vec<CreateOp>)
    requires
        i <= items@.len(),
    ensures
        ops_view(final(out)@) == ops_view(old(out)@) + plan_items_spec(
            tree_seq_view(items@.skip(i as int)),
            path_view(prefix@),
        ),
    decreases *items, items@.len() - i, 1int,
{
    if i == items.len() {
        proof {
            assert(items@.skip(i as int) =~= Seq::<TreeValue>::empty());
            assert(ops_view(out@) =~= ops_view(out@) + Seq::<OpV>::empty());
        }
        return ;
    }
    let ghost tvs = tree_seq_view(items@.skip(i as int));
    proof {
        assert(items@.skip(i as int)[0] == items@[i as int]);
        assert(items@.skip(i as int).drop_first() =~= items@.skip(i as int + 1));
        assert(tvs == seq![tree_view(items@[i as int])] + tree_seq_view(
            items@.skip(i as int + 1),
        ));
        assert(tvs[0] == tree_view(items@[i as int]));
        assert(tvs.drop_first() =~= tree_seq_view(items@.skip(i as int + 1)));
    }
    let ghost out0 = out@;
    plan_value(&items[i], prefix, out);
    plan_items(items, i + 1, prefix, out);
    proof {
        assert(ops_view(out@) =~= ops_view(out0) + plan_items_spec(tvs, path_view(prefix@)));
    }
}

/// Appends the creations mapping entries `i` onward ask for under `prefix`.
fn plan_pairs(
    pairs: &Vec<(String, TreeValue)>,
    i: usize,
    prefix: &Vec<String>,
    out: &mut Vec<CreateOp>,
)
    requires
        i <= pairs@.len(),
    ensures
        ops_view(final(out)@) == ops_view(old(out)@) + plan_pairs_spec(
            tree_entries_view(pairs@.skip(i as int)),
            path_view(prefix@),
        ),
    decreases *pairs, pairs@.len() - i, 1int,
{
    if i == pairs.len() {
        proof {
            assert(pairs@.skip(i as int) =~= Seq::<(String, TreeValue)>::empty());
            assert(ops_view(out@) =~= ops_view(out@) + Seq::<OpV>::empty());
        }
        return ;
    }
    let ghost evs = tree_entries_view(pairs@.skip(i as int));
    proof {
        assert(pairs@.skip(i as int)[0] == pairs@[i as int]);
        assert(pairs@.skip(i as int).drop_first() =~= pairs@.skip(i as int + 1));
        assert(evs == seq![(pairs@[i as int].0@, tree_view(pairs@[i as int].1))]
            + tree_entries_view(pairs@.skip(i as int + 1)));
        assert(evs[0] == (pairs@[i as int].0@, tree_view(pairs@[i as int].1)));
        assert(evs.drop_first() =~= tree_entries_view(pairs@.skip(i as int + 1)));
    }
    let k = &pairs[i].0;
    let dir = name_has_marker(k.as_str());
    let stripped = strip_marker(k.as_str());
    let mut kp = clone_names(prefix);
    kp.push(stripped);
    proof {
        assert(path_view(kp@) =~= path_view(prefix@).push(strip_marker_spec(k@)));
    }
    let ghost out0 = out@;
    let mut path = clone_names(&kp);
    let op = CreateOp { path, dir };
    out.push(op);
    proof {
        assert(ops_view(out@) =~= ops_view(out0).push(
            OpV { path: path_view(kp@), dir: has_marker(k@) },
        ));
    }
    plan_value(&pairs[i].1, &kp, out);
    plan_pairs(pairs, i + 1, prefix, out);
    proof {
        assert(ops_view(out@) =~= ops_view(out0) + plan_pairs_spec(evs, path_view(prefix@)));
    }
}

/// What performing one creation step does to the tree model: walk the path's
/// leading components through existing entries, then create the leaf — a
/// directory or an empty file. The step fails with `IOError` when a component
/// leads into a file or into nothing, when the leaf name is unusable or the
/// path empty, or when the leaf already exists.
pub open spec fn create_at_spec(path: Seq<Seq<char>>, dir: bool, ctx: FsTreeV) -> (
    FsTreeV,
    Option<Error>,
)
    decreases path.len(),
{
    match ctx {
        FsTreeV::File { .. } => (ctx, Option::Some(Error::IOError)),
        FsTreeV::Dir { name, entries } => {
            if path.len() == 0 {
                (ctx, Option::Some(Error::IOError))
            } else if path.len() == 1 {
                if !valid_name(path[0]) {
                    (ctx, Option::Some(Error::IOError))
                } else if has_entry(entries, path[0]) {
                    (ctx, Option::Some(Error::IOError))
                } else {
                    let c = if dir {
                        FsTreeV::Dir { name: path[0], entries: Seq::empty() }
                    } else {
                        FsTreeV::File { name: path[0] }
                    };
                    (FsTreeV::Dir { name, entries: entries.push(c) }, Option::None)
                }
            } else {
                if !has_entry(entries, path[0]) {
                    (ctx, Option::Some(Error::IOError))
                } else {
                    let i = choose|i: int|
                        0 <= i < entries.len() && entry_name(entries[i]) == path[0];
                    let inner = create_at_spec(path.drop_first(), dir, entries[i]);
                    (FsTreeV::Dir { name, entries: entries.update(i, inner.0) }, inner.1)
                }
            }
        },
    }
}

/// What performing the steps of `ops` in order does: each step against the
/// root, stopping at the first failure and keeping what was created. This is
/// the walk the input/output layer makes with the plan.
pub open spec fn apply_ops_spec(ops: Seq<OpV>, root: FsTreeV) -> (FsTreeV, Option<Error>)
    decreases ops.len(),
{
    if ops.len() == 0 {
        (root, Option::None)
    } else {
        let first = create_at_spec(ops[0].path, ops[0].dir, root);
        if first.1 is Some {
            first
        } else {
            apply_ops_spec(ops.drop_first(), first.0)
        }
    }
}

/// The steps of `ops`, re-rooted one directory deeper, under the entry `n`.
pub open spec fn ops_shift(ops: Seq<OpV>, n: Seq<char>) -> Seq<OpV> {
    ops.map_values(|o: OpV| OpV { path: seq![n] + o.path, dir: o.dir })
}

/// Pushing one entry maps through the view of directory contents.
proof fn lemma_fs_seq_view_push(ts: Seq<FsTree>, t: FsTree)
    ensures
        fs_seq_view(ts.push(t)) == fs_seq_view(ts).push(fs_view(t)),
    decreases ts,
{
    if ts.len() == 0 {
        assert(ts.push(t)[0] == t);
        assert(ts.push(t).drop_first() =~= Seq::<FsTree>::empty());
        assert(fs_seq_view(ts.push(t)) == seq![fs_view(t)] + fs_seq_view(
            Seq::<FsTree>::empty(),
        ));
        assert(fs_seq_view(ts.push(t)) =~= fs_seq_view(ts).push(fs_view(t)));
    } else {
        assert(ts.push(t)[0] == ts[0]);
        assert(ts.push(t).drop_first() =~= ts.drop_first().push(t));
        lemma_fs_seq_view_push(ts.drop_first(), t);
        assert(fs_seq_view(ts.push(t)) == seq![fs_view(ts[0])] + fs_seq_view(
            ts.drop_first(),
        ).push(fs_view(t)));
        assert(fs_seq_view(ts) == seq![fs_view(ts[0])] + fs_seq_view(ts.drop_first()));
        assert(fs_seq_view(ts.push(t)) =~= fs_seq_view(ts).push(fs_view(t)));
    }
}

} // verus!
