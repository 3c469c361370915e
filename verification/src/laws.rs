//! The laws that relate the capture and materialization engines.

use vstd::prelude::*;
use crate::error::Error;
use crate::value::{TreeV, marker, has_marker, strip_marker_spec, valid_name};
use crate::fs_model::{FsTreeV, entry_name, has_entry, wf_tree, wf_forest};
use crate::capture::{capture_node_spec, capture_forest_spec, capture_spec, resolve_spec,
    resolve_seq_spec, name_check, ProbeV};
use crate::materialize::{
    mat_value_spec, mat_create_spec, mat_seq_spec, mat_pair_spec, mat_pairs_spec, new_entry_spec,
    plan_value_spec, plan_items_spec, plan_pairs_spec, OpV, create_at_spec, apply_ops_spec,
    ops_shift,
};

verus! {

/// `capture_forest_spec` is a pointwise map.
pub proof fn lemma_capture_forest_pointwise(ts: Seq<FsTreeV>)
    ensures
        capture_forest_spec(ts).len() == ts.len(),
        forall|i: int| 0 <= i < ts.len() ==> capture_forest_spec(ts)[i] == capture_node_spec(
            ts[i],
        ),
    decreases ts,
{
    if ts.len() > 0 {
        lemma_capture_forest_pointwise(ts.drop_first());
    }
}

/// A valid name never carries the separator marker, and gaining the marker is
/// undone by stripping it.
proof fn lemma_name_marker(n: Seq<char>)
    requires
        valid_name(n),
    ensures
        !has_marker(n),
        strip_marker_spec(n) == n,
        has_marker(n.push(marker())),
        strip_marker_spec(n.push(marker())) == n,
        new_entry_spec(n) == Result::<FsTreeV, Error>::Ok(FsTreeV::File { name: n }),
        new_entry_spec(n.push(marker())) == Result::<FsTreeV, Error>::Ok(
            FsTreeV::Dir { name: n, entries: Seq::empty() },
        ),
{
    assert(n[n.len() - 1] != marker());
    let k = n.push(marker());
    assert(k[k.len() - 1] == marker());
    assert(k.drop_last() =~= n);
}

/// Round trip, one entry: materializing the capture of a well-formed tree `t`
/// into a directory that does not yet hold its name appends exactly `t` to the
/// directory and succeeds.
pub proof fn lemma_round_trip_node(t: FsTreeV, dname: Seq<char>, es: Seq<FsTreeV>)
    requires
        wf_tree(t),
        !has_entry(es, entry_name(t)),
    ensures
        mat_value_spec(capture_node_spec(t), FsTreeV::Dir { name: dname, entries: es }) == (
            FsTreeV::Dir { name: dname, entries: es.push(t) },
            Option::<Error>::None,
        ),
    decreases t, 0int,
{
    match t {
        FsTreeV::File { name } => {
            lemma_name_marker(name);
        },
        FsTreeV::Dir { name, entries } => {
            lemma_name_marker(name);
            if entries.len() == 0 {
                assert(entries =~= Seq::<FsTreeV>::empty());
                assert(t == FsTreeV::Dir { name, entries: Seq::<FsTreeV>::empty() });
            } else {
                let k = name.push(marker());
                let child = FsTreeV::Dir { name, entries: Seq::empty() };
                let pairs = seq![(k, TreeV::Sequence(capture_forest_spec(entries)))];
                assert(forall|j: int| 0 <= j < entries.len() ==> !has_entry(
                    Seq::<FsTreeV>::empty(),
                    entry_name(entries[j]),
                ));
                lemma_round_trip_forest(entries, name, Seq::empty());
                assert(Seq::<FsTreeV>::empty() + entries =~= entries);
                assert(mat_value_spec(TreeV::Sequence(capture_forest_spec(entries)), child) == (
                    FsTreeV::Dir { name, entries },
                    Option::<Error>::None,
                ));
                assert(t == FsTreeV::Dir { name, entries });
                assert(pairs.drop_first() =~= Seq::<(Seq<char>, TreeV)>::empty());
                assert(mat_pair_spec(k, pairs[0].1, FsTreeV::Dir { name: dname, entries: es })
                    == (FsTreeV::Dir { name: dname, entries: es.push(t) }, Option::<Error>::None));
                assert(mat_pairs_spec(
                    Seq::<(Seq<char>, TreeV)>::empty(),
                    FsTreeV::Dir { name: dname, entries: es.push(t) },
                ) == (FsTreeV::Dir { name: dname, entries: es.push(t) }, Option::<Error>::None));
            }
        },
    }
}

/// Round trip, one sibling level: materializing the captures of a well-formed
/// forest, in order, into a directory whose contents are disjoint from the
/// forest's names appends exactly the forest and succeeds.
pub proof fn lemma_round_trip_forest(ts: Seq<FsTreeV>, dname: Seq<char>, es: Seq<FsTreeV>)
    requires
        wf_forest(ts),
        forall|j: int| 0 <= j < ts.len() ==> !has_entry(es, entry_name(ts[j])),
    ensures
        mat_seq_spec(capture_forest_spec(ts), FsTreeV::Dir { name: dname, entries: es }) == (
            FsTreeV::Dir { name: dname, entries: es + ts },
            Option::<Error>::None,
        ),
    decreases ts, 1int,
{
    if ts.len() == 0 {
        assert(es + ts =~= es);
    } else {
        let cs = capture_forest_spec(ts);
        assert(cs[0] == capture_node_spec(ts[0]));
        assert(cs.drop_first() =~= capture_forest_spec(ts.drop_first()));
        lemma_round_trip_node(ts[0], dname, es);
        let es1 = es.push(ts[0]);
        let dts = ts.drop_first();
        assert forall|j: int| 0 <= j < dts.len() implies !has_entry(
            es1,
            entry_name(dts[j]),
        ) by {
            assert(dts[j] == ts[j + 1]);
            assert(entry_name(ts[j + 1]) != entry_name(ts[0]));
            assert(!has_entry(es, entry_name(ts[j + 1])));
            if has_entry(es1, entry_name(dts[j])) {
                let i = choose|i: int|
                    0 <= i < es1.len() && entry_name(es1[i]) == entry_name(dts[j]);
                if i < es.len() {
                    assert(es1[i] == es[i]);
                    assert(has_entry(es, entry_name(dts[j])));
                } else {
                    assert(es1[i] == ts[0]);
                }
            }
        }
        lemma_round_trip_forest(dts, dname, es1);
        assert(es1 + dts =~= es + ts);
    }
}

/// Round trip: materializing the value that capture produced for a
/// well-formed forest of trees, into an empty root directory, rebuilds
/// exactly those trees — same names, same file/directory kinds, same nesting,
/// same order — and succeeds.
pub proof fn lemma_round_trip(roots: Seq<FsTreeV>, root_name: Seq<char>)
    requires
        wf_forest(roots),
    ensures
        mat_value_spec(
            TreeV::Sequence(capture_forest_spec(roots)),
            FsTreeV::Dir { name: root_name, entries: Seq::empty() },
        ) == (FsTreeV::Dir { name: root_name, entries: roots }, Option::<Error>::None),
{
    assert(forall|j: int| 0 <= j < roots.len() ==> !has_entry(
        Seq::<FsTreeV>::empty(),
        entry_name(roots[j]),
    ));
    lemma_round_trip_forest(roots, root_name, Seq::empty());
    assert(Seq::<FsTreeV>::empty() + roots =~= roots);
}

/// A sound probe: its name was read and is usable, the path is a file or a
/// directory, and every directory enumeration succeeded, through the whole
/// tree.
pub open spec fn probe_sound(p: ProbeV) -> bool
    decreases p, 0int,
{
    match p {
        ProbeV::File { name } => name_check(name) is Ok,
        ProbeV::Missing { .. } => false,
        ProbeV::Dir { name, entries } => {
            &&& name_check(name) is Ok
            &&& entries matches Option::Some(ps)
            &&& probes_sound(ps)
        },
    }
}

/// Every probe of the list is sound.
pub open spec fn probes_sound(ps: Seq<ProbeV>) -> bool
    decreases ps, 1int,
{
    forall|i: int| 0 <= i < ps.len() ==> probe_sound(ps[i])
}

proof fn lemma_resolve_sound(p: ProbeV)
    ensures
        resolve_spec(p) is Ok <==> probe_sound(p),
    decreases p, 0int,
{
    match p {
        ProbeV::File { .. } => {},
        ProbeV::Missing { .. } => {},
        ProbeV::Dir { name, entries } => {
            match entries {
                Option::None => {},
                Option::Some(ps) => {
                    lemma_resolve_seq_sound(ps);
                },
            }
        },
    }
}

proof fn lemma_resolve_seq_sound(ps: Seq<ProbeV>)
    ensures
        resolve_seq_spec(ps) is Ok <==> probes_sound(ps),
    decreases ps, 1int,
{
    if ps.len() > 0 {
        lemma_resolve_sound(ps[0]);
        lemma_resolve_seq_sound(ps.drop_first());
        if probe_sound(ps[0]) && probes_sound(ps.drop_first()) {
            assert forall|i: int| 0 <= i < ps.len() implies probe_sound(ps[i]) by {
                if i > 0 {
                    assert(ps.drop_first()[i - 1] == ps[i]);
                }
            }
        }
        if probes_sound(ps) {
            assert forall|i: int| 0 <= i < ps.drop_first().len() implies probe_sound(
                ps.drop_first()[i],
            ) by {
                assert(ps.drop_first()[i] == ps[i + 1]);
            }
        }
    }
}

/// When capture is owed success: it returns a value exactly when every probed
/// path resolved soundly — names readable and usable, nothing missing, every
/// enumeration read — and the first defect otherwise.
pub proof fn lemma_capture_succeeds_iff_sound(ps: Seq<ProbeV>)
    ensures
        capture_spec(ps) is Ok <==> probes_sound(ps),
{
    lemma_resolve_seq_sound(ps);
}

/// The captured value `v` marks the tree `t` correctly: wherever a name stands
/// in `v`, it carries the trailing separator marker exactly when the entry it
/// names is a directory, and the children correspond one for one.
pub open spec fn marks_tree(v: TreeV, t: FsTreeV) -> bool
    decreases t,
{
    match t {
        FsTreeV::File { name } => v == TreeV::Scalar(name) && !has_marker(name),
        FsTreeV::Dir { name, entries } => {
            if entries.len() == 0 {
                v == TreeV::Scalar(name.push(marker())) && has_marker(name.push(marker()))
            } else {
                &&& v matches TreeV::Mapping(pairs)
                &&& pairs.len() == 1
                &&& pairs[0].0 == name.push(marker())
                &&& has_marker(pairs[0].0)
                &&& pairs[0].1 matches TreeV::Sequence(items)
                &&& items.len() == entries.len()
                &&& forall|i: int| 0 <= i < entries.len() ==> marks_tree(items[i], entries[i])
            }
        },
    }
}

/// Marker invariant: in the capture of a well-formed tree, a name carries the
/// trailing separator marker exactly when the filesystem entry it names is a
/// directory.
pub proof fn lemma_capture_marks(t: FsTreeV)
    requires
        wf_tree(t),
    ensures
        marks_tree(capture_node_spec(t), t),
    decreases t,
{
    match t {
        FsTreeV::File { name } => {
            lemma_name_marker(name);
        },
        FsTreeV::Dir { name, entries } => {
            lemma_name_marker(name);
            if entries.len() > 0 {
                lemma_capture_forest_pointwise(entries);
                assert forall|i: int| 0 <= i < entries.len() implies marks_tree(
                    capture_forest_spec(entries)[i],
                    entries[i],
                ) by {
                    lemma_capture_marks(entries[i]);
                }
            }
        },
    }
}

/// Idempotence of capture: the captured value is a function of the probed
/// tree alone, so capturing an unchanged tree twice yields structurally equal
/// values.
pub proof fn lemma_capture_idempotent(
    probes: Seq<ProbeV>,
    r1: Result<TreeV, Error>,
    r2: Result<TreeV, Error>,
)
    requires
        r1 == capture_spec(probes),
        r2 == capture_spec(probes),
    ensures
        r1 == r2,
{
}

/// `b` holds everything `a` held, unchanged and in place: a file stays as it
/// is, a directory keeps its name and its entries as a prefix.
pub open spec fn extends(a: FsTreeV, b: FsTreeV) -> bool {
    match a {
        FsTreeV::File { .. } => b == a,
        FsTreeV::Dir { name, entries } => {
            &&& b matches FsTreeV::Dir { name: n2, entries: e2 }
            &&& n2 == name
            &&& e2.len() >= entries.len()
            &&& forall|i: int| 0 <= i < entries.len() ==> e2[i] == entries[i]
        },
    }
}

/// `extends` is transitive.
proof fn lemma_extends_trans(a: FsTreeV, b: FsTreeV, c: FsTreeV)
    requires
        extends(a, b),
        extends(b, c),
    ensures
        extends(a, c),
{
}

/// Materialization is non-overwriting: whatever the document value and
/// whatever the outcome, everything that stood in `ctx` before — including
/// the siblings created earlier in the same run — stands in the result
/// unchanged and in place; a failure only stops further creation.
pub proof fn lemma_materialize_extends(v: TreeV, ctx: FsTreeV)
    ensures
        extends(ctx, mat_value_spec(v, ctx).0),
    decreases v, 0int,
{
    match v {
        TreeV::Other => {},
        TreeV::Scalar(s) => {},
        TreeV::Sequence(items) => {
            lemma_mat_seq_extends(items, ctx);
        },
        TreeV::Mapping(pairs) => {
            lemma_mat_pairs_extends(pairs, ctx);
        },
    }
}

proof fn lemma_mat_seq_extends(items: Seq<TreeV>, ctx: FsTreeV)
    ensures
        extends(ctx, mat_seq_spec(items, ctx).0),
    decreases items, 1int,
{
    if items.len() > 0 {
        let (c1, e1) = mat_value_spec(items[0], ctx);
        lemma_materialize_extends(items[0], ctx);
        if !(e1 is Some) {
            lemma_mat_seq_extends(items.drop_first(), c1);
            lemma_extends_trans(ctx, c1, mat_seq_spec(items.drop_first(), c1).0);
        }
    }
}

proof fn lemma_mat_pairs_extends(pairs: Seq<(Seq<char>, TreeV)>, ctx: FsTreeV)
    ensures
        extends(ctx, mat_pairs_spec(pairs, ctx).0),
    decreases pairs, 2int,
{
    if pairs.len() > 0 {
        let (c1, e1) = mat_pair_spec(pairs[0].0, pairs[0].1, ctx);
        lemma_mat_pair_extends(pairs[0].0, pairs[0].1, ctx);
        if !(e1 is Some) {
            lemma_mat_pairs_extends(pairs.drop_first(), c1);
            lemma_extends_trans(ctx, c1, mat_pairs_spec(pairs.drop_first(), c1).0);
        }
    }
}

proof fn lemma_mat_pair_extends(k: Seq<char>, v: TreeV, ctx: FsTreeV)
    ensures
        extends(ctx, mat_pair_spec(k, v, ctx).0),
    decreases v, 1int,
{
}

/// The creation steps a tree entry itself calls for under `prefix`: its own
/// path — a directory step for a directory, a file step for a file — followed
/// by the steps of its children under that path.
pub open spec fn node_ops(t: FsTreeV, prefix: Seq<Seq<char>>) -> Seq<OpV>
    decreases t, 0int,
{
    match t {
        FsTreeV::File { name } => seq![OpV { path: prefix.push(name), dir: false }],
        FsTreeV::Dir { name, entries } => seq![OpV { path: prefix.push(name), dir: true }]
            + forest_ops(entries, prefix.push(name)),
    }
}

/// The creation steps of a sibling level, in order.
pub open spec fn forest_ops(ts: Seq<FsTreeV>, prefix: Seq<Seq<char>>) -> Seq<OpV>
    decreases ts, 1int,
{
    if ts.len() == 0 {
        Seq::empty()
    } else {
        node_ops(ts[0], prefix) + forest_ops(ts.drop_first(), prefix)
    }
}

/// The plan of a captured tree is the tree's own paths: every entry once,
/// directories as directory steps and files as file steps, each parent before
/// its children, siblings in capture order.
pub proof fn lemma_plan_of_capture_node(t: FsTreeV, prefix: Seq<Seq<char>>)
    requires
        wf_tree(t),
    ensures
        plan_value_spec(capture_node_spec(t), prefix) == node_ops(t, prefix),
    decreases t, 0int,
{
    match t {
        FsTreeV::File { name } => {
            lemma_name_marker(name);
            assert(plan_value_spec(capture_node_spec(t), prefix) =~= node_ops(t, prefix));
        },
        FsTreeV::Dir { name, entries } => {
            lemma_name_marker(name);
            let k = name.push(marker());
            let kp = prefix.push(name);
            if entries.len() == 0 {
                assert(forest_ops(entries, kp) =~= Seq::<OpV>::empty());
                assert(plan_value_spec(capture_node_spec(t), prefix) =~= node_ops(t, prefix));
            } else {
                let cs = capture_forest_spec(entries);
                let pairs = seq![(k, TreeV::Sequence(cs))];
                assert(capture_node_spec(t) == TreeV::Mapping(pairs));
                lemma_plan_of_capture_forest(entries, kp);
                assert(pairs.drop_first() =~= Seq::<(Seq<char>, TreeV)>::empty());
                assert(plan_pairs_spec(
                    Seq::<(Seq<char>, TreeV)>::empty(),
                    prefix,
                ) =~= Seq::<OpV>::empty());
                assert(plan_value_spec(TreeV::Sequence(cs), kp) == plan_items_spec(cs, kp));
                assert(plan_pairs_spec(pairs, prefix) =~= seq![OpV { path: kp, dir: true }]
                    + forest_ops(entries, kp));
                assert(plan_value_spec(capture_node_spec(t), prefix) =~= node_ops(t, prefix));
            }
        },
    }
}

/// The plan of a captured sibling level is the level's own paths, in order.
pub proof fn lemma_plan_of_capture_forest(ts: Seq<FsTreeV>, prefix: Seq<Seq<char>>)
    requires
        wf_forest(ts),
    ensures
        plan_items_spec(capture_forest_spec(ts), prefix) == forest_ops(ts, prefix),
    decreases ts, 1int,
{
    if ts.len() == 0 {
        assert(plan_items_spec(capture_forest_spec(ts), prefix) =~= forest_ops(ts, prefix));
    } else {
        let cs = capture_forest_spec(ts);
        assert(cs[0] == capture_node_spec(ts[0]));
        assert(cs.drop_first() =~= capture_forest_spec(ts.drop_first()));
        lemma_plan_of_capture_node(ts[0], prefix);
        lemma_plan_of_capture_forest(ts.drop_first(), prefix);
        assert(plan_items_spec(cs, prefix) =~= forest_ops(ts, prefix));
    }
}

/// Performing concatenated steps performs the first list, then — if nothing
/// failed — the second, from the state the first left.
proof fn lemma_apply_concat(a: Seq<OpV>, b: Seq<OpV>, root: FsTreeV)
    ensures
        apply_ops_spec(a + b, root) == ({
            let first = apply_ops_spec(a, root);
            if first.1 is Some {
                first
            } else {
                apply_ops_spec(b, first.0)
            }
        }),
    decreases a.len(),
{
    if a.len() == 0 {
        assert(a + b =~= b);
    } else {
        assert((a + b)[0] == a[0]);
        assert((a + b).drop_first() =~= a.drop_first() + b);
        let step = create_at_spec(a[0].path, a[0].dir, root);
        if !(step.1 is Some) {
            lemma_apply_concat(a.drop_first(), b, step.0);
        }
    }
}

/// A creation step never renames the entry it works inside.
proof fn lemma_create_at_keeps_name(path: Seq<Seq<char>>, dir: bool, ctx: FsTreeV)
    ensures
        entry_name(create_at_spec(path, dir, ctx).0) == entry_name(ctx),
        ctx is Dir ==> create_at_spec(path, dir, ctx).0 is Dir,
        ctx is File ==> create_at_spec(path, dir, ctx).0 is File,
{
}

/// Steps re-rooted under the entry named `n` of a directory do to that entry
/// exactly what the un-shifted steps do to it alone, and touch nothing else.
/// `i` is the position of the one entry named `n`.
proof fn lemma_apply_shifted(ops: Seq<OpV>, n: Seq<char>, dn: Seq<char>, es: Seq<FsTreeV>, i: int)
    requires
        0 <= i < es.len(),
        entry_name(es[i]) == n,
        forall|j: int| 0 <= j < es.len() && j != i ==> entry_name(es[j]) != n,
    ensures
        ({
            let inner = apply_ops_spec(ops, es[i]);
            apply_ops_spec(ops_shift(ops, n), FsTreeV::Dir { name: dn, entries: es }) == (
                FsTreeV::Dir { name: dn, entries: es.update(i, inner.0) },
                inner.1,
            )
        }),
    decreases ops.len(),
{
    let d = FsTreeV::Dir { name: dn, entries: es };
    if ops.len() == 0 {
        assert(ops_shift(ops, n) =~= Seq::<OpV>::empty());
        assert(es.update(i, es[i]) =~= es);
    } else {
        let shifted = ops_shift(ops, n);
        assert(shifted.len() == ops.len());
        assert(shifted[0] == OpV { path: seq![n] + ops[0].path, dir: ops[0].dir });
        assert(shifted.drop_first() =~= ops_shift(ops.drop_first(), n));
        let p = seq![n] + ops[0].path;
        assert(p[0] == n);
        assert(p.drop_first() =~= ops[0].path);
        assert(has_entry(es, n));
        let step = create_at_spec(p, ops[0].dir, d);
        let inner_step = create_at_spec(ops[0].path, ops[0].dir, es[i]);
        if p.len() == 1 {
            // The un-shifted path is empty: both sides fail at once.
            assert(ops[0].path.len() == 0);
            assert(step == (d, Option::<Error>::Some(Error::IOError)));
            match es[i] {
                FsTreeV::File { .. } => {
                    assert(inner_step == (es[i], Option::<Error>::Some(Error::IOError)));
                },
                FsTreeV::Dir { .. } => {
                    assert(inner_step == (es[i], Option::<Error>::Some(Error::IOError)));
                },
            }
            assert(es.update(i, es[i]) =~= es);
        } else {
            let ic = choose|ic: int| 0 <= ic < es.len() && entry_name(es[ic]) == p[0];
            assert(ic == i);
            assert(step == (
                FsTreeV::Dir { name: dn, entries: es.update(i, inner_step.0) },
                inner_step.1,
            ));
            if inner_step.1 is Some {
            } else {
                let es1 = es.update(i, inner_step.0);
                lemma_create_at_keeps_name(ops[0].path, ops[0].dir, es[i]);
                assert(entry_name(es1[i]) == n);
                lemma_apply_shifted(ops.drop_first(), n, dn, es1, i);
                let inner_rest = apply_ops_spec(ops.drop_first(), es1[i]);
                assert(es1.update(i, inner_rest.0) =~= es.update(i, inner_rest.0));
            }
        }
    }
}

/// A plan drawn up one directory deeper is the re-rooted plan.
proof fn lemma_plan_shift_value(v: TreeV, n: Seq<char>, prefix: Seq<Seq<char>>)
    ensures
        plan_value_spec(v, seq![n] + prefix) == ops_shift(plan_value_spec(v, prefix), n),
    decreases v, 0int,
{
    match v {
        TreeV::Other => {
            assert(plan_value_spec(v, seq![n] + prefix) =~= ops_shift(
                plan_value_spec(v, prefix),
                n,
            ));
        },
        TreeV::Scalar(s) => {
            assert((seq![n] + prefix).push(strip_marker_spec(s)) =~= seq![n] + prefix.push(
                strip_marker_spec(s),
            ));
            assert(plan_value_spec(v, seq![n] + prefix) =~= ops_shift(
                plan_value_spec(v, prefix),
                n,
            ));
        },
        TreeV::Sequence(items) => {
            lemma_plan_shift_items(items, n, prefix);
        },
        TreeV::Mapping(pairs) => {
            lemma_plan_shift_pairs(pairs, n, prefix);
        },
    }
}

proof fn lemma_plan_shift_items(items: Seq<TreeV>, n: Seq<char>, prefix: Seq<Seq<char>>)
    ensures
        plan_items_spec(items, seq![n] + prefix) == ops_shift(plan_items_spec(items, prefix), n),
    decreases items, 1int,
{
    if items.len() == 0 {
        assert(plan_items_spec(items, seq![n] + prefix) =~= ops_shift(
            plan_items_spec(items, prefix),
            n,
        ));
    } else {
        lemma_plan_shift_value(items[0], n, prefix);
        lemma_plan_shift_items(items.drop_first(), n, prefix);
        assert(plan_items_spec(items, seq![n] + prefix) =~= ops_shift(
            plan_items_spec(items, prefix),
            n,
        ));
    }
}

proof fn lemma_plan_shift_pairs(pairs: Seq<(Seq<char>, TreeV)>, n: Seq<char>, prefix: Seq<
    Seq<char>,
>)
    ensures
        plan_pairs_spec(pairs, seq![n] + prefix) == ops_shift(plan_pairs_spec(pairs, prefix), n),
    decreases pairs, 1int,
{
    if pairs.len() == 0 {
        assert(plan_pairs_spec(pairs, seq![n] + prefix) =~= ops_shift(
            plan_pairs_spec(pairs, prefix),
            n,
        ));
    } else {
        let k = pairs[0].0;
        let kp = prefix.push(strip_marker_spec(k));
        assert((seq![n] + prefix).push(strip_marker_spec(k)) =~= seq![n] + kp);
        lemma_plan_shift_value(pairs[0].1, n, kp);
        lemma_plan_shift_pairs(pairs.drop_first(), n, prefix);
        assert(plan_pairs_spec(pairs, seq![n] + prefix) =~= ops_shift(
            plan_pairs_spec(pairs, prefix),
            n,
        ));
    }
}

/// Performing the plan of `v`, step by step against the tree model, is the
/// materialization engine itself: the same tree comes out and the same
/// outcome, for every document value and every starting root.
pub proof fn lemma_plan_executes_materialize(v: TreeV, root: FsTreeV)
    ensures
        apply_ops_spec(plan_value_spec(v, Seq::empty()), root) == mat_value_spec(v, root),
    decreases v, 0int,
{
    match v {
        TreeV::Other => {},
        TreeV::Scalar(s) => {
            let p = Seq::<Seq<char>>::empty().push(strip_marker_spec(s));
            assert(p.len() == 1);
            assert(p[0] == strip_marker_spec(s));
            let ops = plan_value_spec(v, Seq::empty());
            assert(ops == seq![OpV { path: p, dir: has_marker(s) }]);
            assert(ops[0] == OpV { path: p, dir: has_marker(s) });
            assert(ops.drop_first() =~= Seq::<OpV>::empty());
            let step = create_at_spec(p, has_marker(s), root);
            match root {
                FsTreeV::File { .. } => {
                    assert(step == mat_create_spec(s, root));
                },
                FsTreeV::Dir { name, entries } => {
                    assert(step == mat_create_spec(s, root));
                },
            }
            let step2 = mat_create_spec(s, root);
            assert(step2 =~= (step2.0, step2.1));
            assert(apply_ops_spec(Seq::<OpV>::empty(), step.0) == (
                step.0,
                Option::<Error>::None,
            ));
            assert(apply_ops_spec(ops, root) == mat_create_spec(s, root));
        },
        TreeV::Sequence(items) => {
            lemma_plan_executes_mat_items(items, root);
        },
        TreeV::Mapping(pairs) => {
            lemma_plan_executes_mat_pairs(pairs, root);
        },
    }
}

proof fn lemma_plan_executes_mat_items(items: Seq<TreeV>, root: FsTreeV)
    ensures
        apply_ops_spec(plan_items_spec(items, Seq::empty()), root) == mat_seq_spec(items, root),
    decreases items, 1int,
{
    if items.len() == 0 {
        assert(plan_items_spec(items, Seq::empty()) =~= Seq::<OpV>::empty());
        assert(apply_ops_spec(Seq::<OpV>::empty(), root) == (root, Option::<Error>::None));
        assert(mat_seq_spec(items, root) == (root, Option::<Error>::None));
    } else {
        let a = plan_value_spec(items[0], Seq::empty());
        let b = plan_items_spec(items.drop_first(), Seq::empty());
        assert(plan_items_spec(items, Seq::empty()) == a + b);
        lemma_apply_concat(a, b, root);
        lemma_plan_executes_materialize(items[0], root);
        let first = mat_value_spec(items[0], root);
        assert(first =~= (first.0, first.1));
        assert(apply_ops_spec(a, root) == first);
        if first.1 is Some {
            assert(apply_ops_spec(a + b, root) == first);
            assert(mat_seq_spec(items, root) == first);
        } else {
            lemma_plan_executes_mat_items(items.drop_first(), first.0);
            assert(apply_ops_spec(a + b, root) == mat_seq_spec(items.drop_first(), first.0));
            assert(mat_seq_spec(items, root) == mat_seq_spec(items.drop_first(), first.0));
        }
    }
}

proof fn lemma_plan_executes_mat_pairs(pairs: Seq<(Seq<char>, TreeV)>, root: FsTreeV)
    ensures
        apply_ops_spec(plan_pairs_spec(pairs, Seq::empty()), root) == mat_pairs_spec(pairs, root),
    decreases pairs, 2int,
{
    if pairs.len() == 0 {
        assert(plan_pairs_spec(pairs, Seq::<Seq<char>>::empty()) =~= Seq::<OpV>::empty());
        assert(apply_ops_spec(Seq::<OpV>::empty(), root) == (root, Option::<Error>::None));
        assert(mat_pairs_spec(pairs, root) == (root, Option::<Error>::None));
        return ;
    }
    let k = pairs[0].0;
    let v0 = pairs[0].1;
    let nm = strip_marker_spec(k);
    let kp = Seq::<Seq<char>>::empty().push(nm);
    assert(kp.len() == 1);
    assert(kp[0] == nm);
    let op0 = OpV { path: kp, dir: has_marker(k) };
    let a = seq![op0];
    let b = plan_value_spec(v0, kp);
    let c = plan_pairs_spec(pairs.drop_first(), Seq::<Seq<char>>::empty());
    assert(plan_pairs_spec(pairs, Seq::empty()) == a + b + c);
    lemma_apply_concat(a + b, c, root);
    lemma_apply_concat(a, b, root);
    // One step: create the entry the key names.
    assert(a[0] == op0);
    assert(a.drop_first() =~= Seq::<OpV>::empty());
    let step = create_at_spec(kp, has_marker(k), root);
    let pair = mat_pair_spec(k, v0, root);
    assert(pair =~= (pair.0, pair.1));
    match root {
        FsTreeV::File { .. } => {
            assert(step == (root, Option::<Error>::Some(Error::IOError)));
            assert(apply_ops_spec(a, root) == step);
            assert(apply_ops_spec(a + b, root) == step);
            assert(apply_ops_spec(a + b + c, root) == step);
            assert(mat_pairs_spec(pairs, root) == step);
        },
        FsTreeV::Dir { name, entries } => {
            match new_entry_spec(k) {
                Result::Err(e) => {
                    assert(e == Error::IOError);
                    assert(step == (root, Option::<Error>::Some(Error::IOError)));
                    assert(apply_ops_spec(a, root) == step);
                    assert(apply_ops_spec(a + b, root) == step);
                    assert(apply_ops_spec(a + b + c, root) == step);
                    assert(pair == (root, Option::<Error>::Some(Error::IOError)));
                    assert(mat_pairs_spec(pairs, root) == step);
                },
                Result::Ok(child) => {
                    assert(entry_name(child) == nm);
                    if has_entry(entries, nm) {
                        assert(step == (root, Option::<Error>::Some(Error::IOError)));
                        assert(apply_ops_spec(a, root) == step);
                        assert(apply_ops_spec(a + b, root) == step);
                        assert(apply_ops_spec(a + b + c, root) == step);
                        assert(pair == (root, Option::<Error>::Some(Error::IOError)));
                        assert(mat_pairs_spec(pairs, root) == step);
                    } else {
                        let es1 = entries.push(child);
                        assert(step == (
                            FsTreeV::Dir { name, entries: es1 },
                            Option::<Error>::None,
                        ));
                        let d1 = FsTreeV::Dir { name, entries: es1 };
                        assert(apply_ops_spec(Seq::<OpV>::empty(), d1) == (
                            d1,
                            Option::<Error>::None,
                        ));
                        assert(apply_ops_spec(a, root) == (d1, Option::<Error>::None));
                        let i = es1.len() - 1;
                        assert(es1[i] == child);
                        assert forall|j: int| 0 <= j < es1.len() && j != i implies entry_name(
                            es1[j],
                        ) != nm by {
                            assert(es1[j] == entries[j]);
                            if entry_name(entries[j]) == nm {
                                assert(has_entry(entries, nm));
                            }
                        }
                        assert(seq![nm] + Seq::<Seq<char>>::empty() =~= kp);
                        lemma_plan_shift_value(v0, nm, Seq::empty());
                        assert(b == ops_shift(plan_value_spec(v0, Seq::empty()), nm));
                        lemma_plan_executes_materialize(v0, child);
                        lemma_apply_shifted(plan_value_spec(v0, Seq::empty()), nm, name, es1, i);
                        let filled = mat_value_spec(v0, child);
                        assert(es1.update(i, filled.0) =~= entries.push(filled.0));
                        let d2 = FsTreeV::Dir { name, entries: entries.push(filled.0) };
                        assert(apply_ops_spec(b, d1) == (d2, filled.1));
                        assert(apply_ops_spec(a + b, root) == (d2, filled.1));
                        assert(pair == (d2, filled.1));
                        if filled.1 is Some {
                            assert(apply_ops_spec(a + b + c, root) == (d2, filled.1));
                            assert(mat_pairs_spec(pairs, root) == pair);
                        } else {
                            lemma_plan_executes_mat_pairs(pairs.drop_first(), d2);
                            assert(apply_ops_spec(a + b + c, root) == mat_pairs_spec(
                                pairs.drop_first(),
                                d2,
                            ));
                            assert(mat_pairs_spec(pairs, root) == mat_pairs_spec(
                                pairs.drop_first(),
                                d2,
                            ));
                        }
                    }
                },
            }
        },
    }
}

/// Materializing a name that the directory already holds — marker aside —
/// fails with `IOError` and leaves the directory exactly as it was.
pub proof fn lemma_materialize_conflict(s: Seq<char>, dname: Seq<char>, es: Seq<FsTreeV>)
    requires
        has_entry(es, strip_marker_spec(s)),
    ensures
        mat_value_spec(TreeV::Scalar(s), FsTreeV::Dir { name: dname, entries: es }) == (
            FsTreeV::Dir { name: dname, entries: es },
            Option::Some(Error::IOError),
        ),
{
}

} // verus!
