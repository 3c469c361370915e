//! The capture engine: from a probed directory tree to a document value.
//!
//! The filesystem walk itself — which paths exist, what kind of entry each one
//! is, what a directory enumeration returned — is pure input/output and lives
//! outside the library. It hands the engine a [`Probe`] per path: the raw
//! outcome of that walk, names still undecoded where decoding failed. The
//! engine decides everything from there: which error a defective probe earns,
//! and what document value a sound tree becomes.

use vstd::prelude::*;
use crate::error::Error;
use crate::fs_model::{FsTree, FsTreeV, fs_view, fs_seq_view};
use crate::value::{
    TreeValue, TreeV, tree_view, tree_seq_view, tree_entries_view, lemma_tree_entries_view,
    valid_name, add_marker,
    is_valid_name, marker,
};

verus! {

/// The raw outcome of probing one path: a file, a directory with the outcome
/// of its enumeration, or nothing usable at that path. A name is `None` when
/// it could not be extracted or decoded as text; `entries` is `None` when the
/// enumeration could not read the directory.
#[derive(Debug, PartialEq, Eq)]
pub enum Probe {
    File { name: Option<String> },
    Dir { name: Option<String>, entries: Option<Vec<Probe>> },
    Missing { name: Option<String> },
}

/// The mathematical model of a [`Probe`].
#[verifier::ext_equal]
pub enum ProbeV {
    File { name: Option<Seq<char>> },
    Dir { name: Option<Seq<char>>, entries: Option<Seq<ProbeV>> },
    Missing { name: Option<Seq<char>> },
}

pub open spec fn opt_name_view(name: Option<String>) -> Option<Seq<char>> {
    match name {
        Option::None => Option::None,
        Option::Some(s) => Option::Some(s@),
    }
}

/// The model of a [`Probe`], variant by variant.
pub open spec fn probe_view(p: Probe) -> ProbeV
    decreases p,
{
    match p {
        Probe::File { name } => ProbeV::File { name: opt_name_view(name) },
        Probe::Dir { name, entries } => ProbeV::Dir {
            name: opt_name_view(name),
            entries: match entries {
                Option::None => Option::None,
                Option::Some(ps) => Option::Some(probe_seq_view(ps@)),
            },
        },
        Probe::Missing { name } => ProbeV::Missing { name: opt_name_view(name) },
    }
}

pub open spec fn probe_seq_view(ps: Seq<Probe>) -> Seq<ProbeV>
    decreases ps,
{
    if ps.len() == 0 {
        Seq::empty()
    } else {
        seq![probe_view(ps[0])] + probe_seq_view(ps.drop_first())
    }
}

impl View for Probe {
    type V = ProbeV;

    open spec fn view(&self) -> ProbeV {
        probe_view(*self)
    }
}

/// What a probed name resolves to: the name itself, or `InvalidPath` when it
/// is absent, not decodable, or not a usable entry name.
pub open spec fn name_check(name: Option<Seq<char>>) -> Result<Seq<char>, Error> {
    match name {
        Option::None => Result::Err(Error::InvalidPath),
        Option::Some(n) => if valid_name(n) {
            Result::Ok(n)
        } else {
            Result::Err(Error::InvalidPath)
        },
    }
}

/// What one probe resolves to. The name is examined first, as it is the first
/// thing read off a path; then the kind of the entry; then, for a directory,
/// its enumeration and its children in order. The first defect aborts.
pub open spec fn resolve_spec(p: ProbeV) -> Result<FsTreeV, Error>
    decreases p, 0int,
{
    match p {
        ProbeV::File { name } => match name_check(name) {
            Result::Ok(n) => Result::Ok(FsTreeV::File { name: n }),
            Result::Err(e) => Result::Err(e),
        },
        ProbeV::Missing { name } => match name_check(name) {
            Result::Ok(_) => Result::Err(Error::NotFound),
            Result::Err(e) => Result::Err(e),
        },
        ProbeV::Dir { name, entries } => match name_check(name) {
            Result::Err(e) => Result::Err(e),
            Result::Ok(n) => match entries {
                Option::None => Result::Err(Error::IOError),
                Option::Some(ps) => match resolve_seq_spec(ps) {
                    Result::Ok(ts) => Result::Ok(FsTreeV::Dir { name: n, entries: ts }),
                    Result::Err(e) => Result::Err(e),
                },
            },
        },
    }
}

/// What a sibling list of probes resolves to, in order, aborting on the first
/// defect.
pub open spec fn resolve_seq_spec(ps: Seq<ProbeV>) -> Result<Seq<FsTreeV>, Error>
    decreases ps, 1int,
{
    if ps.len() == 0 {
        Result::Ok(Seq::empty())
    } else {
        match resolve_spec(ps[0]) {
            Result::Err(e) => Result::Err(e),
            Result::Ok(t) => match resolve_seq_spec(ps.drop_first()) {
                Result::Err(e) => Result::Err(e),
                Result::Ok(ts) => Result::Ok(seq![t] + ts),
            },
        }
    }
}

/// The document value a resolved tree captures to: a file is a scalar of its
/// name; an empty directory is a scalar of its name with the separator marker;
/// a non-empty directory is a single-entry mapping from its marked name to the
/// sequence of its captured children, in enumeration order.
pub open spec fn capture_node_spec(t: FsTreeV) -> TreeV
    decreases t, 0int,
{
    match t {
        FsTreeV::File { name } => TreeV::Scalar(name),
        FsTreeV::Dir { name, entries } => {
            if entries.len() == 0 {
                TreeV::Scalar(name.push(marker()))
            } else {
                TreeV::Mapping(
                    seq![(name.push(marker()), TreeV::Sequence(capture_forest_spec(entries)))],
                )
            }
        },
    }
}

/// The captured values of a sibling list, in order.
pub open spec fn capture_forest_spec(ts: Seq<FsTreeV>) -> Seq<TreeV>
    decreases ts, 1int,
{
    if ts.len() == 0 {
        Seq::empty()
    } else {
        seq![capture_node_spec(ts[0])] + capture_forest_spec(ts.drop_first())
    }
}

/// What capturing a list of probed paths yields: the sequence of the captured
/// per-path values, or the first error the resolution meets.
pub open spec fn capture_spec(ps: Seq<ProbeV>) -> Result<TreeV, Error> {
    match resolve_seq_spec(ps) {
        Result::Ok(ts) => Result::Ok(TreeV::Sequence(capture_forest_spec(ts))),
        Result::Err(e) => Result::Err(e),
    }
}

/// Checks a probed name: present, decodable and usable, or `InvalidPath`.
fn resolve_name(name: &Option<String>) -> (r: Result<String, Error>)
    ensures
        (match r {
            Result::Ok(s) => name_check(opt_name_view(*name)) == Result::Ok::<Seq<char>, Error>(s@),
            Result::Err(e) => name_check(opt_name_view(*name)) == Result::Err::<Seq<char>, Error>(e),
        }),
{
    match name {
        Option::None => Result::Err(Error::InvalidPath),
        Option::Some(s) => {
            if is_valid_name(s.as_str()) {
                Result::Ok(s.clone())
            } else {
                Result::Err(Error::InvalidPath)
            }
        },
    }
}

/// Resolves one probe into a tree entry, or the first error of the probe.
pub fn resolve(p: &Probe) -> (r: Result<FsTree, Error>)
    ensures
        (match r {
            Result::Ok(t) => resolve_spec(p@) == Result::Ok::<FsTreeV, Error>(t@),
            Result::Err(e) => resolve_spec(p@) == Result::Err::<FsTreeV, Error>(e),
        }),
    decreases *p, 0int,
{
    match p {
        Probe::File { name } => match resolve_name(name) {
            Result::Ok(n) => Result::Ok(FsTree::File { name: n }),
            Result::Err(e) => Result::Err(e),
        },
        Probe::Missing { name } => match resolve_name(name) {
            Result::Ok(_) => Result::Err(Error::NotFound),
            Result::Err(e) => Result::Err(e),
        },
        Probe::Dir { name, entries } => {
            let n = match resolve_name(name) {
                Result::Ok(n) => n,
                Result::Err(e) => {
                    return Result::Err(e);
                },
            };
            match entries {
                Option::None => Result::Err(Error::IOError),
                Option::Some(ps) => {
                    proof {
                        assert(ps@.skip(0) =~= ps@);
                    }
                    match resolve_rest(ps, 0) {
                        Result::Err(e) => Result::Err(e),
                        Result::Ok(ts) => Result::Ok(FsTree::Dir { name: n, entries: ts }),
                    }
                },
            }
        },
    }
}

/// Resolves the probes of `ps` from position `i` on, in order.
fn resolve_rest(ps: &Vec<Probe>, i: usize) -> (r: Result<Vec<FsTree>, Error>)
    requires
        i <= ps@.len(),
    ensures
        (match r {
            Result::Ok(ts) => resolve_seq_spec(probe_seq_view(ps@.skip(i as int)))
                == Result::Ok::<Seq<FsTreeV>, Error>(fs_seq_view(ts@)),
            Result::Err(e) => resolve_seq_spec(probe_seq_view(ps@.skip(i as int)))
                == Result::Err::<Seq<FsTreeV>, Error>(e),
        }),
    decreases *ps, ps@.len() - i,
{
    if i == ps.len() {
        proof {
            assert(ps@.skip(i as int) =~= Seq::<Probe>::empty());
        }
        return Result::Ok(Vec::new());
    }
    let ghost pvs = probe_seq_view(ps@.skip(i as int));
    proof {
        assert(ps@.skip(i as int)[0] == ps@[i as int]);
        assert(ps@.skip(i as int).drop_first() =~= ps@.skip(i as int + 1));
        assert(pvs == seq![probe_view(ps@[i as int])] + probe_seq_view(ps@.skip(i as int + 1)));
        assert(pvs[0] == probe_view(ps@[i as int]));
        assert(pvs.drop_first() =~= probe_seq_view(ps@.skip(i as int + 1)));
    }
    match resolve(&ps[i]) {
        Result::Err(e) => Result::Err(e),
        Result::Ok(t) => match resolve_rest(ps, i + 1) {
            Result::Err(e) => Result::Err(e),
            Result::Ok(ts) => {
                let ghost t0 = t@;
                let ghost ts0 = ts@;
                let mut out: Vec<FsTree> = Vec::new();
                out.push(t);
                let mut rest = ts;
                out.append(&mut rest);
                proof {
                    assert(out@[0]@ == t0);
                    assert(out@.drop_first() =~= ts0);
                    assert(fs_seq_view(out@) == seq![t0] + fs_seq_view(ts0));
                }
                Result::Ok(out)
            },
        },
    }
}

/// Captures one resolved tree entry into its document value.
pub fn capture_tree(t: &FsTree) -> (r: TreeValue)
    ensures
        r@ == capture_node_spec(t@),
    decreases *t, 0int,
{
    match t {
        FsTree::File { name } => TreeValue::Scalar(name.clone()),
        FsTree::Dir { name, entries } => {
            if entries.len() == 0 {
                TreeValue::Scalar(add_marker(name.as_str()))
            } else {
                let items = capture_forest(entries, 0);
                let key = add_marker(name.as_str());
                let mut pairs: Vec<(String, TreeValue)> = Vec::new();
                pairs.push((key, TreeValue::Sequence(items)));
                proof {
                    assert(entries@.skip(0) =~= entries@);
                    lemma_tree_entries_view(pairs@);
                    assert(tree_entries_view(pairs@) =~= seq![
                        (pairs@[0].0@, tree_view(pairs@[0].1)),
                    ]);
                }
                TreeValue::Mapping(pairs)
            }
        },
    }
}

/// Captures the entries of `ts` from position `i` on, in order.
fn capture_forest(ts: &Vec<FsTree>, i: usize) -> (r: Vec<TreeValue>)
    requires
        i <= ts@.len(),
    ensures
        tree_seq_view(r@) == capture_forest_spec(fs_seq_view(ts@.skip(i as int))),
    decreases *ts, ts@.len() - i,
{
    if i == ts.len() {
        proof {
            assert(ts@.skip(i as int) =~= Seq::<FsTree>::empty());
        }
        return Vec::new();
    }
    let ghost fvs = fs_seq_view(ts@.skip(i as int));
    proof {
        assert(ts@.skip(i as int)[0] == ts@[i as int]);
        assert(ts@.skip(i as int).drop_first() =~= ts@.skip(i as int + 1));
        assert(fvs == seq![fs_view(ts@[i as int])] + fs_seq_view(ts@.skip(i as int + 1)));
        assert(fvs[0] == fs_view(ts@[i as int]));
        assert(fvs.drop_first() =~= fs_seq_view(ts@.skip(i as int + 1)));
    }
    let first = capture_tree(&ts[i]);
    let rest = capture_forest(ts, i + 1);
    let ghost first0 = first@;
    let ghost rest0 = rest@;
    let mut out: Vec<TreeValue> = Vec::new();
    out.push(first);
    let mut tail = rest;
    out.append(&mut tail);
    proof {
        assert(out@[0]@ == first0);
        assert(out@.drop_first() =~= rest0);
        assert(tree_seq_view(out@) == seq![first0] + tree_seq_view(rest0));
        assert(tree_seq_view(out@) =~= capture_forest_spec(fvs));
    }
    out
}

/// Captures a list of probed paths into one document value: always a sequence
/// of the per-path values, even for a single path. Fails with the first error
/// the walk's outcome carries: `InvalidPath` for an unusable name, `NotFound`
/// for a path that is neither file nor directory, `IOError` for a directory
/// that could not be enumerated.
pub fn capture(probes: &Vec<Probe>) -> (r: Result<TreeValue, Error>)
    ensures
        (match r {
            Result::Ok(v) => capture_spec(probe_seq_view(probes@))
                == Result::Ok::<TreeV, Error>(v@),
            Result::Err(e) => capture_spec(probe_seq_view(probes@))
                == Result::Err::<TreeV, Error>(e),
        }),
{
    proof {
        assert(probes@.skip(0) =~= probes@);
    }
    match resolve_rest(probes, 0) {
        Result::Err(e) => Result::Err(e),
        Result::Ok(ts) => {
            let items = capture_forest(&ts, 0);
            proof {
                assert(ts@.skip(0) =~= ts@);
            }
            Result::Ok(TreeValue::Sequence(items))
        },
    }
}

} // verus!
