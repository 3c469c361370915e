//! The model of a directory tree: names and nesting only, no contents,
//! permissions or timestamps.

use vstd::prelude::*;
use crate::value::valid_name;

verus! {

/// One filesystem entry: a plain file, or a directory with its children in
/// enumeration order. Names are stored bare, without the separator marker.
#[derive(Debug, PartialEq, Eq)]
pub enum FsTree {
    File { name: String },
    Dir { name: String, entries: Vec<FsTree> },
}

/// The mathematical model of an [`FsTree`].
#[verifier::ext_equal]
pub enum FsTreeV {
    File { name: Seq<char> },
    Dir { name: Seq<char>, entries: Seq<FsTreeV> },
}

/// The model of an [`FsTree`], variant by variant.
pub open spec fn fs_view(t: FsTree) -> FsTreeV
    decreases t,
{
    match t {
        FsTree::File { name } => FsTreeV::File { name: name@ },
        FsTree::Dir { name, entries } => FsTreeV::Dir {
            name: name@,
            entries: fs_seq_view(entries@),
        },
    }
}

pub open spec fn fs_seq_view(ts: Seq<FsTree>) -> Seq<FsTreeV>
    decreases ts,
{
    if ts.len() == 0 {
        Seq::empty()
    } else {
        seq![fs_view(ts[0])] + fs_seq_view(ts.drop_first())
    }
}

impl View for FsTree {
    type V = FsTreeV;

    open spec fn view(&self) -> FsTreeV {
        fs_view(*self)
    }
}

/// `fs_seq_view` is a pointwise map.
pub proof fn lemma_fs_seq_view(ts: Seq<FsTree>)
    ensures
        fs_seq_view(ts).len() == ts.len(),
        forall|i: int| 0 <= i < ts.len() ==> fs_seq_view(ts)[i] == fs_view(ts[i]),
    decreases ts,
{
    if ts.len() > 0 {
        lemma_fs_seq_view(ts.drop_first());
    }
}

/// The bare name of an entry, file or directory alike.
pub open spec fn entry_name(t: FsTreeV) -> Seq<char> {
    match t {
        FsTreeV::File { name } => name,
        FsTreeV::Dir { name, .. } => name,
    }
}

/// Whether a directory's contents already hold an entry named `n`.
pub open spec fn has_entry(es: Seq<FsTreeV>, n: Seq<char>) -> bool {
    exists|i: int| 0 <= i < es.len() && entry_name(es[i]) == n
}

/// A well-formed tree: every name is usable, and names are unique among
/// siblings, as they are on a real filesystem.
pub open spec fn wf_tree(t: FsTreeV) -> bool
    decreases t,
{
    match t {
        FsTreeV::File { name } => valid_name(name),
        FsTreeV::Dir { name, entries } => valid_name(name) && wf_forest(entries),
    }
}

/// A well-formed sibling level: each tree well formed, names pairwise distinct.
pub open spec fn wf_forest(ts: Seq<FsTreeV>) -> bool
    decreases ts,
{
    &&& forall|i: int| 0 <= i < ts.len() ==> wf_tree(ts[i])
    &&& forall|i: int, j: int|
        0 <= i < j < ts.len() ==> entry_name(ts[i]) != entry_name(ts[j])
}

} // verus!
