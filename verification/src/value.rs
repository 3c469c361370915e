//! The generic tree-structured document value, and the naming convention that
//! tells files and directories apart.
//!
//! A name that ends in the separator marker `'/'` always denotes a directory
//! (empty directory as a `Scalar`, non-empty as a `Mapping` key); a name
//! without the marker always denotes a file.

use vstd::prelude::*;

verus! {

/// The document value: a recursive, closed sum type.
///
/// - `Scalar(name)`: a plain file (`"name"`) or an empty directory (`"name/"`).
/// - `Sequence(items)`: an ordered collection of siblings.
/// - `Mapping(entries)`: a non-empty directory; by convention a single entry
///   whose key is the directory name with the trailing marker and whose value
///   is the `Sequence` of its children.
/// - `Other`: any other document shape (a bare number, a boolean, a null);
///   materialization ignores it by explicit policy.
#[derive(Debug, PartialEq, Eq)]
pub enum TreeValue {
    Scalar(String),
    Sequence(Vec<TreeValue>),
    Mapping(Vec<(String, TreeValue)>),
    Other,
}

/// The mathematical model of a [`TreeValue`].
#[verifier::ext_equal]
pub enum TreeV {
    Scalar(Seq<char>),
    Sequence(Seq<TreeV>),
    Mapping(Seq<(Seq<char>, TreeV)>),
    Other,
}

/// The model of a [`TreeValue`], variant by variant.
pub open spec fn tree_view(v: TreeValue) -> TreeV
    decreases v,
{
    match v {
        TreeValue::Scalar(s) => TreeV::Scalar(s@),
        TreeValue::Sequence(items) => TreeV::Sequence(tree_seq_view(items@)),
        TreeValue::Mapping(entries) => TreeV::Mapping(tree_entries_view(entries@)),
        TreeValue::Other => TreeV::Other,
    }
}

pub open spec fn tree_seq_view(items: Seq<TreeValue>) -> Seq<TreeV>
    decreases items,
{
    if items.len() == 0 {
        Seq::empty()
    } else {
        seq![tree_view(items[0])] + tree_seq_view(items.drop_first())
    }
}

pub open spec fn tree_entries_view(entries: Seq<(String, TreeValue)>) -> Seq<(Seq<char>, TreeV)>
    decreases entries,
{
    if entries.len() == 0 {
        Seq::empty()
    } else {
        seq![(entries[0].0@, tree_view(entries[0].1))] + tree_entries_view(entries.drop_first())
    }
}

impl View for TreeValue {
    type V = TreeV;

    open spec fn view(&self) -> TreeV {
        tree_view(*self)
    }
}

/// `tree_entries_view` is a pointwise map.
pub proof fn lemma_tree_entries_view(entries: Seq<(String, TreeValue)>)
    ensures
        tree_entries_view(entries).len() == entries.len(),
        forall|i: int| 0 <= i < entries.len() ==> tree_entries_view(entries)[i]
            == (entries[i].0@, tree_view(entries[i].1)),
    decreases entries,
{
    if entries.len() > 0 {
        lemma_tree_entries_view(entries.drop_first());
    }
}

/// The separator marker that ends every directory name.
pub open spec fn marker() -> char {
    '/'
}

/// Whether `s` carries the trailing separator marker, i.e. denotes a directory.
pub open spec fn has_marker(s: Seq<char>) -> bool {
    s.len() > 0 && s.last() == marker()
}

/// `s` with a trailing separator marker removed, if it carries one.
pub open spec fn strip_marker_spec(s: Seq<char>) -> Seq<char> {
    if has_marker(s) {
        s.drop_last()
    } else {
        s
    }
}

/// A usable entry name: non-empty, free of the separator, and not one of the
/// two relative-path components.
pub open spec fn valid_name(s: Seq<char>) -> bool {
    &&& s.len() > 0
    &&& forall|i: int| 0 <= i < s.len() ==> s[i] != marker()
    &&& !(s.len() == 1 && s[0] == '.')
    &&& !(s.len() == 2 && s[0] == '.' && s[1] == '.')
}

/// Whether the name `s` ends with the separator marker.
pub fn name_has_marker(s: &str) -> (r: bool)
    ensures
        r == has_marker(s@),
{
    let n = s.unicode_len();
    n > 0 && s.get_char(n - 1) == '/'
}

/// The name `s` without its trailing separator marker, if it carries one.
pub fn strip_marker(s: &str) -> (r: String)
    ensures
        r@ == strip_marker_spec(s@),
{
    let n = s.unicode_len();
    if n > 0 && s.get_char(n - 1) == '/' {
        let t = s.substring_char(0, n - 1);
        proof {
            assert(t@ =~= s@.drop_last());
        }
        t.to_owned()
    } else {
        s.to_owned()
    }
}

/// The name `s` with the separator marker appended.
pub fn add_marker(s: &str) -> (r: String)
    ensures
        r@ == s@.push(marker()),
{
    let mut out = s.to_owned();
    out.append("/");
    proof {
        reveal_strlit("/");
        assert(out@ =~= s@.push(marker()));
    }
    out
}

/// Whether `s` is a usable entry name.
pub fn is_valid_name(s: &str) -> (r: bool)
    ensures
        r == valid_name(s@),
{
    let n = s.unicode_len();
    if n == 0 {
        return false;
    }
    let mut i: usize = 0;
    while i < n
        invariant
            0 <= i <= n,
            n == s@.len(),
            forall|j: int| 0 <= j < i ==> s@[j] != marker(),
        decreases n - i,
    {
        if s.get_char(i) == '/' {
            return false;
        }
        i = i + 1;
    }
    if n == 1 && s.get_char(0) == '.' {
        return false;
    }
    if n == 2 && s.get_char(0) == '.' && s.get_char(1) == '.' {
        return false;
    }
    true
}

} // verus!
