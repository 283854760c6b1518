//! The directory-tree model that the whole library works on.
//!
//! A scan takes a snapshot of the directory tree it is about to walk and hands
//! it to this library as an [`FsNode`] value. Fallible reads are modelled
//! structurally: a directory whose entries could not be listed is
//! [`FsNode::UnreadableDir`] (it still *is* a directory, but shows no
//! children), and an entry that could not be inspected at all, or is neither a
//! regular file nor a directory, is [`FsNode::Other`]. Both contribute
//! nothing to any result, which is the tolerance policy of the scan: an
//! unreadable subtree never aborts a run, it is simply empty.

use vstd::prelude::*;

verus! {

/// One directory entry: its file name, as the raw bytes the platform reports,
/// and the node it leads to.
pub struct Entry {
    pub name: Vec<u8>,
    pub node: FsNode,
}

/// A snapshot of one node of the directory tree.
pub enum FsNode {
    /// A regular file and its length in bytes.
    File { size: u64 },
    /// A directory together with the entries that could be read from it.
    Dir { entries: Vec<Entry> },
    /// A directory that exists but whose entries could not be listed
    /// (permission denied, vanished between stat and read). Treated as a
    /// directory with no visible children.
    UnreadableDir,
    /// Anything else: symlink, device, socket, or an entry whose metadata
    /// could not be read. Never counted and never entered.
    Other,
}

/// Whether the node would answer `true` to "is a directory?".
pub open spec fn node_is_dir(n: FsNode) -> bool {
    n is Dir || n is UnreadableDir
}

/// Total number of bytes of the regular files in the subtree rooted at `n`.
pub open spec fn size_of(n: FsNode) -> nat
    decreases n,
{
    match n {
        FsNode::File { size } => size as nat,
        FsNode::Dir { entries } => size_from(entries@, 0),
        FsNode::UnreadableDir => 0,
        FsNode::Other => 0,
    }
}

/// Sum of [`size_of`] over the entries of `s` from position `i` on.
pub open spec fn size_from(s: Seq<Entry>, i: int) -> nat
    decreases s, s.len() - i,
{
    if i < 0 || i >= s.len() {
        0
    } else {
        size_of(s[i].node) + size_from(s, i + 1)
    }
}

/// Number of regular files in the subtree rooted at `n`.
pub open spec fn count_of(n: FsNode) -> nat
    decreases n,
{
    match n {
        FsNode::File { .. } => 1,
        FsNode::Dir { entries } => count_from(entries@, 0),
        FsNode::UnreadableDir => 0,
        FsNode::Other => 0,
    }
}

/// Sum of [`count_of`] over the entries of `s` from position `i` on.
pub open spec fn count_from(s: Seq<Entry>, i: int) -> nat
    decreases s, s.len() - i,
{
    if i < 0 || i >= s.len() {
        0
    } else {
        count_of(s[i].node) + count_from(s, i + 1)
    }
}

/// What walking `n` contributes in bytes: the subtree total when `n` is a
/// readable directory, and nothing otherwise — a path whose entries cannot
/// be listed, because it is missing, unreadable, or no directory at all,
/// contributes nothing.
pub open spec fn walk_size(n: FsNode) -> nat {
    match n {
        FsNode::Dir { .. } => size_of(n),
        _ => 0,
    }
}

/// What walking `n` contributes in files counted: the subtree count when
/// `n` is a readable directory, and nothing otherwise.
pub open spec fn walk_count(n: FsNode) -> nat {
    match n {
        FsNode::Dir { .. } => count_of(n),
        _ => 0,
    }
}

/// The node of the first entry of `s`, at position `i` or later, whose name is
/// `name`; [`FsNode::Other`] when there is none. `Other` is exactly "nothing
/// to see here", so a missing child and an uninspectable child read the same.
pub open spec fn first_named(s: Seq<Entry>, name: Seq<u8>, i: int) -> FsNode
    decreases s.len() - i,
{
    if i < 0 || i >= s.len() {
        FsNode::Other
    } else if s[i].name@ == name {
        s[i].node
    } else {
        first_named(s, name, i + 1)
    }
}

/// The node the child named `name` of `n` leads to; [`FsNode::Other`] when
/// `n` is not a readable directory or has no such child.
pub open spec fn child_named(n: FsNode, name: Seq<u8>) -> FsNode {
    match n {
        FsNode::Dir { entries } => first_named(entries@, name, 0),
        _ => FsNode::Other,
    }
}

/// A well-formed snapshot: within each directory the entry names are
/// distinct, as they are in any real directory.
pub open spec fn wf(n: FsNode) -> bool
    decreases n,
{
    match n {
        FsNode::Dir { entries } => {
            &&& forall|j: int, k: int|
                0 <= j < k < entries@.len() ==> entries@[j].name@ != entries@[k].name@
            &&& forall|k: int| 0 <= k < entries@.len() ==> wf(#[trigger] entries@[k].node)
        },
        _ => true,
    }
}

/// The deep view of a byte vector is its view: bytes view to themselves.
pub proof fn lemma_bytes_deep_view(b: Vec<u8>)
    ensures
        b.deep_view() == b@,
{
    assert(b.deep_view() =~= b@);
}

/// Pushing one component onto a path pushes its view onto the path's view.
pub proof fn lemma_path_push(pre: Vec<Vec<u8>>, post: Vec<Vec<u8>>, c: Vec<u8>)
    requires
        post@ == pre@.push(c),
    ensures
        post.deep_view() == pre.deep_view().push(c@),
{
    lemma_bytes_deep_view(c);
    assert forall|k: int| 0 <= k < post@.len() implies post.deep_view()[k] == pre.deep_view().push(
        c@,
    )[k] by {
        if k < pre@.len() {
            assert(post@[k] == pre@[k]);
        } else {
            assert(post@[k] == c);
        }
    }
    assert(post.deep_view() =~= pre.deep_view().push(c@));
}

/// A structural size of the subtree at `n`, used as the termination measure
/// of the executable recursions over the tree.
pub open spec fn weight(n: FsNode) -> nat
    decreases n,
{
    match n {
        FsNode::Dir { entries } => 1 + weight_from(entries@, 0),
        _ => 1,
    }
}

/// Sum of [`weight`] over the entries of `s` from position `i` on.
pub open spec fn weight_from(s: Seq<Entry>, i: int) -> nat
    decreases s, s.len() - i,
{
    if i < 0 || i >= s.len() {
        0
    } else {
        weight(s[i].node) + weight_from(s, i + 1)
    }
}

/// Each entry of a directory weighs no more than the tail of entries it
/// stands in, so stepping into a child strictly shrinks the measure.
pub proof fn lemma_weight_entry(s: Seq<Entry>, j: int, i: int)
    requires
        0 <= j <= i < s.len(),
    ensures
        weight(s[i].node) <= weight_from(s, j),
    decreases i - j,
{
    if j < i {
        lemma_weight_entry(s, j + 1, i);
    }
}

/// The node that the chain of entry names `path[i..]` leads to from `n`:
/// each component steps to the child of that name. A component that leads
/// nowhere yields [`FsNode::Other`], which no further component leaves.
pub open spec fn resolve_from(n: FsNode, path: Seq<Seq<u8>>, i: int) -> FsNode
    decreases path.len() - i,
{
    if i < 0 || i >= path.len() {
        n
    } else {
        resolve_from(child_named(n, path[i]), path, i + 1)
    }
}

/// The file name of the build-artifact directory, `"target"`, as bytes.
pub open spec fn target_name() -> Seq<u8> {
    seq![116u8, 97u8, 114u8, 103u8, 101u8, 116u8]
}

/// The manifest file name `"Cargo.toml"`, as bytes.
pub open spec fn cargo_toml_name() -> Seq<u8> {
    seq![67u8, 97u8, 114u8, 103u8, 111u8, 46u8, 116u8, 111u8, 109u8, 108u8]
}

/// The lower-case manifest file name `"cargo.toml"`, as bytes.
pub open spec fn cargo_toml_lower_name() -> Seq<u8> {
    seq![99u8, 97u8, 114u8, 103u8, 111u8, 46u8, 116u8, 111u8, 109u8, 108u8]
}

/// The bytes of `"target"`.
pub fn target_bytes() -> (r: Vec<u8>)
    ensures
        r@ == target_name(),
{
    let mut v: Vec<u8> = Vec::new();
    v.push(116u8);  // 't'
    v.push(97u8);  // 'a'
    v.push(114u8);  // 'r'
    v.push(103u8);  // 'g'
    v.push(101u8);  // 'e'
    v.push(116u8);  // 't'
    proof {
        assert(v@ =~= target_name());
    }
    v
}

/// The bytes of `"Cargo.toml"`.
pub fn cargo_toml_bytes() -> (r: Vec<u8>)
    ensures
        r@ == cargo_toml_name(),
{
    let mut v: Vec<u8> = Vec::new();
    v.push(67u8);  // 'C'
    v.push(97u8);  // 'a'
    v.push(114u8);  // 'r'
    v.push(103u8);  // 'g'
    v.push(111u8);  // 'o'
    v.push(46u8);  // '.'
    v.push(116u8);  // 't'
    v.push(111u8);  // 'o'
    v.push(109u8);  // 'm'
    v.push(108u8);  // 'l'
    proof {
        assert(v@ =~= cargo_toml_name());
    }
    v
}

/// The bytes of `"cargo.toml"`.
pub fn cargo_toml_lower_bytes() -> (r: Vec<u8>)
    ensures
        r@ == cargo_toml_lower_name(),
{
    let mut v: Vec<u8> = Vec::new();
    v.push(99u8);  // 'c'
    v.push(97u8);  // 'a'
    v.push(114u8);  // 'r'
    v.push(103u8);  // 'g'
    v.push(111u8);  // 'o'
    v.push(46u8);  // '.'
    v.push(116u8);  // 't'
    v.push(111u8);  // 'o'
    v.push(109u8);  // 'm'
    v.push(108u8);  // 'l'
    proof {
        assert(v@ =~= cargo_toml_lower_name());
    }
    v
}

/// Byte-wise equality of two names.
pub fn bytes_eq(a: &Vec<u8>, b: &Vec<u8>) -> (r: bool)
    ensures
        r == (a@ == b@),
{
    if a.len() != b.len() {
        return false;
    }
    let mut i: usize = 0;
    while i < a.len()
        invariant
            a.len() == b.len(),
            0 <= i <= a.len(),
            forall|k: int| 0 <= k < i ==> a@[k] == b@[k],
        decreases a.len() - i,
    {
        if a[i] != b[i] {
            return false;
        }
        i = i + 1;
    }
    proof {
        assert(a@ =~= b@);
    }
    true
}

/// A copy of a name, equal byte for byte.
pub fn clone_bytes(a: &Vec<u8>) -> (r: Vec<u8>)
    ensures
        r@ == a@,
{
    let mut v: Vec<u8> = Vec::new();
    let mut i: usize = 0;
    while i < a.len()
        invariant
            0 <= i <= a.len(),
            v@ =~= a@.subrange(0, i as int),
        decreases a.len() - i,
    {
        v.push(a[i]);
        i = i + 1;
    }
    proof {
        assert(v@ =~= a@);
    }
    v
}

/// The first child of `entries` named `name`, by reference;
/// `None` exactly when no entry carries that name.
pub fn find_child<'a>(entries: &'a Vec<Entry>, name: &Vec<u8>) -> (r: Option<&'a FsNode>)
    ensures
        match r {
            Some(c) => first_named(entries@, name@, 0) == *c,
            None => {
                &&& forall|k: int| 0 <= k < entries@.len() ==> entries@[k].name@ != name@
                &&& first_named(entries@, name@, 0) is Other
            },
        },
{
    let mut i: usize = 0;
    while i < entries.len()
        invariant
            0 <= i <= entries.len(),
            first_named(entries@, name@, 0) == first_named(entries@, name@, i as int),
            forall|k: int| 0 <= k < i ==> entries@[k].name@ != name@,
        decreases entries.len() - i,
    {
        if bytes_eq(&entries[i].name, name) {
            return Some(&entries[i].node);
        }
        i = i + 1;
    }
    None
}

} // verus!
