//! Discovery of project roots in a directory tree.
//!
//! A depth-first walk evaluates the project predicate at every directory it
//! reaches, starting at the root. A directory that matches is recorded and
//! its inside is not scanned further (stop-on-match pruning), so nothing
//! below a project — its `target` directory in particular — can ever be
//! reported as a second project.

use vstd::prelude::*;

use crate::tree::{
    lemma_bytes_deep_view, lemma_path_push,
    bytes_eq, cargo_toml_bytes, cargo_toml_lower_bytes, cargo_toml_lower_name, cargo_toml_name,
    clone_bytes, lemma_weight_entry, node_is_dir, target_bytes, target_name, weight, weight_from,
    Entry, FsNode,
};

verus! {

/// Whether some entry of `s` is a regular file named `name`.
pub open spec fn has_file_entry(s: Seq<Entry>, name: Seq<u8>) -> bool {
    exists|k: int| 0 <= k < s.len() && s[k].name@ == name && s[k].node is File
}

/// Whether some entry of `s` is a directory named `name`.
pub open spec fn has_dir_entry(s: Seq<Entry>, name: Seq<u8>) -> bool {
    exists|k: int| 0 <= k < s.len() && s[k].name@ == name && node_is_dir(s[k].node)
}

/// The project predicate: `n` is a readable directory that directly contains
/// a regular file named `Cargo.toml` or `cargo.toml` and directly contains a
/// directory named `target`. Both manifest spellings are checked
/// unconditionally; a manifest without a `target` directory does not qualify.
pub open spec fn is_project(n: FsNode) -> bool {
    match n {
        FsNode::Dir { entries } => (has_file_entry(entries@, cargo_toml_name())
            || has_file_entry(entries@, cargo_toml_lower_name())) && has_dir_entry(
            entries@,
            target_name(),
        ),
        _ => false,
    }
}

/// Decides the project predicate for one node.
pub fn is_cargo_object(path: &FsNode) -> (r: bool)
    ensures
        r == is_project(*path),
{
    match path {
        FsNode::Dir { entries } => {
            let upper = cargo_toml_bytes();
            let lower = cargo_toml_lower_bytes();
            let target = target_bytes();
            let mut has_manifest = false;
            let mut has_target = false;
            let mut i: usize = 0;
            while i < entries.len()
                invariant
                    0 <= i <= entries.len(),
                    upper@ == cargo_toml_name(),
                    lower@ == cargo_toml_lower_name(),
                    target@ == target_name(),
                    has_manifest == (exists|k: int|
                        0 <= k < i && (entries@[k].name@ == cargo_toml_name() || entries@[k].name@
                            == cargo_toml_lower_name()) && entries@[k].node is File),
                    has_target == (exists|k: int|
                        0 <= k < i && entries@[k].name@ == target_name() && node_is_dir(
                            entries@[k].node,
                        )),
                decreases entries.len() - i,
            {
                let e = &entries[i];
                let is_file = match e.node {
                    FsNode::File { .. } => true,
                    _ => false,
                };
                let is_dir = match e.node {
                    FsNode::Dir { .. } => true,
                    FsNode::UnreadableDir => true,
                    _ => false,
                };
                if is_file && (bytes_eq(&e.name, &upper) || bytes_eq(&e.name, &lower)) {
                    has_manifest = true;
                }
                if is_dir && bytes_eq(&e.name, &target) {
                    has_target = true;
                }
                i = i + 1;
            }
            has_manifest && has_target
        },
        _ => false,
    }
}

/// The paths (chains of entry names, relative to the scanned root) of the
/// project roots found in the subtree at `n`, where `n` itself stands at
/// path `at`: `at` alone when `n` matches the predicate, and otherwise
/// whatever the children of `n` yield, in entry order.
pub open spec fn find_spec(n: FsNode, at: Seq<Seq<u8>>) -> Seq<Seq<Seq<u8>>>
    decreases n,
{
    if is_project(n) {
        seq![at]
    } else {
        match n {
            FsNode::Dir { entries } => find_from(entries@, at, 0),
            _ => Seq::empty(),
        }
    }
}

/// Concatenation of [`find_spec`] over the entries of `s` from position `i`
/// on, each child walked at its own path `at.push(name)`.
pub open spec fn find_from(s: Seq<Entry>, at: Seq<Seq<u8>>, i: int) -> Seq<Seq<Seq<u8>>>
    decreases s, s.len() - i,
{
    if i < 0 || i >= s.len() {
        Seq::empty()
    } else {
        find_spec(s[i].node, at.push(s[i].name@)) + find_from(s, at, i + 1)
    }
}

/// A copy of a path, equal component for component.
pub fn clone_path(p: &Vec<Vec<u8>>) -> (r: Vec<Vec<u8>>)
    ensures
        r.deep_view() == p.deep_view(),
{
    let mut v: Vec<Vec<u8>> = Vec::new();
    let mut i: usize = 0;
    while i < p.len()
        invariant
            0 <= i <= p.len(),
            v.deep_view() =~= p.deep_view().subrange(0, i as int),
        decreases p.len() - i,
    {
        let c = clone_bytes(&p[i]);
        let ghost vpre = v;
        v.push(c);
        proof {
            lemma_path_push(vpre, v, c);
            lemma_bytes_deep_view(p@[i as int]);
            assert(v.deep_view() =~= p.deep_view().subrange(0, i + 1));
        }
        i = i + 1;
    }
    proof {
        assert(v.deep_view() =~= p.deep_view());
    }
    v
}

/// Walks the whole tree below (and including) `root` and collects the path
/// of every project root, depth-first, pruning at each match. The result is
/// a function of the tree alone: scanning the same tree again yields the
/// same paths in the same order.
pub fn find_cargo_projects(root: &FsNode) -> (r: Vec<Vec<Vec<u8>>>)
    ensures
        r.deep_view() == find_spec(*root, Seq::empty()),
{
    let mut project_paths: Vec<Vec<Vec<u8>>> = Vec::new();
    let at: Vec<Vec<u8>> = Vec::new();
    proof {
        assert(at.deep_view() =~= Seq::<Seq<u8>>::empty());
    }
    recursive_find_projects(root, at, &mut project_paths);
    proof {
        assert(Seq::<Seq<Seq<u8>>>::empty() + find_spec(*root, Seq::empty()) =~= find_spec(
            *root,
            Seq::empty(),
        ));
    }
    project_paths
}

/// Whether path `p` is a (not necessarily strict) prefix of path `q`.
pub open spec fn is_prefix(p: Seq<Seq<u8>>, q: Seq<Seq<u8>>) -> bool {
    p.len() <= q.len() && p == q.subrange(0, p.len() as int)
}

/// No reported path is a prefix of another: each project stands on its own.
pub open spec fn prefix_free(r: Seq<Seq<Seq<u8>>>) -> bool {
    forall|x: int, y: int|
        0 <= x < r.len() && 0 <= y < r.len() && x != y ==> !is_prefix(r[x], r[y])
}

/// A prefix of a prefix is a prefix.
proof fn lemma_prefix_trans(p: Seq<Seq<u8>>, q: Seq<Seq<u8>>, r: Seq<Seq<u8>>)
    requires
        is_prefix(p, q),
        is_prefix(q, r),
    ensures
        is_prefix(p, r),
{
    assert forall|m: int| 0 <= m < p.len() implies r.subrange(0, p.len() as int)[m] == p[m] by {
        assert(q[m] == q.subrange(0, p.len() as int)[m]);
        assert(r[m] == r.subrange(0, q.len() as int)[m]);
    }
    assert(r.subrange(0, p.len() as int) =~= p);
}

/// Stop-on-match pruning, stated: the walk does not descend into a
/// directory that satisfies the predicate, so the subtree of a project —
/// its artifact directory included — yields exactly the project itself,
/// never a second report from below it.
pub proof fn lemma_stop_on_match(n: FsNode, at: Seq<Seq<u8>>)
    requires
        is_project(n),
    ensures
        find_spec(n, at) == seq![at],
{
}

/// Every path found below a node standing at `at` extends `at`.
pub proof fn lemma_find_prefix(n: FsNode, at: Seq<Seq<u8>>)
    ensures
        forall|x: int|
            0 <= x < find_spec(n, at).len() ==> is_prefix(at, #[trigger] find_spec(n, at)[x]),
    decreases n,
{
    if is_project(n) {
        assert(at.subrange(0, at.len() as int) =~= at);
    } else {
        match n {
            FsNode::Dir { entries } => {
                lemma_find_from_extends(entries@, at, 0);
                assert forall|x: int| 0 <= x < find_spec(n, at).len() implies is_prefix(
                    at,
                    #[trigger] find_spec(n, at)[x],
                ) by {
                    let q = find_spec(n, at)[x];
                    assert(q == find_from(entries@, at, 0)[x]);
                    let k = choose|k: int|
                        0 <= k < entries@.len() && is_prefix(at.push(entries@[k].name@), q);
                    assert(at.push(entries@[k].name@).subrange(0, at.len() as int) =~= at);
                    lemma_prefix_trans(at, at.push(entries@[k].name@), q);
                }
            },
            _ => {},
        }
    }
}

/// Every path found among the entries from position `i` on extends `at` by
/// the name of the entry it was found under.
proof fn lemma_find_from_extends(s: Seq<Entry>, at: Seq<Seq<u8>>, i: int)
    ensures
        forall|x: int|
            0 <= x < find_from(s, at, i).len() ==> exists|k: int|
                i <= k < s.len() && is_prefix(
                    at.push(s[k].name@),
                    #[trigger] find_from(s, at, i)[x],
                ),
    decreases s, s.len() - i,
{
    if 0 <= i < s.len() {
        let head = find_spec(s[i].node, at.push(s[i].name@));
        let tail = find_from(s, at, i + 1);
        lemma_find_prefix(s[i].node, at.push(s[i].name@));
        lemma_find_from_extends(s, at, i + 1);
        assert forall|x: int| 0 <= x < find_from(s, at, i).len() implies exists|k: int|
            i <= k < s.len() && is_prefix(
                at.push(s[k].name@),
                #[trigger] find_from(s, at, i)[x],
            ) by {
            if x < head.len() {
                assert(find_from(s, at, i)[x] == head[x]);
                assert(is_prefix(at.push(s[i].name@), find_from(s, at, i)[x]));
            } else {
                assert(find_from(s, at, i)[x] == tail[x - head.len()]);
                let k = choose|k: int|
                    (i + 1) <= k < s.len() && is_prefix(
                        at.push(s[k].name@),
                        tail[x - head.len()],
                    );
                assert(is_prefix(at.push(s[k].name@), find_from(s, at, i)[x]));
            }
        }
    }
}

/// No double counting: in a well-formed tree, even where a project's
/// artifact directory or some descendant of it would itself satisfy the
/// project predicate, the walk never reports it as a second, separate
/// project — no reported path is a prefix of another.
pub proof fn lemma_no_nested_projects(n: FsNode, at: Seq<Seq<u8>>)
    requires
        crate::tree::wf(n),
    ensures
        prefix_free(find_spec(n, at)),
    decreases n,
{
    if !is_project(n) {
        match n {
            FsNode::Dir { entries } => {
                lemma_find_from_disjoint(entries@, at, 0);
            },
            _ => {},
        }
    }
}

/// The paths found among the entries from position `i` on, with distinct,
/// well-formed children, are prefix-free: within one child by induction,
/// and across two children because the paths differ already at the
/// component that names the child.
proof fn lemma_find_from_disjoint(s: Seq<Entry>, at: Seq<Seq<u8>>, i: int)
    requires
        forall|j: int, k: int| 0 <= j < k < s.len() ==> s[j].name@ != s[k].name@,
        forall|k: int| 0 <= k < s.len() ==> crate::tree::wf(#[trigger] s[k].node),
    ensures
        prefix_free(find_from(s, at, i)),
    decreases s, s.len() - i,
{
    if 0 <= i < s.len() {
        let head = find_spec(s[i].node, at.push(s[i].name@));
        let tail = find_from(s, at, i + 1);
        let whole = find_from(s, at, i);
        lemma_no_nested_projects(s[i].node, at.push(s[i].name@));
        lemma_find_from_disjoint(s, at, i + 1);
        lemma_find_prefix(s[i].node, at.push(s[i].name@));
        lemma_find_from_extends(s, at, i + 1);
        assert forall|x: int, y: int|
            0 <= x < whole.len() && 0 <= y < whole.len() && x != y implies !is_prefix(
            whole[x],
            whole[y],
        ) by {
            if x < head.len() && y < head.len() {
                assert(whole[x] == head[x] && whole[y] == head[y]);
            } else if x >= head.len() && y >= head.len() {
                assert(whole[x] == tail[x - head.len()] && whole[y] == tail[y - head.len()]);
            } else {
                let hx = if x < head.len() { x } else { y };
                let tx = if x < head.len() { y } else { x };
                let qh = whole[hx];
                let qt = whole[tx];
                assert(qh == head[hx]);
                assert(qt == tail[tx - head.len()]);
                assert(is_prefix(at.push(s[i].name@), qh));
                let k = choose|k: int|
                    (i + 1) <= k < s.len() && is_prefix(at.push(s[k].name@), qt);
                lemma_differs_at_component(at, s[i].name@, s[k].name@, qh, qt);
            }
        }
    }
}

/// Two paths that extend `at` by different components are incomparable:
/// neither is a prefix of the other.
proof fn lemma_differs_at_component(
    at: Seq<Seq<u8>>,
    a: Seq<u8>,
    b: Seq<u8>,
    qa: Seq<Seq<u8>>,
    qb: Seq<Seq<u8>>,
)
    requires
        a != b,
        is_prefix(at.push(a), qa),
        is_prefix(at.push(b), qb),
    ensures
        !is_prefix(qa, qb),
        !is_prefix(qb, qa),
{
    let l = at.len() as int;
    assert(qa[l] == qa.subrange(0, l + 1)[l]);
    assert(qb[l] == qb.subrange(0, l + 1)[l]);
    assert(qa[l] == a && qb[l] == b);
    if is_prefix(qa, qb) {
        assert(qb[l] == qb.subrange(0, qa.len() as int)[l]);
        assert(qb[l] == qa[l]);
    }
    if is_prefix(qb, qa) {
        assert(qa[l] == qa.subrange(0, qb.len() as int)[l]);
        assert(qa[l] == qb[l]);
    }
}

/// With distinct names, looking a name up finds exactly the entry that
/// carries it.
proof fn lemma_first_named_at(s: Seq<Entry>, name: Seq<u8>, i: int, k: int)
    requires
        forall|j1: int, j2: int| 0 <= j1 < j2 < s.len() ==> s[j1].name@ != s[j2].name@,
        0 <= i <= k < s.len(),
        s[k].name@ == name,
    ensures
        crate::tree::first_named(s, name, i) == s[k].node,
    decreases k - i,
{
    if i < k {
        lemma_first_named_at(s, name, i + 1, k);
    }
}

/// Soundness of discovery: in a well-formed tree, every reported path
/// leads, component by component, to a directory that satisfies the
/// project predicate.
pub proof fn lemma_found_paths_are_projects(n: FsNode, at: Seq<Seq<u8>>)
    requires
        crate::tree::wf(n),
    ensures
        forall|x: int|
            0 <= x < find_spec(n, at).len() ==> is_project(
                crate::tree::resolve_from(n, #[trigger] find_spec(n, at)[x], at.len() as int),
            ),
    decreases n,
{
    if is_project(n) {
    } else {
        match n {
            FsNode::Dir { entries } => {
                lemma_find_from_resolves(entries@, at, 0);
                assert forall|x: int| 0 <= x < find_spec(n, at).len() implies is_project(
                    crate::tree::resolve_from(n, #[trigger] find_spec(n, at)[x], at.len() as int),
                ) by {
                    let q = find_spec(n, at)[x];
                    assert(q == find_from(entries@, at, 0)[x]);
                    let k = choose|k: int|
                        0 <= k < entries@.len() && is_prefix(at.push(entries@[k].name@), q)
                            && is_project(
                            crate::tree::resolve_from(
                                entries@[k].node,
                                q,
                                at.len() as int + 1,
                            ),
                        );
                    assert(q[at.len() as int] == q.subrange(0, at.len() as int + 1)[at.len() as int]);
                    assert(q[at.len() as int] == entries@[k].name@);
                    lemma_first_named_at(entries@, q[at.len() as int], 0, k);
                    assert(crate::tree::child_named(n, q[at.len() as int]) == entries@[k].node);
                }
            },
            _ => {},
        }
    }
}

/// Every path found among the entries from position `i` on extends `at` by
/// the name of the entry it was found under, and resolves from that entry's
/// node to a project.
proof fn lemma_find_from_resolves(s: Seq<Entry>, at: Seq<Seq<u8>>, i: int)
    requires
        forall|j1: int, j2: int| 0 <= j1 < j2 < s.len() ==> s[j1].name@ != s[j2].name@,
        forall|k: int| 0 <= k < s.len() ==> crate::tree::wf(#[trigger] s[k].node),
    ensures
        forall|x: int|
            0 <= x < find_from(s, at, i).len() ==> exists|k: int|
                i <= k < s.len() && is_prefix(
                    at.push(s[k].name@),
                    #[trigger] find_from(s, at, i)[x],
                ) && is_project(
                    crate::tree::resolve_from(
                        s[k].node,
                        find_from(s, at, i)[x],
                        at.len() as int + 1,
                    ),
                ),
    decreases s, s.len() - i,
{
    if 0 <= i < s.len() {
        let head = find_spec(s[i].node, at.push(s[i].name@));
        let tail = find_from(s, at, i + 1);
        lemma_find_prefix(s[i].node, at.push(s[i].name@));
        lemma_found_paths_are_projects(s[i].node, at.push(s[i].name@));
        lemma_find_from_resolves(s, at, i + 1);
        assert forall|x: int| 0 <= x < find_from(s, at, i).len() implies exists|k: int|
            i <= k < s.len() && is_prefix(
                at.push(s[k].name@),
                #[trigger] find_from(s, at, i)[x],
            ) && is_project(
                crate::tree::resolve_from(s[k].node, find_from(s, at, i)[x], at.len() as int + 1),
            ) by {
            if x < head.len() {
                assert(find_from(s, at, i)[x] == head[x]);
                assert(is_prefix(at.push(s[i].name@), head[x]));
                assert(is_project(
                    crate::tree::resolve_from(s[i].node, head[x], at.len() as int + 1),
                ));
            } else {
                assert(find_from(s, at, i)[x] == tail[x - head.len()]);
                let k = choose|k: int|
                    (i + 1) <= k < s.len() && is_prefix(
                        at.push(s[k].name@),
                        tail[x - head.len()],
                    ) && is_project(
                        crate::tree::resolve_from(
                            s[k].node,
                            tail[x - head.len()],
                            at.len() as int + 1,
                        ),
                    );
                assert(i <= k < s.len() && is_prefix(
                    at.push(s[k].name@),
                    find_from(s, at, i)[x],
                ) && is_project(
                    crate::tree::resolve_from(
                        s[k].node,
                        find_from(s, at, i)[x],
                        at.len() as int + 1,
                    ),
                ));
            }
        }
    }
}

/// Appends to `project_paths` the paths of the projects in the subtree at
/// `path`, which itself stands at path `at`.
fn recursive_find_projects(path: &FsNode, at: Vec<Vec<u8>>, project_paths: &mut Vec<Vec<Vec<u8>>>)
    ensures
        final(project_paths).deep_view() == old(project_paths).deep_view() + find_spec(
            *path,
            at.deep_view(),
        ),
    decreases weight(*path),
{
    let ghost atv = at.deep_view();
    let ghost pre = project_paths.deep_view();
    if is_cargo_object(path) {
        project_paths.push(at);
        proof {
            assert(project_paths.deep_view() =~= pre + seq![atv]);
        }
        return;
    }
    match path {
        FsNode::Dir { entries } => {
            let ghost s = entries@;
            let mut i: usize = 0;
            while i < entries.len()
                invariant
                    0 <= i <= entries.len(),
                    s == entries@,
                    atv == at.deep_view(),
                    weight(*path) == 1 + weight_from(s, 0),
                    pre + find_from(s, atv, 0) =~= project_paths.deep_view() + find_from(
                        s,
                        atv,
                        i as int,
                    ),
                decreases entries.len() - i,
            {
                let mut child_at = clone_path(&at);
                let name_copy = clone_bytes(&entries[i].name);
                let ghost child_pre = child_at;
                child_at.push(name_copy);
                proof {
                    lemma_weight_entry(s, 0, i as int);
                    lemma_path_push(child_pre, child_at, name_copy);
                    assert(child_at.deep_view() =~= atv.push(s[i as int].name@));
                }
                let ghost before = project_paths.deep_view();
                recursive_find_projects(&entries[i].node, child_at, project_paths);
                proof {
                    assert(project_paths.deep_view() + find_from(s, atv, i + 1) =~= before
                        + find_from(s, atv, i as int));
                }
                i = i + 1;
            }
            proof {
                assert(pre + find_from(s, atv, 0) =~= project_paths.deep_view());
                assert(project_paths.deep_view() =~= pre + find_spec(*path, atv));
            }
        },
        _ => {
            proof {
                assert(project_paths.deep_view() =~= pre + find_spec(*path, atv));
            }
        },
    }
}

} // verus!
