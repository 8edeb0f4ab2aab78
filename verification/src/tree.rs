//! The immutable syntax tree and the node path resolver.
//!
//! A node covers a half-open byte span of the source text. Well-formed trees
//! keep every child's span inside its parent's and siblings' spans sorted and
//! non-overlapping; the parser wrappers only ever build such trees.

use vstd::prelude::*;

use crate::error::TyError;

verus! {

/// The grammar constructs the feature providers tell apart. Anything the
/// providers never inspect is folded into `Other`.
#[derive(Clone, Copy, Debug, PartialEq, Eq, Structural)]
pub enum NodeKind {
    Markup,
    Text,
    Space,
    Ref,
    RefMarker,
    Ident,
    FuncCall,
    Args,
    Colon,
    Error,
    Other,
}

/// A node of the syntax tree: a tagged kind, a half-open byte span
/// `[start, end)`, an error marker for structurally incomplete regions, and
/// the ordered children it exclusively owns.
#[derive(Debug)]
pub struct TreeNode {
    pub kind: NodeKind,
    pub start: usize,
    pub end: usize,
    pub is_error: bool,
    pub children: Vec<TreeNode>,
}

/// One step of a node path: what a feature provider needs to classify the
/// cursor context, without owning the subtree.
#[derive(Clone, Copy, Debug, PartialEq, Eq, Structural)]
pub struct PathEntry {
    pub kind: NodeKind,
    pub start: usize,
    pub end: usize,
    pub is_error: bool,
}

/// The path entry describing a node.
pub open spec fn summary(n: TreeNode) -> PathEntry {
    PathEntry { kind: n.kind, start: n.start, end: n.end, is_error: n.is_error }
}

/// Well-formedness: spans are ordered, every child's span lies inside its
/// parent's, siblings are sorted ascending and non-overlapping, recursively.
pub open spec fn wf_node(n: TreeNode) -> bool
    decreases n,
{
    &&& n.start <= n.end
    &&& (forall|i: int|
        0 <= i < n.children.len() ==> n.start <= (#[trigger] n.children[i]).start
            && n.children[i].start <= n.children[i].end && n.children[i].end <= n.end)
    &&& (forall|i: int|
        0 <= i && i + 1 < n.children.len() ==> (#[trigger] n.children[i]).end <= n.children[i
            + 1].start)
    &&& (forall|i: int| 0 <= i < n.children.len() ==> wf_node(#[trigger] n.children[i]))
}

/// Span containment: in a well-formed tree, every child's span lies inside
/// its parent's span, and the children are well-formed in turn.
pub proof fn lemma_wf_span_containment(n: TreeNode, i: int)
    requires
        wf_node(n),
        0 <= i < n.children.len(),
    ensures
        n.start <= n.children[i].start,
        n.children[i].start <= n.children[i].end,
        n.children[i].end <= n.end,
        wf_node(n.children[i]),
{
}

/// Sibling ordering: in a well-formed tree, each child's span ends no later
/// than the next child's span starts.
pub proof fn lemma_wf_sibling_order(n: TreeNode, i: int)
    requires
        wf_node(n),
        0 <= i,
        i + 1 < n.children.len(),
    ensures
        n.children[i].end <= n.children[i + 1].start,
{
}

/// Which child to descend into for `o`, scanning left to right from index
/// `i`: the child whose half-open span contains `o`; at a boundary where the
/// next child is zero-width, the non-zero-width child of the pair, or the
/// later one when both are zero-width; nothing when `o` falls in a gap.
pub open spec fn pick_child(cs: Seq<TreeNode>, o: int, i: int) -> Option<int>
    decreases cs.len() - i,
{
    if i < 0 || i >= cs.len() {
        None
    } else if cs[i].start <= o < cs[i].end {
        Some(i)
    } else if o == cs[i].end && i + 1 < cs.len() && cs[i + 1].start == o && cs[i + 1].end == o {
        if cs[i].start < cs[i].end {
            Some(i)
        } else {
            Some(i + 1)
        }
    } else {
        pick_child(cs, o, i + 1)
    }
}

/// A picked child index lies between the scan start and the end of the list.
pub proof fn lemma_pick_child_in_range(cs: Seq<TreeNode>, o: int, i: int)
    requires
        0 <= i,
    ensures
        pick_child(cs, o, i) matches Some(j) ==> i <= j < cs.len(),
    decreases cs.len() - i,
{
    if i < cs.len() {
        lemma_pick_child_in_range(cs, o, i + 1);
    }
}

/// A picked child's closed span contains `o`.
pub proof fn lemma_pick_child_contains(cs: Seq<TreeNode>, o: int, i: int)
    requires
        0 <= i,
    ensures
        pick_child(cs, o, i) matches Some(j) ==> cs[j].start <= o <= cs[j].end,
    decreases cs.len() - i,
{
    if i < cs.len() {
        lemma_pick_child_contains(cs, o, i + 1);
    }
}

/// The root-to-leaf path for `o`: the node itself, then the path within the
/// picked child; the descent stops at the deepest node when no child's span
/// admits `o`.
pub open spec fn resolve_spec(n: TreeNode, o: int) -> Seq<PathEntry>
    decreases n,
    via resolve_spec_decreases
{
    match pick_child(n.children@, o, 0) {
        Some(i) => seq![summary(n)] + resolve_spec(n.children[i], o),
        None => seq![summary(n)],
    }
}

#[via_fn]
proof fn resolve_spec_decreases(n: TreeNode, o: int) {
    lemma_pick_child_in_range(n.children@, o, 0);
}

/// Path non-emptiness: resolution always yields at least the root.
pub proof fn lemma_resolve_nonempty(n: TreeNode, o: int)
    ensures
        resolve_spec(n, o).len() >= 1,
        resolve_spec(n, o)[0] == summary(n),
{
    lemma_pick_child_in_range(n.children@, o, 0);
}

/// In a well-formed tree, every entry of the path encloses the offset in its
/// closed span.
#[verifier::rlimit(50)]
pub proof fn lemma_resolve_entries_contain(n: TreeNode, o: int)
    requires
        wf_node(n),
        n.start <= o <= n.end,
    ensures
        forall|k: int|
            0 <= k < resolve_spec(n, o).len() ==> (#[trigger] resolve_spec(n, o)[k]).start <= o
                && o <= resolve_spec(n, o)[k].end,
    decreases n,
{
    lemma_pick_child_in_range(n.children@, o, 0);
    lemma_pick_child_contains(n.children@, o, 0);
    let p = resolve_spec(n, o);
    match pick_child(n.children@, o, 0) {
        Some(i) => {
            lemma_wf_span_containment(n, i);
            lemma_resolve_entries_contain(n.children[i], o);
            let rest = resolve_spec(n.children[i], o);
            assert(p == seq![summary(n)] + rest);
            assert forall|k: int| 0 <= k < p.len() implies (#[trigger] p[k]).start <= o && o
                <= p[k].end by {
                if k > 0 {
                    assert(p[k] == rest[k - 1]);
                    assert(rest[k - 1].start <= o && o <= rest[k - 1].end);
                }
            }
        },
        None => {
            assert(p == seq![summary(n)]);
        },
    }
}

/// Scan the children for the one to descend into, mirroring `pick_child`.
fn find_child(n: &TreeNode, offset: usize) -> (r: Option<usize>)
    ensures
        match r {
            Some(i) => pick_child(n.children@, offset as int, 0) == Some(i as int) && i
                < n.children.len(),
            None => pick_child(n.children@, offset as int, 0) is None,
        },
{
    let len = n.children.len();
    let mut i: usize = 0;
    while i < len
        invariant
            i <= len,
            len == n.children.len(),
            pick_child(n.children@, offset as int, 0) == pick_child(
                n.children@,
                offset as int,
                i as int,
            ),
        decreases len - i,
    {
        let c = &n.children[i];
        if c.start <= offset && offset < c.end {
            return Some(i);
        }
        if offset == c.end && i + 1 < len {
            let d = &n.children[i + 1];
            if d.start == offset && d.end == offset {
                if c.start < c.end {
                    return Some(i);
                } else {
                    proof {
                        lemma_pick_child_in_range(n.children@, offset as int, 0);
                    }
                    return Some(i + 1);
                }
            }
        }
        i = i + 1;
    }
    None
}

/// Resolve the offset within the subtree at `n`, whose closed span is known
/// to admit it, producing the root-to-leaf path.
fn resolve_from(n: &TreeNode, offset: usize) -> (r: Vec<PathEntry>)
    ensures
        r@ == resolve_spec(*n, offset as int),
    decreases *n,
{
    let mut r: Vec<PathEntry> = Vec::new();
    r.push(PathEntry { kind: n.kind, start: n.start, end: n.end, is_error: n.is_error });
    match find_child(n, offset) {
        Some(i) => {
            let mut rest = resolve_from(&n.children[i], offset);
            r.append(&mut rest);
            proof {
                assert(r@ =~= resolve_spec(*n, offset as int));
            }
        },
        None => {
            proof {
                assert(r@ =~= resolve_spec(*n, offset as int));
            }
        },
    }
    r
}

/// Resolve an offset against a tree: the root-to-leaf chain of nodes
/// enclosing the offset, of length at least 1, or `OffsetOutOfRange` exactly
/// when the offset lies outside the root's half-open span.
pub fn resolve(tree: &TreeNode, offset: usize) -> (r: Result<Vec<PathEntry>, TyError>)
    ensures
        match r {
            Ok(path) => {
                &&& tree.start <= offset < tree.end
                &&& path@ == resolve_spec(*tree, offset as int)
                &&& path@.len() >= 1
                &&& path@[0] == summary(*tree)
            },
            Err(e) => {
                &&& e == TyError::OffsetOutOfRange
                &&& !(tree.start <= offset < tree.end)
            },
        },
{
    if tree.start <= offset && offset < tree.end {
        proof {
            lemma_resolve_nonempty(*tree, offset as int);
        }
        Ok(resolve_from(tree, offset))
    } else {
        Err(TyError::OffsetOutOfRange)
    }
}

} // verus!
