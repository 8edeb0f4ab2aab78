//! The boundary to the Typst parser. The parser is called through trusted
//! wrappers; everything built on top of what they return is verified. The
//! parser is resilient: malformed input yields a tree with error-marker
//! nodes, never a failure.

use vstd::prelude::*;

use crate::mapper::byte_len;
use crate::tree::{NodeKind, TreeNode};

verus! {

#[verifier::external_type_specification]
#[verifier::external_body]
pub struct ExTypstNode(typst_syntax::SyntaxNode);

/// The byte length of the source region a parser node covers.
pub uninterp spec fn raw_len(n: typst_syntax::SyntaxNode) -> nat;

/// The parser node's kind, folded onto the constructs the library tells
/// apart and encoded as a number.
pub uninterp spec fn raw_kind_code(n: typst_syntax::SyntaxNode) -> nat;

/// The shape of a parser node's children, in order: each child's byte
/// length and folded kind code.
pub uninterp spec fn raw_children_shape(n: typst_syntax::SyntaxNode) -> Seq<(nat, nat)>;

/// The number each library-side kind stands for.
pub open spec fn kind_code(k: NodeKind) -> nat {
    match k {
        NodeKind::Markup => 0nat,
        NodeKind::Text => 1nat,
        NodeKind::Space => 2nat,
        NodeKind::Ref => 3nat,
        NodeKind::RefMarker => 4nat,
        NodeKind::Ident => 5nat,
        NodeKind::FuncCall => 6nat,
        NodeKind::Args => 7nat,
        NodeKind::Colon => 8nat,
        NodeKind::Error => 9nat,
        NodeKind::Other => 10nat,
    }
}

/// Sum of the byte lengths of a sequence of parser nodes.
pub open spec fn raw_len_sum(s: Seq<typst_syntax::SyntaxNode>) -> nat
    decreases s.len(),
{
    if s.len() == 0 {
        0nat
    } else {
        raw_len_sum(s.drop_last()) + raw_len(s.last())
    }
}

/// Relies on typst_syntax::parse: the returned root node covers the whole
/// input text, whatever that text holds, and is a markup node.
#[verifier::external_body]
fn parse_markup(text: &Vec<char>) -> (r: typst_syntax::SyntaxNode)
    ensures
        raw_len(r) == byte_len(text@),
        raw_kind_code(r) == kind_code(NodeKind::Markup),
{
    let s: String = text.iter().collect();
    typst_syntax::parse(&s)
}

/// Relies on typst_syntax::SyntaxNode::len: the byte length of the node's
/// region of the source text.
#[verifier::external_body]
fn node_len(n: &typst_syntax::SyntaxNode) -> (r: usize)
    ensures
        r == raw_len(*n),
{
    n.len()
}

/// Relies on typst_syntax::SyntaxNode::children: the children come in
/// source order; an inner node's children losslessly make it up, so their
/// byte lengths sum to the parent's; leaf and error nodes have none.
#[verifier::external_body]
fn node_children(n: &typst_syntax::SyntaxNode) -> (r: Vec<typst_syntax::SyntaxNode>)
    ensures
        r@.len() > 0 ==> raw_len_sum(r@) == raw_len(*n),
        r@.map_values(|c: typst_syntax::SyntaxNode| (raw_len(c), raw_kind_code(c)))
            == raw_children_shape(*n),
{
    n.children().cloned().collect()
}

/// Relies on typst_syntax::SyntaxNode::kind: the kind is a stored field of
/// the node; the body tells the variants apart, folding the ones no feature
/// provider inspects into `Other`.
#[verifier::external_body]
fn node_kind(n: &typst_syntax::SyntaxNode) -> (r: NodeKind)
    ensures
        kind_code(r) == raw_kind_code(*n),
{
    match n.kind() {
        typst_syntax::SyntaxKind::Markup => NodeKind::Markup,
        typst_syntax::SyntaxKind::Text => NodeKind::Text,
        typst_syntax::SyntaxKind::Space => NodeKind::Space,
        typst_syntax::SyntaxKind::Ref => NodeKind::Ref,
        typst_syntax::SyntaxKind::RefMarker => NodeKind::RefMarker,
        typst_syntax::SyntaxKind::Ident => NodeKind::Ident,
        typst_syntax::SyntaxKind::FuncCall => NodeKind::FuncCall,
        typst_syntax::SyntaxKind::Args => NodeKind::Args,
        typst_syntax::SyntaxKind::Colon => NodeKind::Colon,
        typst_syntax::SyntaxKind::Error => NodeKind::Error,
        _ => NodeKind::Other,
    }
}

/// Extending a prefix by one element adds that element's length.
proof fn lemma_raw_len_sum_take_step(s: Seq<typst_syntax::SyntaxNode>, i: int)
    requires
        0 <= i < s.len(),
    ensures
        raw_len_sum(s.take(i + 1)) == raw_len_sum(s.take(i)) + raw_len(s[i]),
{
    assert(s.take(i + 1).drop_last() =~= s.take(i));
    assert(s.take(i + 1).last() == s[i]);
}

/// A prefix never sums to more than the whole.
proof fn lemma_raw_len_sum_take_le(s: Seq<typst_syntax::SyntaxNode>, i: int)
    requires
        0 <= i <= s.len(),
    ensures
        raw_len_sum(s.take(i)) <= raw_len_sum(s),
    decreases s.len() - i,
{
    if i == s.len() {
        assert(s.take(i) =~= s);
    } else {
        lemma_raw_len_sum_take_step(s, i);
        lemma_raw_len_sum_take_le(s, i + 1);
    }
}

/// Build the library's tree for the parser subtree at `n`, whose region
/// starts at absolute byte offset `start`. The result is well-formed and
/// covers exactly the node's region. `fuel` bounds the depth walked; the
/// parser itself nests at most a fixed small depth, far below what callers
/// pass, and a subtree past the bound becomes a leaf covering its region.
#[verifier::rlimit(100)]
fn convert(n: &typst_syntax::SyntaxNode, start: usize, fuel: u32) -> (r: TreeNode)
    requires
        start + raw_len(*n) <= usize::MAX,
    ensures
        r.start == start,
        r.end == start + raw_len(*n),
        crate::tree::wf_node(r),
        kind_code(r.kind) == raw_kind_code(*n),
        r.is_error == (r.kind == NodeKind::Error),
        fuel > 0 ==> r.children@.len() == raw_children_shape(*n).len(),
        fuel > 0 ==> forall|k: int|
            0 <= k < r.children@.len() ==> kind_code((#[trigger] r.children@[k]).kind)
                == raw_children_shape(*n)[k].1 && r.children@[k].end - r.children@[k].start
                == raw_children_shape(*n)[k].0,
    decreases fuel,
{
    let len = node_len(n);
    let kind = node_kind(n);
    let is_err = match kind {
        NodeKind::Error => true,
        _ => false,
    };
    let end = start + len;
    let mut children: Vec<TreeNode> = Vec::new();
    if fuel > 0 {
        let raw_children = node_children(n);
        let m = raw_children.len();
        if m > 0 {
            let ghost cs = raw_children@;
            let mut pos = start;
            let mut i: usize = 0;
            while i < m
                invariant
                    fuel >= 1,
                    cs == raw_children@,
                    i <= m,
                    m == cs.len(),
                    raw_len_sum(cs) == raw_len(*n),
                    cs.map_values(|c: typst_syntax::SyntaxNode| (raw_len(c), raw_kind_code(c)))
                        == raw_children_shape(*n),
                    forall|k: int|
                        0 <= k < i ==> kind_code((#[trigger] children@[k]).kind)
                            == raw_children_shape(*n)[k].1 && children@[k].end
                            - children@[k].start == raw_children_shape(*n)[k].0,
                    start + raw_len(*n) <= usize::MAX,
                    pos == start + raw_len_sum(cs.take(i as int)),
                    children@.len() == i,
                    forall|k: int|
                        0 <= k < i ==> crate::tree::wf_node(#[trigger] children@[k]),
                    forall|k: int|
                        0 <= k < i ==> (#[trigger] children@[k]).start >= start && children@[k].end
                            <= pos,
                    forall|k: int|
                        0 <= k && k + 1 < i ==> (#[trigger] children@[k]).end <= children@[k
                            + 1].start,
                decreases m - i,
            {
                proof {
                    lemma_raw_len_sum_take_step(cs, i as int);
                    lemma_raw_len_sum_take_le(cs, i as int + 1);
                }
                let c = convert(&raw_children[i], pos, fuel - 1);
                let c_end = c.end;
                let ghost prev = children@;
                children.push(c);
                proof {
                    assert(raw_children_shape(*n)[i as int] == (raw_len(cs[i as int]),
                    raw_kind_code(cs[i as int])));
                    assert forall|k: int|
                        0 <= k < i + 1 implies (#[trigger] children@[k]).start >= start
                        && children@[k].end <= c_end by {
                        if k < i {
                            assert(children@[k] == prev[k]);
                        }
                    }
                }
                pos = c_end;
                i = i + 1;
            }
            proof {
                lemma_raw_len_sum_take_le(cs, m as int);
            }
        }
    }
    let result = TreeNode { kind, start, end, is_error: is_err, children };
    proof {
        assert(crate::tree::wf_node(result));
    }
    result
}

/// Parse document text into a well-formed markup tree covering the whole
/// text.
pub fn parse_to_tree(text: &Vec<char>) -> (r: TreeNode)
    requires
        byte_len(text@) <= usize::MAX,
    ensures
        crate::tree::wf_node(r),
        r.start == 0,
        r.end == byte_len(text@),
        r.kind == NodeKind::Markup,
{
    let raw = parse_markup(text);
    let tree = convert(&raw, 0, 512);
    proof {
        assert(kind_code(tree.kind) == kind_code(NodeKind::Markup));
        assert(tree.kind == NodeKind::Markup);
    }
    tree
}

} // verus!
