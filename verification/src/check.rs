//! The checks on syntax trees: that the input has no syntax error and is
//! not nested too deeply, and that the output's tree matches the input's.
use vstd::prelude::*;
use crate::options::FormatError;
use crate::syntax::{lemma_wf_child, lemma_wf_node, node_text, wf, wf_list, SyntaxNode};

verus! {

/// The deepest nesting accepted, counting the root as depth 0.
pub const MAX_DEPTH: usize = 256;

/// The first problem met in a preorder walk from `n`, which lies at `depth`:
/// an error or missing node, else a node deeper than `MAX_DEPTH`.
pub open spec fn first_problem(n: SyntaxNode, depth: int) -> Option<FormatError>
    decreases n, 1int, 0int,
{
    if n.error || n.missing {
        Some(FormatError::Syntax { line: (n.row + 1) as usize, column: (n.column + 1) as usize })
    } else if depth > MAX_DEPTH {
        Some(FormatError::Nesting { line: (n.row + 1) as usize, column: (n.column + 1) as usize })
    } else {
        first_problem_in(n, depth + 1, n.children@.len() as int)
    }
}

/// The first problem among the first `hi` children of `p`, which lie at `depth`.
pub open spec fn first_problem_in(p: SyntaxNode, depth: int, hi: int) -> Option<FormatError>
    decreases p, 0int, hi,
{
    if hi <= 0 || hi > p.children@.len() {
        None
    } else {
        match first_problem_in(p, depth, hi - 1) {
            Some(e) => Some(e),
            None => first_problem(p.children@[hi - 1], depth),
        }
    }
}

/// The outcome of validating a tree: its first problem, if any.
pub open spec fn validation(root: SyntaxNode) -> Result<(), FormatError> {
    match first_problem(root, 0) {
        Some(e) => Err(e),
        None => Ok(()),
    }
}

/// Every node's position can be reported one-based.
pub open spec fn reportable(n: SyntaxNode) -> bool
    decreases n,
{
    n.row < usize::MAX && n.column < usize::MAX && reportable_list(n.children@)
}

/// Every tree of the sequence is reportable.
pub open spec fn reportable_list(s: Seq<SyntaxNode>) -> bool
    decreases s,
{
    s.len() == 0 || (reportable_list(s.drop_last()) && reportable(s.last()))
}

proof fn lemma_reportable_child(s: Seq<SyntaxNode>, i: int)
    requires
        reportable_list(s),
        0 <= i < s.len(),
    ensures
        reportable(s[i]),
    decreases s.len(),
{
    if i < s.len() - 1 {
        lemma_reportable_child(s.drop_last(), i);
    }
}

/// A well-formed tree is reportable.
pub proof fn lemma_wf_reportable(n: SyntaxNode, len: nat)
    requires
        wf(n, len),
    ensures
        reportable(n),
    decreases n,
{
    lemma_wf_node(n, len);
    lemma_wf_list_reportable(n.children@, len);
}

proof fn lemma_wf_list_reportable(s: Seq<SyntaxNode>, len: nat)
    requires
        wf_list(s, len),
    ensures
        reportable_list(s),
    decreases s,
{
    if s.len() > 0 {
        lemma_wf_list_reportable(s.drop_last(), len);
        lemma_wf_reportable(s.last(), len);
    }
}

fn problem(n: &SyntaxNode, depth: usize) -> (r: Option<FormatError>)
    requires
        reportable(*n),
        depth <= MAX_DEPTH + 1,
    ensures
        r == first_problem(*n, depth as int),
    decreases n, 1int, 0int,
{
    if n.error || n.missing {
        return Some(FormatError::Syntax { line: n.row + 1, column: n.column + 1 });
    }
    if depth > MAX_DEPTH {
        return Some(FormatError::Nesting { line: n.row + 1, column: n.column + 1 });
    }
    let count = n.children.len();
    let mut i: usize = 0;
    while i < count
        invariant
            i <= count,
            count == n.children@.len(),
            depth <= MAX_DEPTH,
            !n.error && !n.missing,
            reportable(*n),
            first_problem_in(*n, depth + 1, i as int) is None,
        decreases count - i,
    {
        proof {
            lemma_reportable_child(n.children@, i as int);
        }
        match problem(&n.children[i], depth + 1) {
            Some(e) => {
                proof {
                    assert(first_problem_in(*n, depth + 1, i + 1) == Some(e));
                    lemma_problem_in_stays(*n, depth + 1, i + 1, count as int);
                }
                return Some(e);
            },
            None => {},
        }
        i = i + 1;
    }
    None
}

/// Once the first `hi` children hold a problem, more children do not change it.
proof fn lemma_problem_in_stays(p: SyntaxNode, depth: int, hi: int, more: int)
    requires
        0 <= hi <= more <= p.children@.len(),
        first_problem_in(p, depth, hi) is Some,
    ensures
        first_problem_in(p, depth, more) == first_problem_in(p, depth, hi),
    decreases more - hi,
{
    if more > hi {
        lemma_problem_in_stays(p, depth, hi, more - 1);
    }
}

/// Reject a tree with an error or missing node, or nested deeper than
/// `MAX_DEPTH` levels, reporting the first such node in preorder by its
/// one-based line and column.
pub fn validate(root: &SyntaxNode) -> (r: Result<(), FormatError>)
    requires
        reportable(*root),
    ensures
        r == validation(*root),
{
    match problem(root, 0) {
        Some(e) => Err(e),
        None => Ok(()),
    }
}

/// Validation reports nothing but syntax and nesting errors.
pub proof fn validation_reports_syntax_or_nesting(root: SyntaxNode)
    ensures
        validation(root) matches Err(e) ==> (e is Syntax || e is Nesting),
{
    lemma_problem_kinds(root, 0);
}

proof fn lemma_problem_kinds(n: SyntaxNode, depth: int)
    ensures
        first_problem(n, depth) matches Some(e) ==> (e is Syntax || e is Nesting),
    decreases n, 1int, 0int,
{
    if !(n.error || n.missing) && depth <= MAX_DEPTH {
        lemma_problem_in_kinds(n, depth + 1, n.children@.len() as int);
    }
}

proof fn lemma_problem_in_kinds(p: SyntaxNode, depth: int, hi: int)
    ensures
        first_problem_in(p, depth, hi) matches Some(e) ==> (e is Syntax || e is Nesting),
    decreases p, 0int, hi,
{
    if 0 < hi <= p.children@.len() {
        lemma_problem_in_kinds(p, depth, hi - 1);
        lemma_problem_kinds(p.children@[hi - 1], depth);
    }
}

/// Two trees have the same shape, node kinds, named-ness and fields, and
/// the same text in every leaf: `a` over `src` and `b` over `out`.
pub open spec fn equivalent(a: SyntaxNode, b: SyntaxNode, src: Seq<u8>, out: Seq<u8>) -> bool
    decreases a, 1int, 0int,
{
    &&& a.kind_id == b.kind_id
    &&& a.named == b.named
    &&& a.field_id == b.field_id
    &&& a.children@.len() == b.children@.len()
    &&& (a.children@.len() == 0 ==> node_text(src, a) == node_text(out, b))
    &&& equivalent_children(a, b, src, out, a.children@.len() as int)
}

/// The first `hi` children of `a` and `b` are pairwise equivalent.
pub open spec fn equivalent_children(a: SyntaxNode, b: SyntaxNode, src: Seq<u8>, out: Seq<u8>, hi: int) -> bool
    decreases a, 0int, hi,
{
    if hi <= 0 || hi > a.children@.len() || hi > b.children@.len() {
        hi <= 0
    } else {
        equivalent_children(a, b, src, out, hi - 1) && equivalent(
            a.children@[hi - 1],
            b.children@[hi - 1],
            src,
            out,
        )
    }
}

/// Whether two byte strings are equal.
pub fn same_bytes(x: &[u8], y: &[u8]) -> (r: bool)
    ensures
        r == (x@ == y@),
{
    if x.len() != y.len() {
        return false;
    }
    let mut i: usize = 0;
    while i < x.len()
        invariant
            i <= x@.len(),
            x@.len() == y@.len(),
            forall|j: int| 0 <= j < i ==> x@[j] == y@[j],
        decreases x.len() - i,
    {
        if x[i] != y[i] {
            return false;
        }
        i = i + 1;
    }
    assert(x@ =~= y@);
    true
}

/// Whether the tree `before` over `source` and the tree `after` over
/// `output` are equivalent: formatting changed nothing but whitespace.
pub fn equivalent_trees(before: &SyntaxNode, after: &SyntaxNode, source: &[u8], output: &[u8]) -> (r: bool)
    requires
        wf(*before, source@.len()),
        wf(*after, output@.len()),
    ensures
        r == equivalent(*before, *after, source@, output@),
    decreases before, 1int, 0int,
{
    proof {
        lemma_wf_node(*before, source@.len());
        lemma_wf_node(*after, output@.len());
    }
    let count = before.children.len();
    if before.kind_id != after.kind_id || before.named != after.named || before.field_id
        != after.field_id || count != after.children.len() {
        return false;
    }
    if count == 0 && !same_bytes(
        vstd::slice::slice_subrange(source, before.start, before.end),
        vstd::slice::slice_subrange(output, after.start, after.end),
    ) {
        return false;
    }
    let mut i: usize = 0;
    while i < count
        invariant
            i <= count,
            count == before.children@.len(),
            count == after.children@.len(),
            wf(*before, source@.len()),
            wf(*after, output@.len()),
            equivalent_children(*before, *after, source@, output@, i as int),
        decreases count - i,
    {
        proof {
            lemma_wf_child(*before, source@.len(), i as int);
            lemma_wf_child(*after, output@.len(), i as int);
        }
        if !equivalent_trees(&before.children[i], &after.children[i], source, output) {
            proof {
                lemma_children_fail(*before, *after, source@, output@, i + 1, count as int);
            }
            return false;
        }
        i = i + 1;
    }
    true
}

/// Once a pair among the first `hi` children differs, more children do not help.
proof fn lemma_children_fail(a: SyntaxNode, b: SyntaxNode, src: Seq<u8>, out: Seq<u8>, hi: int, more: int)
    requires
        1 <= hi <= more <= a.children@.len(),
        more <= b.children@.len(),
        !equivalent_children(a, b, src, out, hi),
    ensures
        !equivalent_children(a, b, src, out, more),
    decreases more - hi,
{
    if more > hi {
        lemma_children_fail(a, b, src, out, hi, more - 1);
    }
}

/// The tree from `n`, which lies at `depth`, holds no error or missing node
/// and no node deeper than `MAX_DEPTH`.
pub open spec fn clean(n: SyntaxNode, depth: int) -> bool
    decreases n, 1int, 0int,
{
    !n.error && !n.missing && depth <= MAX_DEPTH && clean_children(n, depth + 1, n.children@.len() as int)
}

/// The first `hi` children of `p`, which lie at `depth`, are clean.
pub open spec fn clean_children(p: SyntaxNode, depth: int, hi: int) -> bool
    decreases p, 0int, hi,
{
    if hi <= 0 || hi > p.children@.len() {
        true
    } else {
        clean_children(p, depth, hi - 1) && clean(p.children@[hi - 1], depth)
    }
}

/// Validation accepts exactly the trees with no error or missing node and no
/// node deeper than `MAX_DEPTH`.
pub proof fn validation_accepts_clean_trees(root: SyntaxNode)
    ensures
        validation(root) is Ok <==> clean(root, 0),
{
    lemma_problem_clean(root, 0);
}

proof fn lemma_problem_clean(n: SyntaxNode, depth: int)
    ensures
        first_problem(n, depth) is None <==> clean(n, depth),
    decreases n, 1int, 0int,
{
    if !(n.error || n.missing) && depth <= MAX_DEPTH {
        lemma_problem_in_clean(n, depth + 1, n.children@.len() as int);
    }
}

proof fn lemma_problem_in_clean(p: SyntaxNode, depth: int, hi: int)
    ensures
        first_problem_in(p, depth, hi) is None <==> clean_children(p, depth, hi),
    decreases p, 0int, hi,
{
    if 0 < hi <= p.children@.len() {
        lemma_problem_in_clean(p, depth, hi - 1);
        lemma_problem_clean(p.children@[hi - 1], depth);
    }
}

/// Some path from `n` goes `k` steps down the tree.
pub open spec fn reaches(n: SyntaxNode, k: nat) -> bool
    decreases n, 1int, 0int,
{
    k == 0 || reaches_child(n, (k - 1) as nat, n.children@.len() as int)
}

/// One of the first `hi` children of `p` reaches `k` steps down.
pub open spec fn reaches_child(p: SyntaxNode, k: nat, hi: int) -> bool
    decreases p, 0int, hi,
{
    if hi <= 0 || hi > p.children@.len() {
        false
    } else {
        reaches_child(p, k, hi - 1) || reaches(p.children@[hi - 1], k)
    }
}

/// No node of the tree is an error or missing node.
pub open spec fn error_free(n: SyntaxNode) -> bool
    decreases n, 1int, 0int,
{
    !n.error && !n.missing && error_free_children(n, n.children@.len() as int)
}

/// The first `hi` children of `p` are error-free.
pub open spec fn error_free_children(p: SyntaxNode, hi: int) -> bool
    decreases p, 0int, hi,
{
    if hi <= 0 || hi > p.children@.len() {
        true
    } else {
        error_free_children(p, hi - 1) && error_free(p.children@[hi - 1])
    }
}

proof fn lemma_clean_depth(n: SyntaxNode, d: int, k: nat)
    requires
        clean(n, d),
        reaches(n, k),
    ensures
        d + k <= 256,
    decreases n, 1int, 0int,
{
    if k > 0 {
        lemma_clean_depth_children(n, d + 1, (k - 1) as nat, n.children@.len() as int);
    }
}

proof fn lemma_clean_depth_children(p: SyntaxNode, d: int, k: nat, hi: int)
    requires
        clean_children(p, d, hi),
        reaches_child(p, k, hi),
    ensures
        d + k <= 256,
    decreases p, 0int, hi,
{
    if reaches_child(p, k, hi - 1) {
        lemma_clean_depth_children(p, d, k, hi - 1);
    } else {
        lemma_clean_depth(p.children@[hi - 1], d, k);
    }
}

proof fn lemma_shallow_clean(n: SyntaxNode, d: int)
    requires
        0 <= d <= 256,
        error_free(n),
        !reaches(n, (257 - d) as nat),
    ensures
        clean(n, d),
    decreases n, 1int, 0int,
{
    lemma_shallow_clean_children(n, d + 1, n.children@.len() as int);
}

proof fn lemma_shallow_clean_children(p: SyntaxNode, d: int, hi: int)
    requires
        1 <= d <= 257,
        0 <= hi <= p.children@.len(),
        error_free_children(p, hi),
        !reaches_child(p, (257 - d) as nat, hi),
    ensures
        clean_children(p, d, hi),
    decreases p, 0int, hi,
{
    if hi > 0 {
        lemma_shallow_clean_children(p, d, hi - 1);
        if d <= 256 {
            lemma_shallow_clean(p.children@[hi - 1], d);
        } else {
            assert(reaches(p.children@[hi - 1], 0));
        }
    }
}

/// Validation refuses every tree in which some node lies more than 256
/// levels below the root.
pub proof fn too_deep_trees_are_refused(root: SyntaxNode)
    requires
        reaches(root, 257),
    ensures
        validation(root) is Err,
{
    lemma_problem_clean(root, 0);
    if clean(root, 0) {
        lemma_clean_depth(root, 0, 257);
    }
}

/// Validation accepts every tree without error or missing nodes in which no
/// node lies more than 256 levels below the root.
pub proof fn shallow_error_free_trees_are_accepted(root: SyntaxNode)
    requires
        error_free(root),
        !reaches(root, 257),
    ensures
        validation(root) is Ok,
{
    lemma_shallow_clean(root, 0);
    lemma_problem_clean(root, 0);
}

/// An error or missing root is reported as a syntax error at its own
/// one-based line and column.
pub proof fn error_nodes_are_reported_at_their_position(root: SyntaxNode)
    requires
        root.error || root.missing,
    ensures
        validation(root) == Err::<(), FormatError>(FormatError::Syntax { line: (root.row + 1) as usize, column: (root.column + 1) as usize }),
{
}

/// Equivalent trees agree node for node: the same kind, namedness, field
/// and number of children, the same bytes at every leaf, and equivalent
/// children in order.
pub proof fn equivalent_trees_agree_node_for_node(a: SyntaxNode, b: SyntaxNode, src: Seq<u8>, out: Seq<u8>)
    requires
        equivalent(a, b, src, out),
    ensures
        a.kind_id == b.kind_id,
        a.named == b.named,
        a.field_id == b.field_id,
        a.children@.len() == b.children@.len(),
        a.children@.len() == 0 ==> src.subrange(a.start as int, a.end as int) == out.subrange(b.start as int, b.end as int),
        forall|i: int| 0 <= i < a.children@.len() ==> equivalent(#[trigger] a.children@[i], b.children@[i], src, out),
{
    assert forall|i: int| 0 <= i < a.children@.len() implies equivalent(#[trigger] a.children@[i], b.children@[i], src, out) by {
        lemma_equivalent_child(a, b, src, out, a.children@.len() as int, i);
    }
}

proof fn lemma_equivalent_child(a: SyntaxNode, b: SyntaxNode, src: Seq<u8>, out: Seq<u8>, hi: int, i: int)
    requires
        equivalent_children(a, b, src, out, hi),
        0 <= i < hi <= a.children@.len(),
        hi <= b.children@.len(),
    ensures
        equivalent(a.children@[i], b.children@[i], src, out),
    decreases hi,
{
    if i < hi - 1 {
        lemma_equivalent_child(a, b, src, out, hi - 1, i);
    }
}

/// Every tree is equivalent to itself.
pub proof fn equivalence_is_reflexive(t: SyntaxNode, src: Seq<u8>)
    ensures
        equivalent(t, t, src, src),
    decreases t, 1int, 0int,
{
    lemma_reflexive_children(t, src, t.children@.len() as int);
}

proof fn lemma_reflexive_children(t: SyntaxNode, src: Seq<u8>, hi: int)
    requires
        0 <= hi <= t.children@.len(),
    ensures
        equivalent_children(t, t, src, src, hi),
    decreases t, 0int, hi,
{
    if hi > 0 {
        lemma_reflexive_children(t, src, hi - 1);
        equivalence_is_reflexive(t.children@[hi - 1], src);
    }
}

/// Equivalence does not depend on which tree comes first.
pub proof fn equivalence_is_symmetric(a: SyntaxNode, b: SyntaxNode, src: Seq<u8>, out: Seq<u8>)
    requires
        equivalent(a, b, src, out),
    ensures
        equivalent(b, a, out, src),
    decreases a, 1int, 0int,
{
    lemma_symmetric_children(a, b, src, out, a.children@.len() as int);
}

proof fn lemma_symmetric_children(a: SyntaxNode, b: SyntaxNode, src: Seq<u8>, out: Seq<u8>, hi: int)
    requires
        0 <= hi <= a.children@.len(),
        a.children@.len() == b.children@.len(),
        equivalent_children(a, b, src, out, hi),
    ensures
        equivalent_children(b, a, out, src, hi),
    decreases a, 0int, hi,
{
    if hi > 0 {
        lemma_symmetric_children(a, b, src, out, hi - 1);
        equivalence_is_symmetric(a.children@[hi - 1], b.children@[hi - 1], src, out);
    }
}

/// Trees equivalent to a common tree are equivalent to each other.
pub proof fn equivalence_is_transitive(
    a: SyntaxNode,
    b: SyntaxNode,
    c: SyntaxNode,
    sa: Seq<u8>,
    sb: Seq<u8>,
    sc: Seq<u8>,
)
    requires
        equivalent(a, b, sa, sb),
        equivalent(b, c, sb, sc),
    ensures
        equivalent(a, c, sa, sc),
    decreases a, 1int, 0int,
{
    lemma_transitive_children(a, b, c, sa, sb, sc, a.children@.len() as int);
}

proof fn lemma_transitive_children(
    a: SyntaxNode,
    b: SyntaxNode,
    c: SyntaxNode,
    sa: Seq<u8>,
    sb: Seq<u8>,
    sc: Seq<u8>,
    hi: int,
)
    requires
        0 <= hi <= a.children@.len(),
        a.children@.len() == b.children@.len(),
        b.children@.len() == c.children@.len(),
        equivalent_children(a, b, sa, sb, hi),
        equivalent_children(b, c, sb, sc, hi),
    ensures
        equivalent_children(a, c, sa, sc, hi),
    decreases a, 0int, hi,
{
    if hi > 0 {
        lemma_transitive_children(a, b, c, sa, sb, sc, hi - 1);
        equivalence_is_transitive(
            a.children@[hi - 1],
            b.children@[hi - 1],
            c.children@[hi - 1],
            sa,
            sb,
            sc,
        );
    }
}

/// The texts of the tree's leaves (its childless nodes), in order.
pub open spec fn leaves(src: Seq<u8>, n: SyntaxNode) -> Seq<Seq<u8>>
    decreases n, 1int, 0int,
{
    if n.children@.len() == 0 {
        seq![node_text(src, n)]
    } else {
        leaves_in(src, n, n.children@.len() as int)
    }
}

/// The leaf texts of the first `hi` children of `p`.
pub open spec fn leaves_in(src: Seq<u8>, p: SyntaxNode, hi: int) -> Seq<Seq<u8>>
    decreases p, 0int, hi,
{
    if hi <= 0 || hi > p.children@.len() {
        Seq::empty()
    } else {
        leaves_in(src, p, hi - 1) + leaves(src, p.children@[hi - 1])
    }
}

/// Equivalent trees have the same leaf texts, in the same order: a tree
/// equivalent to the input's holds every token of it, byte for byte.
pub proof fn equivalent_trees_share_leaves(a: SyntaxNode, b: SyntaxNode, src: Seq<u8>, out: Seq<u8>)
    requires
        equivalent(a, b, src, out),
    ensures
        leaves(src, a) == leaves(out, b),
    decreases a, 1int, 0int,
{
    if a.children@.len() > 0 {
        lemma_leaves_in(a, b, src, out, a.children@.len() as int);
    }
}

proof fn lemma_leaves_in(a: SyntaxNode, b: SyntaxNode, src: Seq<u8>, out: Seq<u8>, hi: int)
    requires
        0 <= hi <= a.children@.len(),
        a.children@.len() == b.children@.len(),
        equivalent_children(a, b, src, out, hi),
    ensures
        leaves_in(src, a, hi) == leaves_in(out, b, hi),
    decreases a, 0int, hi,
{
    if hi > 0 {
        lemma_leaves_in(a, b, src, out, hi - 1);
        equivalent_trees_share_leaves(a.children@[hi - 1], b.children@[hi - 1], src, out);
    }
}

}
