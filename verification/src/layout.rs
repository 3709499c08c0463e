//! The formatting rules, stated as the document each node is laid out as.
use vstd::prelude::*;
use crate::doc::{cat, grouped, nested, DocView};
use crate::syntax::{is_atom, node_text, Kind, SyntaxNode};

verus! {

/// The bytes between two adjacent siblings.
pub open spec fn gap(src: Seq<u8>, prev: SyntaxNode, next: SyntaxNode) -> Seq<u8> {
    src.subrange(prev.end as int, next.start as int)
}

/// No line feed or carriage return separates the two nodes.
pub open spec fn same_line(src: Seq<u8>, prev: SyntaxNode, next: SyntaxNode) -> bool {
    !gap(src, prev, next).contains(10u8) && !gap(src, prev, next).contains(13u8)
}

pub open spec fn count_byte(s: Seq<u8>, b: u8) -> nat
    decreases s.len(),
{
    if s.len() == 0 {
        0
    } else {
        count_byte(s.drop_last(), b) + if s.last() == b { 1nat } else { 0nat }
    }
}

/// The gap holds at least two line endings (line feeds where it holds any,
/// carriage returns otherwise): the source had a blank line there.
pub open spec fn blank_line(src: Seq<u8>, prev: SyntaxNode, next: SyntaxNode) -> bool {
    let g = gap(src, prev, next);
    let newline: u8 = if g.contains(10u8) { 10u8 } else { 13u8 };
    count_byte(g, newline) >= 2
}

/// Kinds whose last child is not followed into when looking for a trailing comment.
pub open spec fn opaque_tail(k: Kind) -> bool {
    k == Kind::StringLiteral || k == Kind::CharacterLiteral || k == Kind::Comment
}

pub open spec fn starts_with_slashes(t: Seq<u8>) -> bool {
    t.len() >= 2 && t[0] == 47u8 && t[1] == 47u8
}

/// The node's text ends with a `//` comment, which runs to the end of its line.
pub open spec fn ends_line_comment(src: Seq<u8>, n: SyntaxNode) -> bool
    decreases n,
{
    if n.children@.len() > 0 && !opaque_tail(n.kind) {
        ends_line_comment(src, n.children@.last())
    } else {
        n.kind == Kind::Comment && starts_with_slashes(node_text(src, n))
    }
}

/// A line break, doubled where the source had a blank line.
pub open spec fn hard_separator(src: Seq<u8>, prev: SyntaxNode, next: SyntaxNode) -> DocView {
    if blank_line(src, prev, next) {
        cat(DocView::Hardline, DocView::Hardline)
    } else {
        DocView::Hardline
    }
}

/// A token: plain text, or kept verbatim where it spans lines.
pub open spec fn literal(t: Seq<u8>) -> DocView {
    if t.contains(10u8) {
        DocView::Verbatim(t)
    } else {
        DocView::Text(t)
    }
}

pub open spec fn closes_tightly(k: Kind) -> bool {
    k == Kind::Comma || k == Kind::Semicolon || k == Kind::CloseParen || k == Kind::CloseBracket
        || k == Kind::CloseByteBracket
}

pub open spec fn keyword_before_paren(k: Kind) -> bool {
    k == Kind::If || k == Kind::While || k == Kind::For || k == Kind::Switch || k == Kind::Catch
}

pub open spec fn tight_parent(k: Kind) -> bool {
    k == Kind::Symbol || k == Kind::Annotation || k == Kind::NullableType
        || k == Kind::RightShiftOperator || k == Kind::UpdateExpression || k == Kind::SignedNumber
}

/// The last byte of `a` and the first byte of `b` are the same sign,
/// so that writing them together would make an increment or decrement.
pub open spec fn same_sign(a: Seq<u8>, b: Seq<u8>) -> bool {
    &&& a.len() > 0
    &&& b.len() > 0
    &&& a.last() == b[0]
    &&& (a.last() == 43u8 || a.last() == 45u8)
}

/// The last byte of `prev`'s text and the first byte of `next`'s are the same sign.
pub open spec fn node_text_sign_pair(src: Seq<u8>, prev: SyntaxNode, next: SyntaxNode) -> bool {
    same_sign(node_text(src, prev), node_text(src, next))
}

/// The whitespace between two adjacent children of a node of kind `parent`.
pub open spec fn separator(src: Seq<u8>, parent: Kind, prev: SyntaxNode, next: SyntaxNode) -> DocView {
    let left = prev.kind;
    let right = next.kind;
    if ends_line_comment(src, prev) {
        DocView::Hardline
    } else if left == Kind::Comment || right == Kind::Comment {
        if same_line(src, prev, next) {
            DocView::Space
        } else {
            hard_separator(src, prev, next)
        }
    } else if left == Kind::Annotations {
        DocView::Hardline
    } else if closes_tightly(right) || left == Kind::Dot || right == Kind::Dot
        || right == Kind::Parameters || right == Kind::Arguments
        || (right == Kind::Colon && (parent == Kind::SwitchCase || parent == Kind::SwitchDefault))
        || (right == Kind::OpenAngle && parent == Kind::GenericType) {
        DocView::Nil
    } else if left == Kind::Comma || (left == Kind::Semicolon && parent == Kind::ForStatement) {
        DocView::Line
    } else if left == Kind::OpenParen || left == Kind::OpenBracket {
        DocView::Nil
    } else if right == Kind::OpenParen {
        if keyword_before_paren(left) {
            DocView::Space
        } else {
            DocView::Nil
        }
    } else if right == Kind::OpenBracket {
        if left == Kind::New {
            DocView::Space
        } else {
            DocView::Nil
        }
    } else if tight_parent(parent) {
        DocView::Nil
    } else if parent == Kind::UnaryExpression {
        if node_text_sign_pair(src, prev, next) {
            DocView::Space
        } else {
            DocView::Nil
        }
    } else {
        DocView::Space
    }
}

pub open spec fn is_body_kind(k: Kind) -> bool {
    k == Kind::Block || k == Kind::ClassBody || k == Kind::ModuleBody || k == Kind::SwitchBody
        || k == Kind::EnumBody
}

pub open spec fn is_delimited_kind(k: Kind) -> bool {
    k == Kind::Parameters || k == Kind::Arguments || k == Kind::ParenthesizedExpression
        || k == Kind::TupleType || k == Kind::ArrayExpression || k == Kind::ByteArrayExpression
        || k == Kind::AnnotationArguments || k == Kind::AnnotationArray || k == Kind::Annotations
}

pub open spec fn is_expression_kind(k: Kind) -> bool {
    k == Kind::BinaryExpression || k == Kind::UnionType || k == Kind::ConditionalExpression
}

pub open spec fn is_declaration_list(k: Kind) -> bool {
    k == Kind::VariableDeclaration || k == Kind::LocalVariableDeclaration
        || k == Kind::ForVariableDeclaration || k == Kind::ExpressionList
}

/// The first index in `lo..hi` of a child of kind `k`.
pub open spec fn first_of(p: SyntaxNode, k: Kind, lo: int, hi: int) -> Option<int>
    decreases hi - lo,
{
    if lo >= hi {
        None
    } else if p.children@[lo].kind == k {
        Some(lo)
    } else {
        first_of(p, k, lo + 1, hi)
    }
}

/// The last index in `lo..hi` of a child of kind `k`.
pub open spec fn last_of(p: SyntaxNode, k: Kind, lo: int, hi: int) -> Option<int>
    decreases hi - lo,
{
    if lo >= hi {
        None
    } else if p.children@[hi - 1].kind == k {
        Some(hi - 1)
    } else {
        last_of(p, k, lo, hi - 1)
    }
}

/// The first index in `lo..hi` of a child that is a body.
pub open spec fn first_body(p: SyntaxNode, lo: int, hi: int) -> Option<int>
    decreases hi - lo,
{
    if lo >= hi {
        None
    } else if is_body_kind(p.children@[lo].kind) {
        Some(lo)
    } else {
        first_body(p, lo + 1, hi)
    }
}

/// The children that the rules for the node's own kind rely on are present.
pub open spec fn shape_ok(n: SyntaxNode) -> bool {
    let len = n.children@.len() as int;
    if is_atom(n) {
        true
    } else if is_body_kind(n.kind) || is_delimited_kind(n.kind) || n.kind == Kind::DictionaryExpression
        || n.kind == Kind::DictionaryType {
        len >= 2
    } else if n.kind == Kind::InterfaceType {
        first_of(n, Kind::OpenBrace, 0, len) matches Some(o) && 0 < o && len - o >= 2
    } else if n.kind == Kind::GenericType {
        first_of(n, Kind::OpenAngle, 0, len) matches Some(o) && 0 < o && len - o >= 2
    } else if n.kind == Kind::SwitchCase || n.kind == Kind::SwitchDefault {
        first_of(n, Kind::Colon, 0, len) is Some
    } else if n.kind == Kind::MethodType && n.children@[0].kind == Kind::OpenParen {
        len >= 2
    } else if n.kind == Kind::ForStatement || n.kind == Kind::CatchClause {
        &&& first_of(n, Kind::OpenParen, 0, len) matches Some(o)
        &&& 0 < o
        &&& last_of(n, Kind::CloseParen, 0, len) matches Some(c)
        &&& o < c
    } else {
        true
    }
}

/// Every node of the tree that the layout rules descend into (every node
/// but those below an atom) has the shape its rules rely on.
pub open spec fn shaped(n: SyntaxNode) -> bool
    decreases n,
{
    shape_ok(n) && (is_atom(n) || shaped_list(n.children@))
}

/// Every tree of the sequence is shaped.
pub open spec fn shaped_list(s: Seq<SyntaxNode>) -> bool
    decreases s,
{
    s.len() == 0 || (shaped_list(s.drop_last()) && shaped(s.last()))
}

/// The children `lo..hi` of `p`, in range.
pub open spec fn in_range(p: SyntaxNode, lo: int, hi: int) -> bool {
    0 <= lo <= hi <= p.children@.len()
}

/// The document a node is laid out as, with `ind` columns per indentation level.
pub open spec fn print_node(src: Seq<u8>, ind: isize, n: SyntaxNode) -> DocView
    decreases n, 6int, 0int,
{
    let len = n.children@.len() as int;
    if is_atom(n) {
        literal(node_text(src, n))
    } else if n.kind == Kind::SourceFile {
        print_vertical(src, ind, n, 0, len)
    } else if is_body_kind(n.kind) {
        print_body(src, ind, n, 0, len)
    } else if n.kind == Kind::InterfaceType {
        match first_of(n, Kind::OpenBrace, 0, len) {
            Some(o) if 0 < o <= len => cat(
                cat(
                    print_inline(src, ind, n, 0, o),
                    separator(src, n.kind, n.children@[o - 1], n.children@[o]),
                ),
                print_body(src, ind, n, o, len),
            ),
            _ => DocView::Nil,
        }
    } else if n.kind == Kind::SwitchCase || n.kind == Kind::SwitchDefault {
        print_case(src, ind, n)
    } else if is_delimited_kind(n.kind) {
        print_delimited(src, ind, n, 0, len, false)
    } else if n.kind == Kind::DictionaryExpression || n.kind == Kind::DictionaryType {
        print_delimited(src, ind, n, 0, len, true)
    } else if n.kind == Kind::GenericType {
        match first_of(n, Kind::OpenAngle, 0, len) {
            Some(o) if 0 < o <= len => cat(
                cat(
                    print_inline(src, ind, n, 0, o),
                    separator(src, n.kind, n.children@[o - 1], n.children@[o]),
                ),
                print_delimited(src, ind, n, o, len, false),
            ),
            _ => DocView::Nil,
        }
    } else if n.kind == Kind::MethodType && n.children@[0].kind == Kind::OpenParen {
        print_delimited(src, ind, n, 0, len, false)
    } else if n.kind == Kind::ForStatement || n.kind == Kind::CatchClause {
        print_control(src, ind, n)
    } else if is_expression_kind(n.kind) {
        print_expression(src, ind, n)
    } else {
        print_inline(src, ind, n, 0, len)
    }
}

/// Children `lo..hi` one per line, keeping blank lines, same-line comments
/// and the placement of commas.
pub open spec fn print_vertical(src: Seq<u8>, ind: isize, p: SyntaxNode, lo: int, hi: int) -> DocView
    decreases p, 1int, hi - lo,
{
    if !in_range(p, lo, hi) || hi == lo {
        DocView::Nil
    } else {
        cat(print_node(src, ind, p.children@[lo]), vertical_tail(src, ind, p, lo + 1, hi))
    }
}

/// What goes between children `i - 1` and `i` of a vertical list.
pub open spec fn vertical_separator(src: Seq<u8>, prev: SyntaxNode, child: SyntaxNode) -> DocView {
    if ends_line_comment(src, prev) {
        hard_separator(src, prev, child)
    } else if child.kind == Kind::Comma {
        DocView::Nil
    } else if child.kind == Kind::Comment && same_line(src, prev, child) {
        DocView::Space
    } else {
        hard_separator(src, prev, child)
    }
}

/// Children `lo..hi` of a vertical list that follow an earlier child, each
/// after its separator; the halves of the range are joined, so the document
/// is only as deep as the logarithm of the range's length.
pub open spec fn vertical_tail(src: Seq<u8>, ind: isize, p: SyntaxNode, lo: int, hi: int) -> DocView
    decreases p, 1int, hi - lo,
{
    if !in_range(p, lo, hi) || lo < 1 || hi <= lo {
        DocView::Nil
    } else if hi - lo == 1 {
        cat(
            vertical_separator(src, p.children@[lo - 1], p.children@[lo]),
            print_node(src, ind, p.children@[lo]),
        )
    } else {
        let mid = lo + (hi - lo) / 2;
        cat(vertical_tail(src, ind, p, lo, mid), vertical_tail(src, ind, p, mid, hi))
    }
}

/// A braced body: the first and last child around an indented block.
pub open spec fn print_body(src: Seq<u8>, ind: isize, p: SyntaxNode, lo: int, hi: int) -> DocView
    decreases p, 2int, 0int,
{
    if !in_range(p, lo, hi) || hi - lo < 2 {
        DocView::Nil
    } else if hi - lo == 2 {
        cat(print_node(src, ind, p.children@[lo]), print_node(src, ind, p.children@[hi - 1]))
    } else {
        cat(
            cat(
                cat(
                    print_node(src, ind, p.children@[lo]),
                    nested(cat(DocView::Hardline, print_vertical(src, ind, p, lo + 1, hi - 1)), ind),
                ),
                DocView::Hardline,
            ),
            print_node(src, ind, p.children@[hi - 1]),
        )
    }
}

/// A `case` or `default` label and its indented statements.
pub open spec fn print_case(src: Seq<u8>, ind: isize, p: SyntaxNode) -> DocView
    decreases p, 3int, 0int,
{
    let len = p.children@.len() as int;
    match first_of(p, Kind::Colon, 0, len) {
        Some(colon) if 0 <= colon < len => {
            let header = print_inline(src, ind, p, 0, colon + 1);
            if colon + 1 == len {
                header
            } else if p.children@[colon + 1].kind == Kind::Comment && same_line(
                src,
                p.children@[colon],
                p.children@[colon + 1],
            ) {
                let header2 = cat(cat(header, DocView::Space), print_node(src, ind, p.children@[colon + 1]));
                if len - (colon + 1) == 1 {
                    header2
                } else {
                    cat(header2, nested(cat(DocView::Hardline, print_vertical(src, ind, p, colon + 2, len)), ind))
                }
            } else {
                cat(header, nested(cat(DocView::Hardline, print_vertical(src, ind, p, colon + 1, len)), ind))
            }
        },
        _ => DocView::Nil,
    }
}

/// Children `lo..hi` between an opening and a closing delimiter, broken
/// one item per line, all together, where the line is too long.
pub open spec fn print_delimited(
    src: Seq<u8>,
    ind: isize,
    p: SyntaxNode,
    lo: int,
    hi: int,
    spaced: bool,
) -> DocView
    decreases p, 2int, 0int,
{
    if !in_range(p, lo, hi) || hi - lo < 2 {
        DocView::Nil
    } else {
        let last = hi - 1;
        let open = print_node(src, ind, p.children@[lo]);
        let close = print_node(src, ind, p.children@[last]);
        if last == lo + 1 {
            cat(open, close)
        } else {
            let edge = if spaced { DocView::Line } else { DocView::SoftLine };
            let closing = if ends_line_comment(src, p.children@[last - 1]) {
                DocView::Hardline
            } else {
                edge
            };
            grouped(
                cat(
                    cat(cat(open, nested(cat(edge, print_sequence(src, ind, p, lo + 1, last)), ind)), closing),
                    close,
                ),
            )
        }
    }
}

/// A `for` statement or `catch` clause: its head, the parenthesized part,
/// and what follows.
pub open spec fn print_control(src: Seq<u8>, ind: isize, p: SyntaxNode) -> DocView
    decreases p, 3int, 0int,
{
    let len = p.children@.len() as int;
    match (first_of(p, Kind::OpenParen, 0, len), last_of(p, Kind::CloseParen, 0, len)) {
        (Some(open), Some(close)) if 0 < open < close < len => {
            let head = cat(
                cat(
                    print_inline(src, ind, p, 0, open),
                    separator(src, p.kind, p.children@[open - 1], p.children@[open]),
                ),
                print_delimited(src, ind, p, open, close + 1, false),
            );
            if close + 1 < len {
                cat(
                    cat(head, separator(src, p.kind, p.children@[close], p.children@[close + 1])),
                    print_inline(src, ind, p, close + 1, len),
                )
            } else {
                head
            }
        },
        _ => DocView::Nil,
    }
}

/// Children `lo..hi` on one line where they fit; a body among them is kept
/// out of the group, so that its line breaks do not break the header.
pub open spec fn print_inline(src: Seq<u8>, ind: isize, p: SyntaxNode, lo: int, hi: int) -> DocView
    decreases p, 2int, 0int,
{
    match first_body(p, lo, hi) {
        Some(index) if lo < index && in_range(p, lo, hi) => cat(
            cat(
                grouped(print_sequence(src, ind, p, lo, index)),
                separator(src, p.kind, p.children@[index - 1], p.children@[index]),
            ),
            print_sequence(src, ind, p, index, hi),
        ),
        _ => grouped(print_sequence(src, ind, p, lo, hi)),
    }
}

/// Children `lo..hi` with the separators between them; in declaration
/// lists each item after a comma is indented where it breaks.
pub open spec fn print_sequence(src: Seq<u8>, ind: isize, p: SyntaxNode, lo: int, hi: int) -> DocView
    decreases p, 1int, hi - lo,
{
    if !in_range(p, lo, hi) || hi == lo {
        DocView::Nil
    } else {
        cat(print_node(src, ind, p.children@[lo]), sequence_tail(src, ind, p, lo + 1, hi))
    }
}

/// Children `lo..hi` of a sequence that follow an earlier child, each after
/// its separator (both indented after a comma in a declaration list); the
/// halves of the range are joined, so the document is only as deep as the
/// logarithm of the range's length.
pub open spec fn sequence_tail(src: Seq<u8>, ind: isize, p: SyntaxNode, lo: int, hi: int) -> DocView
    decreases p, 1int, hi - lo,
{
    if !in_range(p, lo, hi) || lo < 1 || hi <= lo {
        DocView::Nil
    } else if hi - lo == 1 {
        let prev = p.children@[lo - 1];
        let child = p.children@[lo];
        let item = cat(separator(src, p.kind, prev, child), print_node(src, ind, child));
        if prev.kind == Kind::Comma && is_declaration_list(p.kind) {
            nested(item, ind)
        } else {
            item
        }
    } else {
        let mid = lo + (hi - lo) / 2;
        cat(sequence_tail(src, ind, p, lo, mid), sequence_tail(src, ind, p, mid, hi))
    }
}

/// The operator that a child of an expression node is.
pub open spec fn is_operator(parent: Kind, child: SyntaxNode) -> bool {
    if parent == Kind::ConditionalExpression {
        child.kind == Kind::Question || child.kind == Kind::Colon
    } else {
        child.kind != Kind::Comment && (!child.named || child.kind == Kind::RightShiftOperator)
    }
}

/// The operands and operators after the first child, each operator
/// preceded by a break that a group may turn into a blank.
pub open spec fn print_operands(src: Seq<u8>, ind: isize, p: SyntaxNode, hi: int) -> DocView
    decreases p, 1int, hi,
{
    if !in_range(p, 0, hi) || hi <= 1 {
        DocView::Nil
    } else {
        let prev = p.children@[hi - 2];
        let child = p.children@[hi - 1];
        let sep = if is_operator(p.kind, child) && prev.kind != Kind::Comment && !ends_line_comment(src, prev) {
            DocView::Line
        } else {
            separator(src, p.kind, prev, child)
        };
        cat(cat(print_operands(src, ind, p, hi - 1), sep), print_node(src, ind, child))
    }
}

/// A binary, union or conditional expression.
pub open spec fn print_expression(src: Seq<u8>, ind: isize, p: SyntaxNode) -> DocView
    decreases p, 2int, 0int,
{
    let len = p.children@.len() as int;
    if len == 0 {
        DocView::Nil
    } else {
        grouped(cat(print_node(src, ind, p.children@[0]), nested(print_operands(src, ind, p, len), ind)))
    }
}

/// Each tree of a shaped sequence is shaped.
pub proof fn lemma_shaped_list(s: Seq<SyntaxNode>, i: int)
    requires
        shaped_list(s),
        0 <= i < s.len(),
    ensures
        shaped(s[i]),
    decreases s.len(),
{
    if i < s.len() - 1 {
        lemma_shaped_list(s.drop_last(), i);
    }
}

/// What being shaped says of the node itself and of its children.
pub proof fn lemma_shaped(n: SyntaxNode)
    requires
        shaped(n),
    ensures
        shape_ok(n),
        !is_atom(n) ==> forall|i: int| 0 <= i < n.children@.len() ==> #[trigger] shaped(n.children@[i]),
{
    assert forall|i: int| !is_atom(n) && 0 <= i < n.children@.len() implies #[trigger] shaped(n.children@[i]) by {
        lemma_shaped_list(n.children@, i);
    }
}

pub proof fn lemma_first_of_bounds(p: SyntaxNode, k: Kind, lo: int, hi: int)
    ensures
        first_of(p, k, lo, hi) matches Some(i) ==> lo <= i < hi && p.children@[i].kind == k,
    decreases hi - lo,
{
    if lo < hi && p.children@[lo].kind != k {
        lemma_first_of_bounds(p, k, lo + 1, hi);
    }
}

pub proof fn lemma_last_of_bounds(p: SyntaxNode, k: Kind, lo: int, hi: int)
    ensures
        last_of(p, k, lo, hi) matches Some(i) ==> lo <= i < hi && p.children@[i].kind == k,
    decreases hi - lo,
{
    if lo < hi && p.children@[hi - 1].kind != k {
        lemma_last_of_bounds(p, k, lo, hi - 1);
    }
}

pub proof fn lemma_first_body_bounds(p: SyntaxNode, lo: int, hi: int)
    ensures
        first_body(p, lo, hi) matches Some(i) ==> lo <= i < hi,
    decreases hi - lo,
{
    if lo < hi && !is_body_kind(p.children@[lo].kind) {
        lemma_first_body_bounds(p, lo + 1, hi);
    }
}

}
