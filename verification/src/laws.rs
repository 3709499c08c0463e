//! What the layout rules keep: the tokens of the source, in order, with
//! nothing but whitespace added between them.
use vstd::prelude::*;
use crate::doc::{cat, doc_wf, grouped, nested, tokens, DocView};
use crate::layout::{
    closes_tightly, count_byte, ends_line_comment, is_operator, node_text_sign_pair, first_body, first_of, hard_separator, in_range, is_body_kind, last_of, lemma_first_body_bounds,
    lemma_first_of_bounds, lemma_last_of_bounds, lemma_shaped, literal, print_body, print_case,
    print_control, print_delimited, print_expression, print_inline, print_node, print_operands,
    print_sequence, print_vertical, separator, sequence_tail, shape_ok, shaped, vertical_tail,
};
use crate::printer::document;
use crate::syntax::{atoms, atoms_seq, is_atom, node_text, Kind, SyntaxNode};

verus! {

/// A document that adds nothing but whitespace.
pub open spec fn blank(d: DocView) -> bool {
    tokens(d) == Seq::<Seq<u8>>::empty() && doc_wf(d)
}

proof fn lemma_separator_blank(src: Seq<u8>, parent: Kind, prev: SyntaxNode, next: SyntaxNode)
    ensures
        blank(separator(src, parent, prev, next)),
        blank(hard_separator(src, prev, next)),
{
    reveal_with_fuel(tokens, 5);
    reveal_with_fuel(doc_wf, 5);
    assert(tokens(cat(DocView::Hardline, DocView::Hardline)) =~= Seq::<Seq<u8>>::empty());
}

proof fn lemma_literal(t: Seq<u8>)
    ensures
        tokens(literal(t)) == seq![t],
        doc_wf(literal(t)),
{
}

/// The atoms of children `lo..hi` are those of `lo..mid` followed by those of `mid..hi`.
pub proof fn lemma_atoms_split(src: Seq<u8>, s: Seq<SyntaxNode>, lo: int, mid: int, hi: int)
    requires
        0 <= lo <= mid <= hi <= s.len(),
    ensures
        atoms_seq(src, s.subrange(lo, hi)) == atoms_seq(src, s.subrange(lo, mid)) + atoms_seq(
            src,
            s.subrange(mid, hi),
        ),
    decreases hi - mid,
{
    if hi == mid {
        assert(s.subrange(mid, hi) =~= Seq::<SyntaxNode>::empty());
        assert(atoms_seq(src, s.subrange(mid, hi)) =~= Seq::<Seq<u8>>::empty());
        assert(atoms_seq(src, s.subrange(lo, mid)) + atoms_seq(src, s.subrange(mid, hi))
            =~= atoms_seq(src, s.subrange(lo, mid)));
    } else {
        lemma_atoms_split(src, s, lo, mid, hi - 1);
        assert(s.subrange(lo, hi).drop_last() =~= s.subrange(lo, hi - 1));
        assert(s.subrange(mid, hi).drop_last() =~= s.subrange(mid, hi - 1));
        assert(atoms_seq(src, s.subrange(lo, hi)) =~= atoms_seq(src, s.subrange(lo, mid))
            + atoms_seq(src, s.subrange(mid, hi)));
    }
}

/// The atoms of children `lo..hi` are those of `lo..hi - 1` followed by those of the last.
pub proof fn lemma_atoms_step(src: Seq<u8>, s: Seq<SyntaxNode>, lo: int, hi: int)
    requires
        0 <= lo < hi <= s.len(),
    ensures
        atoms_seq(src, s.subrange(lo, hi)) == atoms_seq(src, s.subrange(lo, hi - 1)) + atoms(
            src,
            s[hi - 1],
        ),
{
    assert(s.subrange(lo, hi).drop_last() =~= s.subrange(lo, hi - 1));
}

proof fn lemma_atoms_empty(src: Seq<u8>, s: Seq<SyntaxNode>, lo: int)
    requires
        0 <= lo <= s.len(),
    ensures
        atoms_seq(src, s.subrange(lo, lo)) == Seq::<Seq<u8>>::empty(),
{
    assert(s.subrange(lo, lo) =~= Seq::<SyntaxNode>::empty());
}

proof fn lemma_atoms_one(src: Seq<u8>, s: Seq<SyntaxNode>, i: int)
    requires
        0 <= i < s.len(),
    ensures
        atoms_seq(src, s.subrange(i, i + 1)) == atoms(src, s[i]),
{
    lemma_atoms_step(src, s, i, i + 1);
    lemma_atoms_empty(src, s, i);
    assert(Seq::<Seq<u8>>::empty() + atoms(src, s[i]) =~= atoms(src, s[i]));
}

proof fn lemma_child_shaped(p: SyntaxNode, i: int)
    requires
        shaped(p),
        !is_atom(p),
        0 <= i < p.children@.len(),
    ensures
        shaped(p.children@[i]),
{
    lemma_shaped(p);
}

proof fn lemma_node(src: Seq<u8>, ind: isize, n: SyntaxNode)
    requires
        shaped(n),
    ensures
        tokens(print_node(src, ind, n)) == atoms(src, n),
        doc_wf(print_node(src, ind, n)),
    decreases n, 6int, 0int,
{
    reveal_with_fuel(tokens, 5);
    reveal_with_fuel(doc_wf, 5);
    let len = n.children@.len() as int;
    if is_atom(n) {
        lemma_literal(node_text(src, n));
    } else {
        lemma_shaped(n);
        assert(n.children@.subrange(0, len) =~= n.children@);
        if n.kind == Kind::SourceFile {
            lemma_vertical(src, ind, n, 0, len);
        } else if is_body_kind(n.kind) {
            lemma_body(src, ind, n, 0, len);
        } else if n.kind == Kind::InterfaceType {
            lemma_first_of_bounds(n, Kind::OpenBrace, 0, len);
            let o = first_of(n, Kind::OpenBrace, 0, len).unwrap();
            lemma_inline(src, ind, n, 0, o);
            lemma_separator_blank(src, n.kind, n.children@[o - 1], n.children@[o]);
            lemma_body(src, ind, n, o, len);
            lemma_atoms_split(src, n.children@, 0, o, len);
            assert(tokens(print_node(src, ind, n)) =~= atoms(src, n));
        } else if n.kind == Kind::SwitchCase || n.kind == Kind::SwitchDefault {
            lemma_case(src, ind, n);
        } else if crate::layout::is_delimited_kind(n.kind) {
            lemma_delimited(src, ind, n, 0, len, false);
        } else if n.kind == Kind::DictionaryExpression || n.kind == Kind::DictionaryType {
            lemma_delimited(src, ind, n, 0, len, true);
        } else if n.kind == Kind::GenericType {
            lemma_first_of_bounds(n, Kind::OpenAngle, 0, len);
            let o = first_of(n, Kind::OpenAngle, 0, len).unwrap();
            lemma_inline(src, ind, n, 0, o);
            lemma_separator_blank(src, n.kind, n.children@[o - 1], n.children@[o]);
            lemma_delimited(src, ind, n, o, len, false);
            lemma_atoms_split(src, n.children@, 0, o, len);
            assert(tokens(print_node(src, ind, n)) =~= atoms(src, n));
        } else if n.kind == Kind::MethodType && n.children@[0].kind == Kind::OpenParen {
            lemma_delimited(src, ind, n, 0, len, false);
        } else if n.kind == Kind::ForStatement || n.kind == Kind::CatchClause {
            lemma_control(src, ind, n);
        } else if crate::layout::is_expression_kind(n.kind) {
            lemma_expression(src, ind, n);
        } else {
            lemma_inline(src, ind, n, 0, len);
        }
    }
}

proof fn lemma_vertical(src: Seq<u8>, ind: isize, p: SyntaxNode, lo: int, hi: int)
    requires
        shaped(p),
        !is_atom(p),
        in_range(p, lo, hi),
    ensures
        tokens(print_vertical(src, ind, p, lo, hi)) == atoms_seq(src, p.children@.subrange(lo, hi)),
        doc_wf(print_vertical(src, ind, p, lo, hi)),
    decreases p, 1int, hi - lo,
{
    reveal_with_fuel(tokens, 3);
    reveal_with_fuel(doc_wf, 3);
    if hi == lo {
        lemma_atoms_empty(src, p.children@, lo);
    } else {
        lemma_child_shaped(p, lo);
        lemma_node(src, ind, p.children@[lo]);
        lemma_vertical_tail(src, ind, p, lo + 1, hi);
        lemma_atoms_split(src, p.children@, lo, lo + 1, hi);
        lemma_atoms_one(src, p.children@, lo);
    }
}

proof fn lemma_vertical_tail(src: Seq<u8>, ind: isize, p: SyntaxNode, lo: int, hi: int)
    requires
        shaped(p),
        !is_atom(p),
        in_range(p, lo, hi),
        1 <= lo,
    ensures
        tokens(vertical_tail(src, ind, p, lo, hi)) == atoms_seq(src, p.children@.subrange(lo, hi)),
        doc_wf(vertical_tail(src, ind, p, lo, hi)),
    decreases p, 1int, hi - lo,
{
    reveal_with_fuel(tokens, 4);
    reveal_with_fuel(doc_wf, 4);
    if hi <= lo {
        lemma_atoms_empty(src, p.children@, lo);
    } else if hi - lo == 1 {
        lemma_child_shaped(p, lo);
        lemma_node(src, ind, p.children@[lo]);
        lemma_separator_blank(src, p.kind, p.children@[lo - 1], p.children@[lo]);
        lemma_atoms_one(src, p.children@, lo);
        assert(tokens(vertical_tail(src, ind, p, lo, hi)) =~= atoms_seq(src, p.children@.subrange(lo, hi)));
    } else {
        let mid = lo + (hi - lo) / 2;
        lemma_vertical_tail(src, ind, p, lo, mid);
        lemma_vertical_tail(src, ind, p, mid, hi);
        lemma_atoms_split(src, p.children@, lo, mid, hi);
    }
}

proof fn lemma_body(src: Seq<u8>, ind: isize, p: SyntaxNode, lo: int, hi: int)
    requires
        shaped(p),
        !is_atom(p),
        in_range(p, lo, hi),
        hi - lo >= 2,
    ensures
        tokens(print_body(src, ind, p, lo, hi)) == atoms_seq(src, p.children@.subrange(lo, hi)),
        doc_wf(print_body(src, ind, p, lo, hi)),
    decreases p, 2int, 0int,
{
    reveal_with_fuel(tokens, 8);
    reveal_with_fuel(doc_wf, 8);
    lemma_child_shaped(p, lo);
    lemma_child_shaped(p, hi - 1);
    lemma_node(src, ind, p.children@[lo]);
    lemma_node(src, ind, p.children@[hi - 1]);
    lemma_atoms_one(src, p.children@, lo);
    lemma_atoms_split(src, p.children@, lo, lo + 1, hi);
    lemma_atoms_step(src, p.children@, lo + 1, hi);
    if hi - lo == 2 {
        lemma_atoms_empty(src, p.children@, lo + 1);
        assert(tokens(print_body(src, ind, p, lo, hi)) =~= atoms_seq(
            src,
            p.children@.subrange(lo, hi),
        ));
    } else {
        lemma_vertical(src, ind, p, lo + 1, hi - 1);
        assert(tokens(print_body(src, ind, p, lo, hi)) =~= atoms_seq(
            src,
            p.children@.subrange(lo, hi),
        ));
    }
}

proof fn lemma_case(src: Seq<u8>, ind: isize, p: SyntaxNode)
    requires
        shaped(p),
        !is_atom(p),
        shape_ok(p),
        p.kind == Kind::SwitchCase || p.kind == Kind::SwitchDefault,
    ensures
        tokens(print_case(src, ind, p)) == atoms_seq(src, p.children@),
        doc_wf(print_case(src, ind, p)),
    decreases p, 3int, 0int,
{
    reveal_with_fuel(tokens, 8);
    reveal_with_fuel(doc_wf, 8);
    let len = p.children@.len() as int;
    assert(p.children@.subrange(0, len) =~= p.children@);
    lemma_first_of_bounds(p, Kind::Colon, 0, len);
    let colon = first_of(p, Kind::Colon, 0, len).unwrap();
    lemma_inline(src, ind, p, 0, colon + 1);
    if colon + 1 == len {
    } else {
        lemma_atoms_split(src, p.children@, 0, colon + 1, len);
        if p.children@[colon + 1].kind == Kind::Comment && crate::layout::same_line(
            src,
            p.children@[colon],
            p.children@[colon + 1],
        ) {
            lemma_child_shaped(p, colon + 1);
            lemma_node(src, ind, p.children@[colon + 1]);
            lemma_atoms_one(src, p.children@, colon + 1);
            lemma_atoms_split(src, p.children@, colon + 1, colon + 2, len);
            if len - (colon + 1) == 1 {
                lemma_atoms_empty(src, p.children@, len);
                assert(tokens(print_case(src, ind, p)) =~= atoms_seq(src, p.children@));
            } else {
                lemma_vertical(src, ind, p, colon + 2, len);
                assert(tokens(print_case(src, ind, p)) =~= atoms_seq(src, p.children@));
            }
        } else {
            lemma_vertical(src, ind, p, colon + 1, len);
            assert(tokens(print_case(src, ind, p)) =~= atoms_seq(src, p.children@));
        }
    }
}

proof fn lemma_delimited(src: Seq<u8>, ind: isize, p: SyntaxNode, lo: int, hi: int, spaced: bool)
    requires
        shaped(p),
        !is_atom(p),
        in_range(p, lo, hi),
        hi - lo >= 2,
    ensures
        tokens(print_delimited(src, ind, p, lo, hi, spaced)) == atoms_seq(
            src,
            p.children@.subrange(lo, hi),
        ),
        doc_wf(print_delimited(src, ind, p, lo, hi, spaced)),
    decreases p, 2int, 0int,
{
    reveal_with_fuel(tokens, 8);
    reveal_with_fuel(doc_wf, 8);
    let last = hi - 1;
    lemma_child_shaped(p, lo);
    lemma_child_shaped(p, last);
    lemma_node(src, ind, p.children@[lo]);
    lemma_node(src, ind, p.children@[last]);
    lemma_atoms_one(src, p.children@, lo);
    lemma_atoms_split(src, p.children@, lo, lo + 1, hi);
    lemma_atoms_step(src, p.children@, lo + 1, hi);
    if last == lo + 1 {
        lemma_atoms_empty(src, p.children@, lo + 1);
        assert(tokens(print_delimited(src, ind, p, lo, hi, spaced)) =~= atoms_seq(
            src,
            p.children@.subrange(lo, hi),
        ));
    } else {
        lemma_sequence(src, ind, p, lo + 1, last);
        assert(tokens(print_delimited(src, ind, p, lo, hi, spaced)) =~= atoms_seq(
            src,
            p.children@.subrange(lo, hi),
        ));
    }
}

proof fn lemma_control(src: Seq<u8>, ind: isize, p: SyntaxNode)
    requires
        shaped(p),
        !is_atom(p),
        shape_ok(p),
        p.kind == Kind::ForStatement || p.kind == Kind::CatchClause,
    ensures
        tokens(print_control(src, ind, p)) == atoms_seq(src, p.children@),
        doc_wf(print_control(src, ind, p)),
    decreases p, 3int, 0int,
{
    reveal_with_fuel(tokens, 8);
    reveal_with_fuel(doc_wf, 8);
    let len = p.children@.len() as int;
    assert(p.children@.subrange(0, len) =~= p.children@);
    lemma_first_of_bounds(p, Kind::OpenParen, 0, len);
    lemma_last_of_bounds(p, Kind::CloseParen, 0, len);
    let open = first_of(p, Kind::OpenParen, 0, len).unwrap();
    let close = last_of(p, Kind::CloseParen, 0, len).unwrap();
    lemma_inline(src, ind, p, 0, open);
    lemma_separator_blank(src, p.kind, p.children@[open - 1], p.children@[open]);
    lemma_delimited(src, ind, p, open, close + 1, false);
    lemma_atoms_split(src, p.children@, 0, open, close + 1);
    if close + 1 < len {
        lemma_separator_blank(src, p.kind, p.children@[close], p.children@[close + 1]);
        lemma_inline(src, ind, p, close + 1, len);
        lemma_atoms_split(src, p.children@, 0, close + 1, len);
        assert(tokens(print_control(src, ind, p)) =~= atoms_seq(src, p.children@));
    } else {
        assert(tokens(print_control(src, ind, p)) =~= atoms_seq(src, p.children@));
    }
}

proof fn lemma_inline(src: Seq<u8>, ind: isize, p: SyntaxNode, lo: int, hi: int)
    requires
        shaped(p),
        !is_atom(p),
        in_range(p, lo, hi),
    ensures
        tokens(print_inline(src, ind, p, lo, hi)) == atoms_seq(src, p.children@.subrange(lo, hi)),
        doc_wf(print_inline(src, ind, p, lo, hi)),
    decreases p, 2int, 0int,
{
    reveal_with_fuel(tokens, 5);
    reveal_with_fuel(doc_wf, 5);
    lemma_first_body_bounds(p, lo, hi);
    match first_body(p, lo, hi) {
        Some(index) if lo < index => {
            lemma_sequence(src, ind, p, lo, index);
            lemma_separator_blank(src, p.kind, p.children@[index - 1], p.children@[index]);
            lemma_sequence(src, ind, p, index, hi);
            lemma_atoms_split(src, p.children@, lo, index, hi);
            assert(tokens(print_inline(src, ind, p, lo, hi)) =~= atoms_seq(
                src,
                p.children@.subrange(lo, hi),
            ));
        },
        _ => {
            lemma_sequence(src, ind, p, lo, hi);
        },
    }
}

proof fn lemma_sequence(src: Seq<u8>, ind: isize, p: SyntaxNode, lo: int, hi: int)
    requires
        shaped(p),
        !is_atom(p),
        in_range(p, lo, hi),
    ensures
        tokens(print_sequence(src, ind, p, lo, hi)) == atoms_seq(src, p.children@.subrange(lo, hi)),
        doc_wf(print_sequence(src, ind, p, lo, hi)),
    decreases p, 1int, hi - lo,
{
    reveal_with_fuel(tokens, 3);
    reveal_with_fuel(doc_wf, 3);
    if hi == lo {
        lemma_atoms_empty(src, p.children@, lo);
    } else {
        lemma_child_shaped(p, lo);
        lemma_node(src, ind, p.children@[lo]);
        lemma_sequence_tail(src, ind, p, lo + 1, hi);
        lemma_atoms_split(src, p.children@, lo, lo + 1, hi);
        lemma_atoms_one(src, p.children@, lo);
    }
}

proof fn lemma_sequence_tail(src: Seq<u8>, ind: isize, p: SyntaxNode, lo: int, hi: int)
    requires
        shaped(p),
        !is_atom(p),
        in_range(p, lo, hi),
        1 <= lo,
    ensures
        tokens(sequence_tail(src, ind, p, lo, hi)) == atoms_seq(src, p.children@.subrange(lo, hi)),
        doc_wf(sequence_tail(src, ind, p, lo, hi)),
    decreases p, 1int, hi - lo,
{
    reveal_with_fuel(tokens, 4);
    reveal_with_fuel(doc_wf, 4);
    if hi <= lo {
        lemma_atoms_empty(src, p.children@, lo);
    } else if hi - lo == 1 {
        lemma_child_shaped(p, lo);
        lemma_node(src, ind, p.children@[lo]);
        lemma_separator_blank(src, p.kind, p.children@[lo - 1], p.children@[lo]);
        lemma_atoms_one(src, p.children@, lo);
        assert(tokens(sequence_tail(src, ind, p, lo, hi)) =~= atoms_seq(src, p.children@.subrange(lo, hi)));
    } else {
        let mid = lo + (hi - lo) / 2;
        lemma_sequence_tail(src, ind, p, lo, mid);
        lemma_sequence_tail(src, ind, p, mid, hi);
        lemma_atoms_split(src, p.children@, lo, mid, hi);
    }
}

proof fn lemma_operands(src: Seq<u8>, ind: isize, p: SyntaxNode, hi: int)
    requires
        shaped(p),
        !is_atom(p),
        1 <= hi <= p.children@.len(),
    ensures
        tokens(print_operands(src, ind, p, hi)) == atoms_seq(src, p.children@.subrange(1, hi)),
        doc_wf(print_operands(src, ind, p, hi)),
    decreases p, 1int, hi,
{
    reveal_with_fuel(tokens, 5);
    reveal_with_fuel(doc_wf, 5);
    if hi == 1 {
        lemma_atoms_empty(src, p.children@, 1);
    } else {
        lemma_operands(src, ind, p, hi - 1);
        lemma_child_shaped(p, hi - 1);
        lemma_node(src, ind, p.children@[hi - 1]);
        lemma_separator_blank(src, p.kind, p.children@[hi - 2], p.children@[hi - 1]);
        lemma_atoms_step(src, p.children@, 1, hi);
        assert(tokens(print_operands(src, ind, p, hi)) =~= atoms_seq(
            src,
            p.children@.subrange(1, hi),
        ));
    }
}

proof fn lemma_expression(src: Seq<u8>, ind: isize, p: SyntaxNode)
    requires
        shaped(p),
        !is_atom(p),
        p.children@.len() > 0,
    ensures
        tokens(print_expression(src, ind, p)) == atoms_seq(src, p.children@),
        doc_wf(print_expression(src, ind, p)),
    decreases p, 2int, 0int,
{
    reveal_with_fuel(tokens, 5);
    reveal_with_fuel(doc_wf, 5);
    let len = p.children@.len() as int;
    lemma_child_shaped(p, 0);
    lemma_node(src, ind, p.children@[0]);
    lemma_operands(src, ind, p, len);
    lemma_atoms_one(src, p.children@, 0);
    lemma_atoms_split(src, p.children@, 0, 1, len);
    assert(p.children@.subrange(0, len) =~= p.children@);
    assert(tokens(print_expression(src, ind, p)) =~= atoms_seq(src, p.children@));
}

/// Layout keeps every token: the tokens of the formatted document are the
/// texts of the tree's atoms, in source order, and nothing else; and no plain
/// token holds a line feed.
pub proof fn layout_keeps_tokens(src: Seq<u8>, ind: isize, root: SyntaxNode)
    requires
        shaped(root),
    ensures
        tokens(document(src, ind, root)) == atoms(src, root),
        doc_wf(document(src, ind, root)),
{
    reveal_with_fuel(tokens, 5);
    reveal_with_fuel(doc_wf, 5);
    lemma_node(src, ind, root);
    assert(tokens(document(src, ind, root)) =~= atoms(src, root));
}

/// What the rules put between two neighbouring children is whitespace.
pub proof fn separators_are_whitespace(src: Seq<u8>, parent: Kind, prev: SyntaxNode, next: SyntaxNode)
    ensures
        blank(separator(src, parent, prev, next)),
        blank(hard_separator(src, prev, next)),
{
    lemma_separator_blank(src, parent, prev, next);
}

/// A `//` comment runs to the end of its line, so the token after it always
/// starts a new line: the separator after a node that ends in one is a line
/// break, also between the operands of an expression.
pub proof fn line_comment_ends_the_line(src: Seq<u8>, parent: Kind, prev: SyntaxNode, next: SyntaxNode)
    requires
        ends_line_comment(src, prev),
    ensures
        separator(src, parent, prev, next) == DocView::Hardline,
        hard_separator(src, prev, next) == DocView::Hardline || hard_separator(src, prev, next)
            == cat(DocView::Hardline, DocView::Hardline),
        !(is_operator(parent, next) && prev.kind != Kind::Comment && !ends_line_comment(src, prev)),
{
}

/// In a unary expression, two neighbouring tokens whose touching bytes are the
/// same sign (`- -b`, `+ +a`) are never written together, which would make a
/// decrement or increment token.
pub proof fn same_signs_stay_apart(src: Seq<u8>, prev: SyntaxNode, next: SyntaxNode)
    requires
        node_text_sign_pair(src, prev, next),
        !closes_tightly(next.kind),
        next.kind != Kind::Dot && prev.kind != Kind::Dot,
        next.kind != Kind::Parameters && next.kind != Kind::Arguments,
        next.kind != Kind::OpenParen && next.kind != Kind::OpenBracket,
        prev.kind != Kind::Comma && prev.kind != Kind::OpenParen && prev.kind != Kind::OpenBracket,
    ensures
        separator(src, Kind::UnaryExpression, prev, next) != DocView::Nil,
{
}

/// A blank line between two statements is kept, as one blank line.
pub proof fn blank_lines_are_kept(src: Seq<u8>, prev: SyntaxNode, next: SyntaxNode)
    ensures
        crate::layout::blank_line(src, prev, next) ==> hard_separator(src, prev, next) == cat(
            DocView::Hardline,
            DocView::Hardline,
        ),
        !crate::layout::blank_line(src, prev, next) ==> hard_separator(src, prev, next)
            == DocView::Hardline,
{
}


proof fn lemma_count_one(s: Seq<u8>, b: u8)
    ensures
        count_byte(s, b) >= 1 <==> exists|j: int| 0 <= j < s.len() && s[j] == b,
    decreases s.len(),
{
    if s.len() > 0 {
        let r = s.drop_last();
        lemma_count_one(r, b);
        if exists|j: int| 0 <= j < s.len() && s[j] == b {
            let j = choose|j: int| 0 <= j < s.len() && s[j] == b;
            if j < s.len() - 1 {
                assert(r[j] == b);
            }
        }
        if exists|j: int| 0 <= j < r.len() && r[j] == b {
            let j = choose|j: int| 0 <= j < r.len() && r[j] == b;
            assert(s[j] == b);
        }
    }
}

/// A byte occurs at least twice exactly where the count says so.
proof fn lemma_count_two(s: Seq<u8>, b: u8)
    ensures
        count_byte(s, b) >= 2 <==> exists|j: int, k: int| 0 <= j < k < s.len() && s[j] == b && s[k] == b,
    decreases s.len(),
{
    if s.len() > 0 {
        let r = s.drop_last();
        lemma_count_two(r, b);
        lemma_count_one(r, b);
        if exists|j: int, k: int| 0 <= j < k < s.len() && s[j] == b && s[k] == b {
            let (j, k) = choose|j: int, k: int| 0 <= j < k < s.len() && s[j] == b && s[k] == b;
            assert(r[j] == b);
            if k < s.len() - 1 {
                assert(r[k] == b);
            } else {
                assert(s.last() == b);
            }
        }
        if count_byte(s, b) >= 2 {
            if s.last() == b {
                let j = choose|j: int| 0 <= j < r.len() && r[j] == b;
                assert(s[j] == b && s[s.len() - 1] == b);
            } else {
                let (j, k) = choose|j: int, k: int| 0 <= j < k < r.len() && r[j] == b && r[k] == b;
                assert(s[j] == b && s[k] == b);
            }
        }
    }
}

/// Blank lines between statements are kept, a run of them as one: between
/// two neighbouring children of a vertical list (a file, a body, a `case`),
/// where the second is not a comma nor a comment on the first one's line,
/// the layout puts two line breaks where the source holds two line feeds
/// between them (or, holding none, two carriage returns), and one line
/// break otherwise, before the second child's own layout.
pub proof fn blank_lines_between_statements_are_kept(src: Seq<u8>, ind: isize, p: SyntaxNode, i: int)
    requires
        1 <= i < p.children@.len(),
        p.children@[i - 1].end <= p.children@[i].start <= src.len(),
        p.children@[i].kind != Kind::Comma,
        p.children@[i].kind == Kind::Comment ==> exists|j: int|
            p.children@[i - 1].end <= j < p.children@[i].start && (src[j] == 10u8 || src[j] == 13u8),
    ensures
        vertical_tail(src, ind, p, i, i + 1) == cat(
            if (exists|j: int, k: int|
                p.children@[i - 1].end <= j < k < p.children@[i].start && src[j] == 10u8 && src[k] == 10u8)
                || ((forall|j: int| p.children@[i - 1].end <= j < p.children@[i].start ==> src[j] != 10u8)
                && exists|j: int, k: int|
                p.children@[i - 1].end <= j < k < p.children@[i].start && src[j] == 13u8 && src[k] == 13u8) {
                cat(DocView::Hardline, DocView::Hardline)
            } else {
                DocView::Hardline
            },
            print_node(src, ind, p.children@[i]),
        ),
{
    let prev = p.children@[i - 1];
    let next = p.children@[i];
    let g = src.subrange(prev.end as int, next.start as int);
    let (a, z) = (prev.end as int, next.start as int);
    lemma_count_two(g, 10u8);
    lemma_count_two(g, 13u8);
    if exists|j: int, k: int| 0 <= j < k < g.len() && g[j] == 10u8 && g[k] == 10u8 {
        let (j, k) = choose|j: int, k: int| 0 <= j < k < g.len() && g[j] == 10u8 && g[k] == 10u8;
        assert(src[a + j] == 10u8 && src[a + k] == 10u8);
    }
    if exists|j: int, k: int| a <= j < k < z && src[j] == 10u8 && src[k] == 10u8 {
        let (j, k) = choose|j: int, k: int| a <= j < k < z && src[j] == 10u8 && src[k] == 10u8;
        assert(g[j - a] == 10u8 && g[k - a] == 10u8);
    }
    if exists|j: int, k: int| 0 <= j < k < g.len() && g[j] == 13u8 && g[k] == 13u8 {
        let (j, k) = choose|j: int, k: int| 0 <= j < k < g.len() && g[j] == 13u8 && g[k] == 13u8;
        assert(src[a + j] == 13u8 && src[a + k] == 13u8);
    }
    if exists|j: int, k: int| a <= j < k < z && src[j] == 13u8 && src[k] == 13u8 {
        let (j, k) = choose|j: int, k: int| a <= j < k < z && src[j] == 13u8 && src[k] == 13u8;
        assert(g[j - a] == 13u8 && g[k - a] == 13u8);
    }
    if g.contains(10u8) {
        let j = choose|j: int| 0 <= j < g.len() && g[j] == 10u8;
        assert(src[a + j] == 10u8);
    }
    if exists|j: int| a <= j < z && src[j] == 10u8 {
        let j = choose|j: int| a <= j < z && src[j] == 10u8;
        assert(g[j - a] == 10u8);
    }
    if next.kind == Kind::Comment {
        let j = choose|j: int| a <= j < z && (src[j] == 10u8 || src[j] == 13u8);
        assert(g[j - a] == src[j]);
        assert(!crate::layout::same_line(src, prev, next));
    }
}

/// In a binary, union or conditional expression, an operator that does not
/// follow a comment is preceded by a breakable line: the expression's group
/// lays it out as one blank where the expression fits the line, and as a
/// line break otherwise.
pub proof fn operators_are_preceded_by_a_breakable_line(src: Seq<u8>, ind: isize, p: SyntaxNode, i: int)
    requires
        p.kind == Kind::BinaryExpression || p.kind == Kind::UnionType || p.kind == Kind::ConditionalExpression,
        1 <= i < p.children@.len(),
        if p.kind == Kind::ConditionalExpression {
            p.children@[i].kind == Kind::Question || p.children@[i].kind == Kind::Colon
        } else {
            p.children@[i].kind != Kind::Comment && (!p.children@[i].named || p.children@[i].kind
                == Kind::RightShiftOperator)
        },
        p.children@[i - 1].kind != Kind::Comment,
        !ends_line_comment(src, p.children@[i - 1]),
    ensures
        print_operands(src, ind, p, i + 1) == cat(
            cat(print_operands(src, ind, p, i), DocView::Line),
            print_node(src, ind, p.children@[i]),
        ),
{
}

/// A binary, union or conditional expression is laid out as one group: its
/// first operand, then the rest (operators with their breakable lines, and
/// operands) indented by one level where they break.
pub proof fn expressions_are_one_group_with_indented_operands(src: Seq<u8>, ind: isize, p: SyntaxNode)
    requires
        p.kind == Kind::BinaryExpression || p.kind == Kind::UnionType || p.kind == Kind::ConditionalExpression,
        p.children@.len() > 0,
    ensures
        print_node(src, ind, p) == grouped(
            cat(print_node(src, ind, p.children@[0]), nested(print_operands(src, ind, p, p.children@.len() as int), ind)),
        ),
{
}

/// The inside of every block, class, module, switch or enum body is
/// indented by one level: the opening token, then each inner line one level
/// further right than the body's own, then the closing token on a line of
/// its own.
pub proof fn bodies_indent_their_inner_lines(src: Seq<u8>, ind: isize, p: SyntaxNode)
    requires
        p.kind == Kind::Block || p.kind == Kind::ClassBody || p.kind == Kind::ModuleBody || p.kind
            == Kind::SwitchBody || p.kind == Kind::EnumBody,
        p.children@.len() >= 3,
    ensures
        print_node(src, ind, p) == cat(
            cat(
                cat(
                    print_node(src, ind, p.children@[0]),
                    nested(
                        cat(DocView::Hardline, print_vertical(src, ind, p, 1, p.children@.len() - 1)),
                        ind,
                    ),
                ),
                DocView::Hardline,
            ),
            print_node(src, ind, p.children@.last()),
        ),
{
    assert(p.children@.last() == p.children@[p.children@.len() - 1]);
}


/// No line feed or carriage return lies between the two nodes, read from the source's bytes.
proof fn lemma_same_line(src: Seq<u8>, prev: SyntaxNode, next: SyntaxNode)
    requires
        prev.end <= next.start <= src.len(),
    ensures
        crate::layout::same_line(src, prev, next) <==> forall|j: int|
            prev.end <= j < next.start ==> src[j] != 10u8 && src[j] != 13u8,
{
    let g = src.subrange(prev.end as int, next.start as int);
    let a = prev.end as int;
    if exists|j: int| prev.end <= j < next.start && !(src[j] != 10u8 && src[j] != 13u8) {
        let j = choose|j: int| prev.end <= j < next.start && !(src[j] != 10u8 && src[j] != 13u8);
        assert(g[j - a] == src[j]);
    }
    if g.contains(10u8) {
        let j = choose|j: int| 0 <= j < g.len() && g[j] == 10u8;
        assert(src[a + j] == 10u8);
    }
    if g.contains(13u8) {
        let j = choose|j: int| 0 <= j < g.len() && g[j] == 13u8;
        assert(src[a + j] == 13u8);
    }
}

/// The spacing between neighbouring tokens: closing punctuation (`,` `;`
/// `)` `]`) and `.` attach to what comes before them; after a comma comes a
/// breakable line (but before the `:` of a `case` label and the `<` of a
/// generic type); a keyword is followed by one blank before its `(`; and a
/// comment keeps its place: one blank before or after it on the same line,
/// a line break where the source has one.
pub proof fn tokens_are_spaced_by_their_kinds(src: Seq<u8>, parent: Kind, prev: SyntaxNode, next: SyntaxNode)
    requires
        prev.end <= next.start <= src.len(),
        !ends_line_comment(src, prev),
    ensures
        prev.kind != Kind::Comment && prev.kind != Kind::Annotations && (next.kind == Kind::Comma || next.kind
            == Kind::Semicolon || next.kind == Kind::CloseParen || next.kind == Kind::CloseBracket
            || next.kind == Kind::CloseByteBracket || next.kind == Kind::Dot) ==> separator(src, parent, prev, next)
            == DocView::Nil,
        prev.kind == Kind::Comma && next.kind != Kind::Comment && next.kind != Kind::Comma && next.kind
            != Kind::Semicolon && next.kind != Kind::CloseParen && next.kind != Kind::CloseBracket
            && next.kind != Kind::CloseByteBracket && next.kind != Kind::Dot && next.kind != Kind::Parameters
            && next.kind != Kind::Arguments && !(next.kind == Kind::Colon && (parent == Kind::SwitchCase || parent
            == Kind::SwitchDefault)) && !(next.kind == Kind::OpenAngle && parent == Kind::GenericType)
            ==> separator(src, parent, prev, next) == DocView::Line,
        (prev.kind == Kind::If || prev.kind == Kind::While || prev.kind == Kind::For || prev.kind == Kind::Switch
            || prev.kind == Kind::Catch) && next.kind == Kind::OpenParen ==> separator(src, parent, prev, next)
            == DocView::Space,
        (prev.kind == Kind::Comment || next.kind == Kind::Comment) && (forall|j: int|
            prev.end <= j < next.start ==> src[j] != 10u8 && src[j] != 13u8) ==> separator(src, parent, prev, next)
            == DocView::Space,
        (prev.kind == Kind::Comment || next.kind == Kind::Comment) && (exists|j: int|
            prev.end <= j < next.start && (src[j] == 10u8 || src[j] == 13u8)) ==> (separator(src, parent, prev, next)
            == DocView::Hardline || separator(src, parent, prev, next) == cat(DocView::Hardline, DocView::Hardline)),
{
    lemma_same_line(src, prev, next);
}

/// A comment on the same line as the statement before it stays there, after
/// one blank; a comma stays attached to what it follows.
pub proof fn same_line_comments_and_commas_stay_in_place(src: Seq<u8>, ind: isize, p: SyntaxNode, i: int)
    requires
        1 <= i < p.children@.len(),
        p.children@[i - 1].end <= p.children@[i].start <= src.len(),
        !ends_line_comment(src, p.children@[i - 1]),
    ensures
        p.children@[i].kind == Kind::Comment && (forall|j: int|
            p.children@[i - 1].end <= j < p.children@[i].start ==> src[j] != 10u8 && src[j] != 13u8)
            ==> vertical_tail(src, ind, p, i, i + 1) == cat(DocView::Space, print_node(src, ind, p.children@[i])),
        p.children@[i].kind == Kind::Comma ==> vertical_tail(src, ind, p, i, i + 1) == cat(
            DocView::Nil,
            print_node(src, ind, p.children@[i]),
        ),
{
    lemma_same_line(src, p.children@[i - 1], p.children@[i]);
}

/// The documents of a list, taken as the sequence of what is appended in
/// them, in order, with nothing appended where there is nothing.
pub open spec fn flat(d: DocView) -> Seq<DocView>
    decreases d,
{
    match d {
        DocView::Nil => Seq::empty(),
        DocView::Append(a, b) => flat(*a) + flat(*b),
        _ => seq![d],
    }
}

/// The items `lo..hi` of a vertical list, each after its separator, one
/// after another.
pub open spec fn vertical_items(src: Seq<u8>, ind: isize, p: SyntaxNode, lo: int, hi: int) -> Seq<DocView>
    decreases hi - lo,
{
    if hi <= lo {
        Seq::empty()
    } else {
        vertical_items(src, ind, p, lo, hi - 1) + flat(vertical_tail(src, ind, p, hi - 1, hi))
    }
}

/// The items `lo..hi` of a sequence, each after its separator, one after another.
pub open spec fn sequence_items(src: Seq<u8>, ind: isize, p: SyntaxNode, lo: int, hi: int) -> Seq<DocView>
    decreases hi - lo,
{
    if hi <= lo {
        Seq::empty()
    } else {
        sequence_items(src, ind, p, lo, hi - 1) + flat(sequence_tail(src, ind, p, hi - 1, hi))
    }
}

proof fn lemma_vertical_items_split(src: Seq<u8>, ind: isize, p: SyntaxNode, lo: int, mid: int, hi: int)
    requires
        lo <= mid <= hi,
    ensures
        vertical_items(src, ind, p, lo, hi) == vertical_items(src, ind, p, lo, mid) + vertical_items(src, ind, p, mid, hi),
    decreases hi - mid,
{
    if hi == mid {
        assert(vertical_items(src, ind, p, lo, mid) + Seq::<DocView>::empty() =~= vertical_items(src, ind, p, lo, mid));
    } else {
        lemma_vertical_items_split(src, ind, p, lo, mid, hi - 1);
        assert(vertical_items(src, ind, p, lo, mid) + vertical_items(src, ind, p, mid, hi - 1) + flat(
            vertical_tail(src, ind, p, hi - 1, hi),
        ) =~= vertical_items(src, ind, p, lo, mid) + (vertical_items(src, ind, p, mid, hi - 1) + flat(
            vertical_tail(src, ind, p, hi - 1, hi),
        )));
    }
}

proof fn lemma_sequence_items_split(src: Seq<u8>, ind: isize, p: SyntaxNode, lo: int, mid: int, hi: int)
    requires
        lo <= mid <= hi,
    ensures
        sequence_items(src, ind, p, lo, hi) == sequence_items(src, ind, p, lo, mid) + sequence_items(src, ind, p, mid, hi),
    decreases hi - mid,
{
    if hi == mid {
        assert(sequence_items(src, ind, p, lo, mid) + Seq::<DocView>::empty() =~= sequence_items(src, ind, p, lo, mid));
    } else {
        lemma_sequence_items_split(src, ind, p, lo, mid, hi - 1);
        assert(sequence_items(src, ind, p, lo, mid) + sequence_items(src, ind, p, mid, hi - 1) + flat(
            sequence_tail(src, ind, p, hi - 1, hi),
        ) =~= sequence_items(src, ind, p, lo, mid) + (sequence_items(src, ind, p, mid, hi - 1) + flat(
            sequence_tail(src, ind, p, hi - 1, hi),
        )));
    }
}

/// A vertical list after its first child is its items in order, each
/// child after its own separator, and nothing else: however the list is
/// split to keep the document shallow, the line breaks between two
/// children are those chosen for that pair alone.
pub proof fn vertical_lists_are_their_items_in_order(src: Seq<u8>, ind: isize, p: SyntaxNode, lo: int, hi: int)
    requires
        1 <= lo <= hi <= p.children@.len(),
    ensures
        flat(vertical_tail(src, ind, p, lo, hi)) == vertical_items(src, ind, p, lo, hi),
    decreases hi - lo,
{
    if hi - lo == 1 {
        assert(vertical_items(src, ind, p, lo, lo) =~= Seq::<DocView>::empty());
        assert(Seq::<DocView>::empty() + flat(vertical_tail(src, ind, p, lo, hi)) =~= flat(vertical_tail(src, ind, p, lo, hi)));
    } else if hi - lo >= 2 {
        let mid = lo + (hi - lo) / 2;
        vertical_lists_are_their_items_in_order(src, ind, p, lo, mid);
        vertical_lists_are_their_items_in_order(src, ind, p, mid, hi);
        lemma_vertical_items_split(src, ind, p, lo, mid, hi);
    }
}

/// A sequence after its first child is its items in order, each child
/// after its own separator, and nothing else.
pub proof fn sequences_are_their_items_in_order(src: Seq<u8>, ind: isize, p: SyntaxNode, lo: int, hi: int)
    requires
        1 <= lo <= hi <= p.children@.len(),
    ensures
        flat(sequence_tail(src, ind, p, lo, hi)) == sequence_items(src, ind, p, lo, hi),
    decreases hi - lo,
{
    if hi - lo == 1 {
        assert(sequence_items(src, ind, p, lo, lo) =~= Seq::<DocView>::empty());
        assert(Seq::<DocView>::empty() + flat(sequence_tail(src, ind, p, lo, hi)) =~= flat(sequence_tail(src, ind, p, lo, hi)));
    } else if hi - lo >= 2 {
        let mid = lo + (hi - lo) / 2;
        sequences_are_their_items_in_order(src, ind, p, lo, mid);
        sequences_are_their_items_in_order(src, ind, p, mid, hi);
        lemma_sequence_items_split(src, ind, p, lo, mid, hi);
    }
}

/// In a declaration list, an item after a comma is indented by one level
/// where it breaks; elsewhere an item follows its separator unindented.
pub proof fn declaration_items_after_commas_are_indented(src: Seq<u8>, ind: isize, p: SyntaxNode, i: int)
    requires
        1 <= i < p.children@.len(),
    ensures
        sequence_tail(src, ind, p, i, i + 1) == if p.children@[i - 1].kind == Kind::Comma && (p.kind
            == Kind::VariableDeclaration || p.kind == Kind::LocalVariableDeclaration || p.kind
            == Kind::ForVariableDeclaration || p.kind == Kind::ExpressionList) {
            nested(cat(separator(src, p.kind, p.children@[i - 1], p.children@[i]), print_node(src, ind, p.children@[i])), ind)
        } else {
            cat(separator(src, p.kind, p.children@[i - 1], p.children@[i]), print_node(src, ind, p.children@[i]))
        },
{
}


proof fn lemma_first_of_is(p: SyntaxNode, k: Kind, lo: int, hi: int, c: int)
    requires
        lo <= c < hi,
        p.children@[c].kind == k,
        forall|j: int| lo <= j < c ==> p.children@[j].kind != k,
    ensures
        first_of(p, k, lo, hi) == Some(c),
    decreases c - lo,
{
    if lo < c {
        lemma_first_of_is(p, k, lo + 1, hi, c);
    }
}

/// The statements of a `case` or `default` label go on the lines after it,
/// indented by one level (after a comment that stays on the label's line,
/// where there is one).
pub proof fn case_statements_are_indented(src: Seq<u8>, ind: isize, p: SyntaxNode, c: int)
    requires
        p.kind == Kind::SwitchCase || p.kind == Kind::SwitchDefault,
        0 <= c,
        c + 1 < p.children@.len(),
        p.children@[c].kind == Kind::Colon,
        forall|j: int| 0 <= j < c ==> p.children@[j].kind != Kind::Colon,
        p.children@[c].end <= p.children@[c + 1].start <= src.len(),
    ensures
        (p.children@[c + 1].kind != Kind::Comment || (exists|j: int|
            p.children@[c].end <= j < p.children@[c + 1].start && (src[j] == 10u8 || src[j] == 13u8)))
            ==> print_node(src, ind, p) == cat(
            print_inline(src, ind, p, 0, c + 1),
            nested(cat(DocView::Hardline, print_vertical(src, ind, p, c + 1, p.children@.len() as int)), ind),
        ),
{
    lemma_first_of_is(p, Kind::Colon, 0, p.children@.len() as int, c);
    lemma_same_line(src, p.children@[c], p.children@[c + 1]);
}

/// An argument, parameter, array or parenthesized list with items is one
/// group: the opening token, the items indented by one level after a break
/// that stays empty where the list fits, and the closing token after
/// another such break (a line break after a line comment).
pub proof fn lists_break_all_together(src: Seq<u8>, ind: isize, p: SyntaxNode)
    requires
        p.kind == Kind::Parameters || p.kind == Kind::Arguments || p.kind == Kind::ParenthesizedExpression
            || p.kind == Kind::TupleType || p.kind == Kind::ArrayExpression || p.kind == Kind::ByteArrayExpression
            || p.kind == Kind::AnnotationArguments || p.kind == Kind::AnnotationArray,
        p.children@.len() >= 3,
    ensures
        print_node(src, ind, p) == grouped(
            cat(
                cat(
                    cat(
                        print_node(src, ind, p.children@[0]),
                        nested(
                            cat(DocView::SoftLine, print_sequence(src, ind, p, 1, p.children@.len() - 1)),
                            ind,
                        ),
                    ),
                    if ends_line_comment(src, p.children@[p.children@.len() - 2]) {
                        DocView::Hardline
                    } else {
                        DocView::SoftLine
                    },
                ),
                print_node(src, ind, p.children@[p.children@.len() - 1]),
            ),
        ),
{
}

/// A dictionary with entries is one group like a list, its edges being
/// breaks that stay one blank where it fits.
pub proof fn dictionaries_break_all_together(src: Seq<u8>, ind: isize, p: SyntaxNode)
    requires
        p.kind == Kind::DictionaryExpression || p.kind == Kind::DictionaryType,
        p.children@.len() >= 3,
    ensures
        print_node(src, ind, p) == grouped(
            cat(
                cat(
                    cat(
                        print_node(src, ind, p.children@[0]),
                        nested(cat(DocView::Line, print_sequence(src, ind, p, 1, p.children@.len() - 1)), ind),
                    ),
                    if ends_line_comment(src, p.children@[p.children@.len() - 2]) {
                        DocView::Hardline
                    } else {
                        DocView::Line
                    },
                ),
                print_node(src, ind, p.children@[p.children@.len() - 1]),
            ),
        ),
{
}

/// A file is its top-level children one per line, unindented, and its
/// document ends with one line break.
pub proof fn files_are_their_statements_with_a_final_line_break(src: Seq<u8>, ind: isize, root: SyntaxNode)
    requires
        root.kind == Kind::SourceFile,
        root.children@.len() > 0,
    ensures
        document(src, ind, root) == cat(print_vertical(src, ind, root, 0, root.children@.len() as int), DocView::Hardline),
{
}


proof fn lemma_first_body_is(p: SyntaxNode, lo: int, hi: int, b: int)
    requires
        lo <= b < hi,
        is_body_kind(p.children@[b].kind),
        forall|j: int| lo <= j < b ==> !is_body_kind(#[trigger] p.children@[j].kind),
    ensures
        first_body(p, lo, hi) == Some(b),
    decreases b - lo,
{
    if lo < b {
        lemma_first_body_is(p, lo + 1, hi, b);
    }
}

proof fn lemma_first_body_none(p: SyntaxNode, lo: int, hi: int)
    requires
        forall|j: int| lo <= j < hi ==> !is_body_kind(#[trigger] p.children@[j].kind),
    ensures
        first_body(p, lo, hi) is None,
    decreases hi - lo,
{
    if lo < hi {
        lemma_first_body_none(p, lo + 1, hi);
    }
}

/// A statement or declaration is laid out on one line where it fits, its
/// parts spaced by their kinds; where it holds a body (a block, or a class,
/// module, switch or enum body) after its header, only the header is
/// grouped, so that the body's line breaks do not break the header.
pub proof fn headers_are_grouped_apart_from_their_bodies(src: Seq<u8>, ind: isize, p: SyntaxNode, b: int)
    requires
        0 < b < p.children@.len(),
        p.children@[b].kind == Kind::Block || p.children@[b].kind == Kind::ClassBody || p.children@[b].kind
            == Kind::ModuleBody || p.children@[b].kind == Kind::SwitchBody || p.children@[b].kind == Kind::EnumBody,
        forall|j: int| 0 <= j < b ==> {
            let k = #[trigger] p.children@[j].kind;
            k != Kind::Block && k != Kind::ClassBody && k != Kind::ModuleBody && k != Kind::SwitchBody && k
                != Kind::EnumBody
        },
    ensures
        print_inline(src, ind, p, 0, p.children@.len() as int) == cat(
            cat(
                grouped(print_sequence(src, ind, p, 0, b)),
                separator(src, p.kind, p.children@[b - 1], p.children@[b]),
            ),
            print_sequence(src, ind, p, b, p.children@.len() as int),
        ),
{
    lemma_first_body_is(p, 0, p.children@.len() as int, b);
}

/// Without a body among its children, a statement or declaration is one
/// group: on one line where it fits.
pub proof fn statements_without_bodies_are_one_group(src: Seq<u8>, ind: isize, p: SyntaxNode)
    requires
        forall|j: int| 0 <= j < p.children@.len() ==> {
            let k = #[trigger] p.children@[j].kind;
            k != Kind::Block && k != Kind::ClassBody && k != Kind::ModuleBody && k != Kind::SwitchBody && k
                != Kind::EnumBody
        },
    ensures
        print_inline(src, ind, p, 0, p.children@.len() as int) == grouped(
            print_sequence(src, ind, p, 0, p.children@.len() as int),
        ),
{
    assert forall|j: int| 0 <= j < p.children@.len() implies !is_body_kind(#[trigger] p.children@[j].kind) by {
        let k = p.children@[j].kind;
        assert(k != Kind::Block && k != Kind::ClassBody && k != Kind::ModuleBody && k != Kind::SwitchBody && k
            != Kind::EnumBody);
    }
    lemma_first_body_none(p, 0, p.children@.len() as int);
}

/// Every token (a leaf, or a string, character, identifier, number,
/// comment, boolean, `null`, `self`, `global` or modifier node taken whole)
/// is written as its source text: as plain text where it holds no line
/// feed, and verbatim, line by line, where it does.
pub proof fn tokens_are_written_as_their_source_text(src: Seq<u8>, ind: isize, n: SyntaxNode)
    requires
        n.start <= n.end <= src.len(),
        n.children@.len() == 0 || n.kind == Kind::StringLiteral || n.kind == Kind::CharacterLiteral || n.kind
            == Kind::Identifier || n.kind == Kind::NumberLiteral || n.kind == Kind::Comment || n.kind
            == Kind::BooleanLiteral || n.kind == Kind::NullLiteral || n.kind == Kind::SelfKeyword || n.kind
            == Kind::GlobalKeyword || n.kind == Kind::Modifier,
    ensures
        print_node(src, ind, n) == if exists|j: int| n.start <= j < n.end && src[j] == 10u8 {
            DocView::Verbatim(src.subrange(n.start as int, n.end as int))
        } else {
            DocView::Text(src.subrange(n.start as int, n.end as int))
        },
{
    let t = src.subrange(n.start as int, n.end as int);
    let a = n.start as int;
    if t.contains(10u8) {
        let j = choose|j: int| 0 <= j < t.len() && t[j] == 10u8;
        assert(src[a + j] == 10u8);
    }
    if exists|j: int| n.start <= j < n.end && src[j] == 10u8 {
        let j = choose|j: int| n.start <= j < n.end && src[j] == 10u8;
        assert(t[j - a] == 10u8);
    }
}

}
