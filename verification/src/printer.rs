//! Laying out a syntax tree as a document, by the rules of `layout`.
use vstd::prelude::*;
use crate::doc::{cat, Doc, DocView};
use crate::layout::{
    blank_line, count_byte, ends_line_comment, first_body, first_of, gap, hard_separator, in_range,
    is_body_kind, is_delimited_kind, last_of, lemma_first_body_bounds, lemma_first_of_bounds,
    lemma_last_of_bounds, lemma_shaped, lemma_shaped_list, literal, print_body, print_case,
    print_control, print_delimited, print_expression, print_inline, print_node, print_operands,
    print_sequence, print_vertical, same_line, separator, sequence_tail, shape_ok, shaped,
    shaped_list, vertical_tail,
};
use crate::syntax::{
    is_atom, is_literal_kind, lemma_wf_child, lemma_wf_node, lemma_wf_siblings, node_text, wf, Kind,
    SyntaxNode,
};

verus! {

/// The whole formatted document: the root's layout and one final line break.
pub open spec fn document(src: Seq<u8>, ind: isize, root: SyntaxNode) -> DocView {
    cat(print_node(src, ind, root), DocView::Hardline)
}

/// Whether `t` holds byte `b`.
pub fn has_byte(t: &[u8], b: u8) -> (r: bool)
    ensures
        r == t@.contains(b),
{
    let mut i: usize = 0;
    while i < t.len()
        invariant
            i <= t@.len(),
            forall|j: int| 0 <= j < i ==> t@[j] != b,
        decreases t.len() - i,
    {
        if t[i] == b {
            return true;
        }
        i = i + 1;
    }
    false
}

/// Whether `t` holds byte `b` at least twice.
fn twice(t: &[u8], b: u8) -> (r: bool)
    ensures
        r == (count_byte(t@, b) >= 2),
{
    let mut i: usize = 0;
    let mut seen: usize = 0;
    while i < t.len()
        invariant
            i <= t@.len(),
            seen == count_byte(t@.subrange(0, i as int), b),
            seen <= i,
        decreases t.len() - i,
    {
        assert(t@.subrange(0, i + 1).drop_last() =~= t@.subrange(0, i as int));
        if t[i] == b {
            seen = seen + 1;
        }
        i = i + 1;
    }
    assert(t@.subrange(0, t@.len() as int) =~= t@);
    seen >= 2
}

fn is_literal_kind_exec(k: Kind) -> (r: bool)
    ensures
        r == is_literal_kind(k),
{
    match k {
        Kind::StringLiteral | Kind::CharacterLiteral | Kind::Identifier | Kind::NumberLiteral
        | Kind::Comment | Kind::BooleanLiteral | Kind::NullLiteral | Kind::SelfKeyword
        | Kind::GlobalKeyword | Kind::Modifier => true,
        _ => false,
    }
}

fn is_body_kind_exec(k: Kind) -> (r: bool)
    ensures
        r == is_body_kind(k),
{
    k == Kind::Block || k == Kind::ClassBody || k == Kind::ModuleBody || k == Kind::SwitchBody
        || k == Kind::EnumBody
}

fn is_delimited_kind_exec(k: Kind) -> (r: bool)
    ensures
        r == is_delimited_kind(k),
{
    k == Kind::Parameters || k == Kind::Arguments || k == Kind::ParenthesizedExpression
        || k == Kind::TupleType || k == Kind::ArrayExpression || k == Kind::ByteArrayExpression
        || k == Kind::AnnotationArguments || k == Kind::AnnotationArray || k == Kind::Annotations
}

/// The first index in `lo..hi` of a child of kind `k`.
fn position(p: &SyntaxNode, k: Kind, lo: usize, hi: usize) -> (r: Option<usize>)
    requires
        in_range(*p, lo as int, hi as int),
    ensures
        r matches Some(i) ==> first_of(*p, k, lo as int, hi as int) == Some(i as int),
        r is None ==> first_of(*p, k, lo as int, hi as int) is None,
{
    let mut i = lo;
    while i < hi
        invariant
            lo <= i <= hi,
            in_range(*p, lo as int, hi as int),
            first_of(*p, k, lo as int, hi as int) == first_of(*p, k, i as int, hi as int),
        decreases hi - i,
    {
        if p.children[i].kind == k {
            return Some(i);
        }
        i = i + 1;
    }
    None
}

/// The last index in `lo..hi` of a child of kind `k`.
fn last_position(p: &SyntaxNode, k: Kind, lo: usize, hi: usize) -> (r: Option<usize>)
    requires
        in_range(*p, lo as int, hi as int),
    ensures
        r matches Some(i) ==> last_of(*p, k, lo as int, hi as int) == Some(i as int),
        r is None ==> last_of(*p, k, lo as int, hi as int) is None,
{
    let mut j = hi;
    while j > lo
        invariant
            lo <= j <= hi,
            in_range(*p, lo as int, hi as int),
            last_of(*p, k, lo as int, hi as int) == last_of(*p, k, lo as int, j as int),
        decreases j - lo,
    {
        if p.children[j - 1].kind == k {
            return Some(j - 1);
        }
        j = j - 1;
    }
    None
}

/// The first index in `lo..hi` of a child that is a body.
fn body_position(p: &SyntaxNode, lo: usize, hi: usize) -> (r: Option<usize>)
    requires
        in_range(*p, lo as int, hi as int),
    ensures
        r matches Some(i) ==> first_body(*p, lo as int, hi as int) == Some(i as int),
        r is None ==> first_body(*p, lo as int, hi as int) is None,
{
    let mut i = lo;
    while i < hi
        invariant
            lo <= i <= hi,
            in_range(*p, lo as int, hi as int),
            first_body(*p, lo as int, hi as int) == first_body(*p, i as int, hi as int),
        decreases hi - i,
    {
        if is_body_kind_exec(p.children[i].kind) {
            return Some(i);
        }
        i = i + 1;
    }
    None
}

/// Whether the node has the children that its own kind's rules rely on.
fn shape_ok_exec(n: &SyntaxNode) -> (r: bool)
    ensures
        r == shape_ok(*n),
{
    let len = n.children.len();
    let kind = n.kind;
    if len == 0 || is_literal_kind_exec(kind) {
        return true;
    }
    if is_body_kind_exec(kind) || is_delimited_kind_exec(kind) || kind == Kind::DictionaryExpression
        || kind == Kind::DictionaryType {
        len >= 2
    } else if kind == Kind::InterfaceType {
        proof {
            lemma_first_of_bounds(*n, Kind::OpenBrace, 0, len as int);
        }
        match position(n, Kind::OpenBrace, 0, len) {
            Some(o) => 0 < o && len - o >= 2,
            None => false,
        }
    } else if kind == Kind::GenericType {
        proof {
            lemma_first_of_bounds(*n, Kind::OpenAngle, 0, len as int);
        }
        match position(n, Kind::OpenAngle, 0, len) {
            Some(o) => 0 < o && len - o >= 2,
            None => false,
        }
    } else if kind == Kind::SwitchCase || kind == Kind::SwitchDefault {
        position(n, Kind::Colon, 0, len).is_some()
    } else if kind == Kind::MethodType && n.children[0].kind == Kind::OpenParen {
        len >= 2
    } else if kind == Kind::ForStatement || kind == Kind::CatchClause {
        match (position(n, Kind::OpenParen, 0, len), last_position(n, Kind::CloseParen, 0, len)) {
            (Some(o), Some(c)) => 0 < o && o < c,
            _ => false,
        }
    } else {
        true
    }
}

/// Whether every node of the tree has the children its rules rely on.
pub fn is_shaped(n: &SyntaxNode) -> (r: bool)
    ensures
        r == shaped(*n),
    decreases n,
{
    if !shape_ok_exec(n) {
        return false;
    }
    if n.children.len() == 0 || is_literal_kind_exec(n.kind) {
        return true;
    }
    assert(!is_atom(*n));
    let count = n.children.len();
    let mut i: usize = 0;
    while i < count
        invariant
            i <= count,
            count == n.children@.len(),
            !is_atom(*n),
            shaped_list(n.children@.subrange(0, i as int)),
        decreases count - i,
    {
        assert(n.children@.subrange(0, i + 1).drop_last() =~= n.children@.subrange(0, i as int));
        if !is_shaped(&n.children[i]) {
            proof {
                if shaped_list(n.children@) {
                    lemma_shaped_list(n.children@, i as int);
                }
            }
            return false;
        }
        i = i + 1;
    }
    assert(n.children@.subrange(0, count as int) =~= n.children@);
    true
}

/// What the layout rules read: the source bytes and the indentation step.
struct Printer<'a> {
    source: &'a [u8],
    indent: isize,
}

impl<'a> Printer<'a> {
    fn text(&self, n: &SyntaxNode) -> (t: Vec<u8>)
        requires
            n.start <= n.end <= self.source@.len(),
        ensures
            t@ == node_text(self.source@, *n),
    {
        vstd::slice::slice_to_vec(vstd::slice::slice_subrange(self.source, n.start, n.end))
    }

    fn literal(&self, t: Vec<u8>) -> (d: Doc)
        ensures
            d@ == literal(t@),
    {
        if has_byte(t.as_slice(), 10u8) {
            Doc::Verbatim(t)
        } else {
            Doc::Text(t)
        }
    }

    fn gap(&self, prev: &SyntaxNode, next: &SyntaxNode) -> (g: &[u8])
        requires
            prev.end <= next.start <= self.source@.len(),
        ensures
            g@ == gap(self.source@, *prev, *next),
    {
        vstd::slice::slice_subrange(self.source, prev.end, next.start)
    }

    fn same_line(&self, prev: &SyntaxNode, next: &SyntaxNode) -> (r: bool)
        requires
            prev.end <= next.start <= self.source@.len(),
        ensures
            r == same_line(self.source@, *prev, *next),
    {
        let g = self.gap(prev, next);
        !has_byte(g, 10u8) && !has_byte(g, 13u8)
    }

    fn blank_line(&self, prev: &SyntaxNode, next: &SyntaxNode) -> (r: bool)
        requires
            prev.end <= next.start <= self.source@.len(),
        ensures
            r == blank_line(self.source@, *prev, *next),
    {
        let g = self.gap(prev, next);
        let newline: u8 = if has_byte(g, 10u8) { 10u8 } else { 13u8 };
        twice(g, newline)
    }

    fn ends_line_comment(&self, n: &SyntaxNode) -> (r: bool)
        requires
            wf(*n, self.source@.len()),
        ensures
            r == ends_line_comment(self.source@, *n),
        decreases n,
    {
        let count = n.children.len();
        proof {
            lemma_wf_node(*n, self.source@.len());
        }
        if count > 0 && !(n.kind == Kind::StringLiteral || n.kind == Kind::CharacterLiteral
            || n.kind == Kind::Comment) {
            proof {
                lemma_wf_child(*n, self.source@.len(), count - 1);
            }
            self.ends_line_comment(&n.children[count - 1])
        } else {
            n.kind == Kind::Comment && n.end - n.start >= 2 && self.source[n.start] == 47u8
                && self.source[n.start + 1] == 47u8
        }
    }

    fn hard_separator(&self, prev: &SyntaxNode, next: &SyntaxNode) -> (d: Doc)
        requires
            prev.end <= next.start <= self.source@.len(),
        ensures
            d@ == hard_separator(self.source@, *prev, *next),
    {
        if self.blank_line(prev, next) {
            Doc::Hardline.append(Doc::Hardline)
        } else {
            Doc::Hardline
        }
    }

    fn separator(&self, parent: Kind, prev: &SyntaxNode, next: &SyntaxNode) -> (d: Doc)
        requires
            wf(*prev, self.source@.len()),
            wf(*next, self.source@.len()),
            prev.end <= next.start,
        ensures
            d@ == separator(self.source@, parent, *prev, *next),
    {
        proof {
            lemma_wf_node(*prev, self.source@.len());
            lemma_wf_node(*next, self.source@.len());
        }
        let left = prev.kind;
        let right = next.kind;
        if self.ends_line_comment(prev) {
            return Doc::Hardline;
        }
        if left == Kind::Comment || right == Kind::Comment {
            return if self.same_line(prev, next) {
                Doc::Space
            } else {
                self.hard_separator(prev, next)
            };
        }
        if left == Kind::Annotations {
            return Doc::Hardline;
        }
        if right == Kind::Comma || right == Kind::Semicolon || right == Kind::CloseParen
            || right == Kind::CloseBracket || right == Kind::CloseByteBracket || left == Kind::Dot
            || right == Kind::Dot || right == Kind::Parameters || right == Kind::Arguments
            || (right == Kind::Colon && (parent == Kind::SwitchCase || parent == Kind::SwitchDefault))
            || (right == Kind::OpenAngle && parent == Kind::GenericType) {
            return Doc::Nil;
        }
        if left == Kind::Comma || (left == Kind::Semicolon && parent == Kind::ForStatement) {
            return Doc::Line;
        }
        if left == Kind::OpenParen || left == Kind::OpenBracket {
            return Doc::Nil;
        }
        if right == Kind::OpenParen {
            return if left == Kind::If || left == Kind::While || left == Kind::For || left
                == Kind::Switch || left == Kind::Catch {
                Doc::Space
            } else {
                Doc::Nil
            };
        }
        if right == Kind::OpenBracket {
            return if left == Kind::New {
                Doc::Space
            } else {
                Doc::Nil
            };
        }
        if parent == Kind::Symbol || parent == Kind::Annotation || parent == Kind::NullableType
            || parent == Kind::RightShiftOperator || parent == Kind::UpdateExpression || parent
            == Kind::SignedNumber {
            return Doc::Nil;
        }
        if parent == Kind::UnaryExpression {
            // Without this gap, - -value and + +value become update tokens.
            let same = prev.start < prev.end && next.start < next.end && self.source[prev.end - 1]
                == self.source[next.start] && (self.source[prev.end - 1] == 43u8
                || self.source[prev.end - 1] == 45u8);
            return if same {
                Doc::Space
            } else {
                Doc::Nil
            };
        }
        Doc::Space
    }

    fn node(&self, n: &SyntaxNode) -> (d: Doc)
        requires
            wf(*n, self.source@.len()),
            shaped(*n),
        ensures
            d@ == print_node(self.source@, self.indent, *n),
        decreases n, 6int, 0int,
    {
        let len = n.children.len();
        let kind = n.kind;
        proof {
            lemma_wf_node(*n, self.source@.len());
        }
        if len == 0 || is_literal_kind_exec(kind) {
            return self.literal(self.text(n));
        }
        proof {
            lemma_shaped(*n);
        }
        if kind == Kind::SourceFile {
            self.vertical(n, 0, len)
        } else if is_body_kind_exec(kind) {
            self.body(n, 0, len)
        } else if kind == Kind::InterfaceType {
            let open = position(n, Kind::OpenBrace, 0, len).unwrap();
            proof {
                lemma_first_of_bounds(*n, Kind::OpenBrace, 0, len as int);
                lemma_wf_siblings(*n, self.source@.len(), open - 1);
            }
            self.inline(n, 0, open).append(
                self.separator(kind, &n.children[open - 1], &n.children[open]),
            ).append(self.body(n, open, len))
        } else if kind == Kind::SwitchCase || kind == Kind::SwitchDefault {
            self.case(n)
        } else if is_delimited_kind_exec(kind) {
            self.delimited(n, 0, len, false)
        } else if kind == Kind::DictionaryExpression || kind == Kind::DictionaryType {
            self.delimited(n, 0, len, true)
        } else if kind == Kind::GenericType {
            let open = position(n, Kind::OpenAngle, 0, len).unwrap();
            proof {
                lemma_first_of_bounds(*n, Kind::OpenAngle, 0, len as int);
                lemma_wf_siblings(*n, self.source@.len(), open - 1);
            }
            self.inline(n, 0, open).append(
                self.separator(kind, &n.children[open - 1], &n.children[open]),
            ).append(self.delimited(n, open, len, false))
        } else if kind == Kind::MethodType && n.children[0].kind == Kind::OpenParen {
            self.delimited(n, 0, len, false)
        } else if kind == Kind::ForStatement || kind == Kind::CatchClause {
            self.control(n)
        } else if kind == Kind::BinaryExpression || kind == Kind::UnionType || kind
            == Kind::ConditionalExpression {
            self.expression(n)
        } else {
            self.inline(n, 0, len)
        }
    }

    fn vertical(&self, p: &SyntaxNode, lo: usize, hi: usize) -> (d: Doc)
        requires
            wf(*p, self.source@.len()),
            shaped(*p),
            !is_atom(*p),
            in_range(*p, lo as int, hi as int),
        ensures
            d@ == print_vertical(self.source@, self.indent, *p, lo as int, hi as int),
        decreases p, 1int, hi - lo,
    {
        if lo >= hi {
            return Doc::Nil;
        }
        proof {
            lemma_child(*p, self.source@.len(), lo as int);
        }
        self.node(&p.children[lo]).append(self.vertical_tail(p, lo + 1, hi))
    }

    fn vertical_tail(&self, p: &SyntaxNode, lo: usize, hi: usize) -> (d: Doc)
        requires
            wf(*p, self.source@.len()),
            shaped(*p),
            !is_atom(*p),
            in_range(*p, lo as int, hi as int),
        ensures
            d@ == vertical_tail(self.source@, self.indent, *p, lo as int, hi as int),
        decreases p, 1int, hi - lo,
    {
        if lo < 1 || hi <= lo {
            Doc::Nil
        } else if hi - lo == 1 {
            let prev = &p.children[lo - 1];
            let child = &p.children[lo];
            proof {
                lemma_child(*p, self.source@.len(), lo as int);
                lemma_wf_siblings(*p, self.source@.len(), lo - 1);
            }
            let separator = if self.ends_line_comment(prev) {
                self.hard_separator(prev, child)
            } else if child.kind == Kind::Comma {
                Doc::Nil
            } else if child.kind == Kind::Comment && self.same_line(prev, child) {
                Doc::Space
            } else {
                self.hard_separator(prev, child)
            };
            separator.append(self.node(child))
        } else {
            let mid = lo + (hi - lo) / 2;
            self.vertical_tail(p, lo, mid).append(self.vertical_tail(p, mid, hi))
        }
    }

    fn body(&self, p: &SyntaxNode, lo: usize, hi: usize) -> (d: Doc)
        requires
            wf(*p, self.source@.len()),
            shaped(*p),
            !is_atom(*p),
            in_range(*p, lo as int, hi as int),
            hi - lo >= 2,
        ensures
            d@ == print_body(self.source@, self.indent, *p, lo as int, hi as int),
        decreases p, 2int, 0int,
    {
        let first = &p.children[lo];
        let last = &p.children[hi - 1];
        proof {
            lemma_child(*p, self.source@.len(), lo as int);
            lemma_child(*p, self.source@.len(), hi - 1);
        }
        if hi - lo == 2 {
            return self.node(first).append(self.node(last));
        }
        self.node(first).append(
            Doc::Hardline.append(self.vertical(p, lo + 1, hi - 1)).nest(self.indent),
        ).append(Doc::Hardline).append(self.node(last))
    }

    fn case(&self, p: &SyntaxNode) -> (d: Doc)
        requires
            wf(*p, self.source@.len()),
            shaped(*p),
            !is_atom(*p),
            first_of(*p, Kind::Colon, 0, p.children@.len() as int) is Some,
        ensures
            d@ == print_case(self.source@, self.indent, *p),
        decreases p, 3int, 0int,
    {
        let len = p.children.len();
        let colon = position(p, Kind::Colon, 0, len).unwrap();
        proof {
            lemma_first_of_bounds(*p, Kind::Colon, 0, len as int);
        }
        let header = self.inline(p, 0, colon + 1);
        if colon + 1 == len {
            return header;
        }
        let first = &p.children[colon + 1];
        proof {
            lemma_child(*p, self.source@.len(), colon + 1);
            lemma_wf_siblings(*p, self.source@.len(), colon as int);
        }
        // A trailing label comment belongs on its original line. The remaining
        // statements still get a full case-body indentation level.
        if first.kind == Kind::Comment && self.same_line(&p.children[colon], first) {
            let header = header.append(Doc::Space).append(self.node(first));
            if len - (colon + 1) == 1 {
                return header;
            }
            return header.append(
                Doc::Hardline.append(self.vertical(p, colon + 2, len)).nest(self.indent),
            );
        }
        header.append(Doc::Hardline.append(self.vertical(p, colon + 1, len)).nest(self.indent))
    }

    fn delimited(&self, p: &SyntaxNode, lo: usize, hi: usize, spaced: bool) -> (d: Doc)
        requires
            wf(*p, self.source@.len()),
            shaped(*p),
            !is_atom(*p),
            in_range(*p, lo as int, hi as int),
            hi - lo >= 2,
        ensures
            d@ == print_delimited(self.source@, self.indent, *p, lo as int, hi as int, spaced),
        decreases p, 2int, 0int,
    {
        let last = hi - 1;
        proof {
            lemma_child(*p, self.source@.len(), lo as int);
            lemma_child(*p, self.source@.len(), last as int);
        }
        let open = self.node(&p.children[lo]);
        let close = self.node(&p.children[last]);
        if last == lo + 1 {
            return open.append(close);
        }
        proof {
            lemma_child(*p, self.source@.len(), last - 1);
        }
        let closing = if self.ends_line_comment(&p.children[last - 1]) {
            Doc::Hardline
        } else if spaced {
            Doc::Line
        } else {
            Doc::SoftLine
        };
        let edge = if spaced {
            Doc::Line
        } else {
            Doc::SoftLine
        };
        open.append(edge.append(self.sequence(p, lo + 1, last)).nest(self.indent)).append(
            closing,
        ).append(close).group()
    }

    fn control(&self, p: &SyntaxNode) -> (d: Doc)
        requires
            wf(*p, self.source@.len()),
            shaped(*p),
            !is_atom(*p),
            p.kind == Kind::ForStatement || p.kind == Kind::CatchClause,
        ensures
            d@ == print_control(self.source@, self.indent, *p),
        decreases p, 3int, 0int,
    {
        let len = p.children.len();
        proof {
            lemma_shaped(*p);
        }
        let open = position(p, Kind::OpenParen, 0, len).unwrap();
        let close = last_position(p, Kind::CloseParen, 0, len).unwrap();
        proof {
            lemma_first_of_bounds(*p, Kind::OpenParen, 0, len as int);
            lemma_last_of_bounds(*p, Kind::CloseParen, 0, len as int);
        }
        proof {
            lemma_wf_siblings(*p, self.source@.len(), open - 1);
        }
        let mut doc = self.inline(p, 0, open);
        doc = doc.append(self.separator(p.kind, &p.children[open - 1], &p.children[open]));
        doc = doc.append(self.delimited(p, open, close + 1, false));
        if close + 1 < len {
            proof {
                lemma_wf_siblings(*p, self.source@.len(), close as int);
            }
            doc = doc.append(self.separator(p.kind, &p.children[close], &p.children[close + 1])).append(
                self.inline(p, close + 1, len),
            );
        }
        doc
    }

    fn inline(&self, p: &SyntaxNode, lo: usize, hi: usize) -> (d: Doc)
        requires
            wf(*p, self.source@.len()),
            shaped(*p),
            !is_atom(*p),
            in_range(*p, lo as int, hi as int),
        ensures
            d@ == print_inline(self.source@, self.indent, *p, lo as int, hi as int),
        decreases p, 2int, 0int,
    {
        // Group headers separately from bodies, whose hardlines must not force
        // every optional break in a function signature or condition.
        match body_position(p, lo, hi) {
            Some(index) => {
                proof {
                    lemma_first_body_bounds(*p, lo as int, hi as int);
                }
                if index > lo {
                    proof {
                        lemma_wf_siblings(*p, self.source@.len(), index - 1);
                    }
                    self.sequence(p, lo, index).group().append(
                        self.separator(p.kind, &p.children[index - 1], &p.children[index]),
                    ).append(self.sequence(p, index, hi))
                } else {
                    self.sequence(p, lo, hi).group()
                }
            },
            None => self.sequence(p, lo, hi).group(),
        }
    }

    fn sequence(&self, p: &SyntaxNode, lo: usize, hi: usize) -> (d: Doc)
        requires
            wf(*p, self.source@.len()),
            shaped(*p),
            !is_atom(*p),
            in_range(*p, lo as int, hi as int),
        ensures
            d@ == print_sequence(self.source@, self.indent, *p, lo as int, hi as int),
        decreases p, 1int, hi - lo,
    {
        if lo >= hi {
            return Doc::Nil;
        }
        proof {
            lemma_child(*p, self.source@.len(), lo as int);
        }
        self.node(&p.children[lo]).append(self.sequence_tail(p, lo + 1, hi))
    }

    fn sequence_tail(&self, p: &SyntaxNode, lo: usize, hi: usize) -> (d: Doc)
        requires
            wf(*p, self.source@.len()),
            shaped(*p),
            !is_atom(*p),
            in_range(*p, lo as int, hi as int),
        ensures
            d@ == sequence_tail(self.source@, self.indent, *p, lo as int, hi as int),
        decreases p, 1int, hi - lo,
    {
        if lo < 1 || hi <= lo {
            Doc::Nil
        } else if hi - lo == 1 {
            let prev = &p.children[lo - 1];
            let child = &p.children[lo];
            proof {
                lemma_child(*p, self.source@.len(), lo as int);
                lemma_wf_siblings(*p, self.source@.len(), lo - 1);
            }
            let item = self.separator(p.kind, prev, child).append(self.node(child));
            if prev.kind == Kind::Comma && (p.kind == Kind::VariableDeclaration || p.kind
                == Kind::LocalVariableDeclaration || p.kind == Kind::ForVariableDeclaration
                || p.kind == Kind::ExpressionList) {
                item.nest(self.indent)
            } else {
                item
            }
        } else {
            let mid = lo + (hi - lo) / 2;
            self.sequence_tail(p, lo, mid).append(self.sequence_tail(p, mid, hi))
        }
    }

    fn expression(&self, p: &SyntaxNode) -> (d: Doc)
        requires
            wf(*p, self.source@.len()),
            shaped(*p),
            !is_atom(*p),
            p.children@.len() > 0,
        ensures
            d@ == print_expression(self.source@, self.indent, *p),
        decreases p, 2int, 0int,
    {
        let len = p.children.len();
        let mut tail = Doc::Nil;
        let mut i: usize = 1;
        while i < len
            invariant
                1 <= i <= len,
                len == p.children@.len(),
                wf(*p, self.source@.len()),
                shaped(*p),
                !is_atom(*p),
                tail@ == print_operands(self.source@, self.indent, *p, i as int),
            decreases len - i,
        {
            let prev = &p.children[i - 1];
            let child = &p.children[i];
            proof {
                lemma_wf_siblings(*p, self.source@.len(), i - 1);
                lemma_child(*p, self.source@.len(), i as int);
            }
            let operator = if p.kind == Kind::ConditionalExpression {
                child.kind == Kind::Question || child.kind == Kind::Colon
            } else {
                child.kind != Kind::Comment && (!child.named || child.kind == Kind::RightShiftOperator)
            };
            let separator = if operator && prev.kind != Kind::Comment && !self.ends_line_comment(prev) {
                Doc::Line
            } else {
                self.separator(p.kind, prev, child)
            };
            tail = tail.append(separator).append(self.node(child));
            i = i + 1;
        }
        proof {
            lemma_child(*p, self.source@.len(), 0);
        }
        self.node(&p.children[0]).append(tail.nest(self.indent)).group()
    }
}

/// A child of a well-formed, shaped node is both, and lies in the buffer.
proof fn lemma_child(p: SyntaxNode, len: nat, i: int)
    requires
        wf(p, len),
        shaped(p),
        !is_atom(p),
        0 <= i < p.children@.len(),
    ensures
        wf(p.children@[i], len),
        shaped(p.children@[i]),
        p.children@[i].start <= p.children@[i].end <= len,
{
    lemma_wf_child(p, len, i);
    lemma_shaped(p);
    lemma_wf_node(p.children@[i], len);
}

/// Lay out a well-formed, well-shaped tree over `source`, indenting each
/// level by `indent` columns; the document ends with one line break.
pub fn layout(source: &[u8], root: &SyntaxNode, indent: isize) -> (d: Doc)
    requires
        wf(*root, source@.len()),
        shaped(*root),
    ensures
        d@ == document(source@, indent, *root),
{
    let printer = Printer { source, indent };
    printer.node(root).append(Doc::Hardline)
}

}
