//! Rendering a layout document with the `pretty` crate's Wadler-style printer.
use vstd::prelude::*;
use pretty::BoxDoc;
use crate::doc::{doc_wf, tokens, Doc, DocView};

verus! {

#[verifier::external_type_specification]
#[verifier::external_body]
#[verifier::reject_recursive_types(A)]
pub struct ExBoxDoc<'a, A>(BoxDoc<'a, A>);

/// One node of a `pretty` document, as its contents list them in preorder:
/// `Text` is a text node over the given characters; `Line` is `line()` (a break, or one blank
/// when flat) and `SoftLine` is `line_()` (a break, or nothing when flat);
/// `Append`, `Nest` and `Group` are followed by the nodes they hold;
/// `Dedent` is followed by the nodes of a document that it renders nested
/// back by the indentation level in force, so that its breaks start at
/// column 0. `Other` is any node none of the constructors below builds.
pub enum PrettyNode {
    Nil,
    Text(Seq<char>),
    Line,
    SoftLine,
    Hardline,
    Append,
    Nest(isize),
    Group,
    Dedent,
    Other,
}

/// The nodes of a `pretty` document, in preorder.
pub uninterp spec fn pretty_contents(doc: BoxDoc<'static, ()>) -> Seq<PrettyNode>;

/// What `pretty`'s renderer writes for a document with these contents at
/// this line width.
pub uninterp spec fn pretty_layout(contents: Seq<PrettyNode>, width: usize) -> Seq<char>;

/// The contents of a text node: `pretty` makes the empty text `Nil`.
pub open spec fn p_text(t: Seq<char>) -> Seq<PrettyNode> {
    if t.len() == 0 {
        seq![PrettyNode::Nil]
    } else {
        seq![PrettyNode::Text(t)]
    }
}

/// Every character is ASCII.
pub open spec fn is_ascii(t: Seq<char>) -> bool {
    forall|i: int| 0 <= i < t.len() ==> (t[i] as u32) < 128
}

/// The bytes read as UTF-8, each invalid sequence replaced by U+FFFD.
pub uninterp spec fn utf8_lossy(bytes: Seq<u8>) -> Seq<char>;

/// `String::from_utf8_lossy`, made an owned `String`. A line feed of the
/// text can only come from a line-feed byte, since every other character
/// comes from a valid sequence or is U+FFFD.
#[verifier::external_body]
fn decode_lossy(bytes: &[u8]) -> (r: String)
    ensures
        r@ == utf8_lossy(bytes@),
        !bytes@.contains(10u8) ==> !r@.contains('\n'),
{
    String::from_utf8_lossy(bytes).into_owned()
}

/// The contents of `a` followed by `b`: `pretty` drops a `Nil` on either side.
pub open spec fn p_append(a: Seq<PrettyNode>, b: Seq<PrettyNode>) -> Seq<PrettyNode> {
    if a == seq![PrettyNode::Nil] {
        b
    } else if b == seq![PrettyNode::Nil] {
        a
    } else {
        seq![PrettyNode::Append] + a + b
    }
}

/// The contents of `a` nested by `offset`: `pretty` leaves `Nil` and a zero
/// offset as they are.
pub open spec fn p_nest(offset: isize, a: Seq<PrettyNode>) -> Seq<PrettyNode> {
    if a == seq![PrettyNode::Nil] || offset == 0 {
        a
    } else {
        seq![PrettyNode::Nest(offset)] + a
    }
}

/// The contents of `a` as a group: `pretty` leaves a group, `Nil` and an
/// ASCII text as they are (a non-ASCII text carries its display width, which
/// the group then wraps).
pub open spec fn p_group(a: Seq<PrettyNode>) -> Seq<PrettyNode> {
    if a.len() > 0 && (a[0] is Group || a[0] is Nil || (a[0] matches PrettyNode::Text(t) && is_ascii(t))) {
        a
    } else {
        seq![PrettyNode::Group] + a
    }
}

/// `pretty::BoxDoc::nil`.
#[verifier::external_body]
fn pretty_nil() -> (r: BoxDoc<'static, ()>)
    ensures
        pretty_contents(r) == seq![PrettyNode::Nil],
{
    BoxDoc::nil()
}

/// `pretty::BoxDoc::text`; the crate asks for text without line breaks,
/// and makes the empty text `Nil`.
#[verifier::external_body]
fn pretty_text(text: String) -> (r: BoxDoc<'static, ()>)
    requires
        !text@.contains('\n'),
    ensures
        pretty_contents(r) == p_text(text@),
{
    BoxDoc::text(text)
}

/// `pretty::BoxDoc::space`: the text of one blank.
#[verifier::external_body]
fn pretty_space() -> (r: BoxDoc<'static, ()>)
    ensures
        pretty_contents(r) == seq![PrettyNode::Text(seq![' '])],
{
    BoxDoc::space()
}

/// `pretty::BoxDoc::line`.
#[verifier::external_body]
fn pretty_line() -> (r: BoxDoc<'static, ()>)
    ensures
        pretty_contents(r) == seq![PrettyNode::Line],
{
    BoxDoc::line()
}

/// `pretty::BoxDoc::line_`.
#[verifier::external_body]
fn pretty_soft_line() -> (r: BoxDoc<'static, ()>)
    ensures
        pretty_contents(r) == seq![PrettyNode::SoftLine],
{
    BoxDoc::line_()
}

/// `pretty::BoxDoc::hardline`.
#[verifier::external_body]
fn pretty_hardline() -> (r: BoxDoc<'static, ()>)
    ensures
        pretty_contents(r) == seq![PrettyNode::Hardline],
{
    BoxDoc::hardline()
}

/// `pretty::BoxDoc::append`.
#[verifier::external_body]
fn pretty_append(a: BoxDoc<'static, ()>, b: BoxDoc<'static, ()>) -> (r: BoxDoc<'static, ()>)
    ensures
        pretty_contents(r) == p_append(pretty_contents(a), pretty_contents(b)),
{
    a.append(b)
}

/// `pretty::BoxDoc::nest`.
#[verifier::external_body]
fn pretty_nest(a: BoxDoc<'static, ()>, offset: isize) -> (r: BoxDoc<'static, ()>)
    ensures
        pretty_contents(r) == p_nest(offset, pretty_contents(a)),
{
    a.nest(offset)
}

/// `pretty::BoxDoc::group`.
#[verifier::external_body]
fn pretty_group(a: BoxDoc<'static, ()>) -> (r: BoxDoc<'static, ()>)
    ensures
        pretty_contents(r) == p_group(pretty_contents(a)),
{
    a.group()
}

/// `Clone::clone` on a `pretty::BoxDoc`.
#[verifier::external_body]
fn pretty_clone(a: &BoxDoc<'static, ()>) -> (r: BoxDoc<'static, ()>)
    ensures
        pretty_contents(r) == pretty_contents(*a),
{
    a.clone()
}

/// `pretty::BoxDoc::nesting`: a document built, at render time, from the
/// current indentation level, here `dedent_at` of `lines`.
#[verifier::external_body]
fn pretty_nesting(lines: BoxDoc<'static, ()>) -> (r: BoxDoc<'static, ()>)
    ensures
        pretty_contents(r) == seq![PrettyNode::Dedent] + pretty_contents(lines),
{
    BoxDoc::nesting(move |level| dedent_at(&lines, level))
}

/// No node of the contents is `Other`.
pub open spec fn no_other(c: Seq<PrettyNode>) -> bool {
    forall|i: int| 0 <= i < c.len() ==> !(#[trigger] c[i] is Other)
}

/// The texts of the contents, in order.
pub open spec fn texts(c: Seq<PrettyNode>) -> Seq<Seq<char>>
    decreases c.len(),
{
    if c.len() == 0 {
        Seq::empty()
    } else {
        match c[0] {
            PrettyNode::Text(t) => seq![t] + texts(c.drop_first()),
            _ => texts(c.drop_first()),
        }
    }
}

/// Nothing but blanks and line feeds.
pub open spec fn is_gap(g: Seq<char>) -> bool {
    forall|i: int| 0 <= i < g.len() ==> g[i] == ' ' || g[i] == '\n'
}

/// `out` is the texts `ts` in order, with nothing but blanks and line feeds
/// before, between and after them.
pub open spec fn spaced_out(out: Seq<char>, ts: Seq<Seq<char>>) -> bool
    decreases ts.len(),
{
    if ts.len() == 0 {
        is_gap(out)
    } else {
        exists|k: int|
            0 <= k && k + ts[0].len() <= out.len() && is_gap(#[trigger] out.subrange(0, k))
                && out.subrange(k, k + ts[0].len()) == ts[0]
                && spaced_out(out.subrange(k + ts[0].len(), out.len() as int), ts.drop_first())
    }
}

/// `pretty::Doc::render_fmt` into a new `String`; `None` where it reports
/// a formatting error. It fails only on a node that no constructor here
/// builds (`fail`), since writing to a `String` does not fail. What it
/// writes is each text of the document, in order, with line feeds and
/// blanks (indentation, and a flat `line`) around them.
#[verifier::external_body]
fn pretty_render(doc: &BoxDoc<'static, ()>, width: usize) -> (r: Option<String>)
    ensures
        no_other(pretty_contents(*doc)) ==> r is Some,
        r matches Some(s) ==> (no_other(pretty_contents(*doc)) ==> s@ == pretty_layout(pretty_contents(*doc), width)),
        r matches Some(s) ==> (no_other(pretty_contents(*doc)) ==> spaced_out(s@, texts(pretty_contents(*doc)))),
{
    let mut out = String::new();
    match doc.render_fmt(width, &mut out) {
        Ok(()) => Some(out),
        Err(_) => None,
    }
}

/// The offset that nests a document back by `level` columns.
pub open spec fn dedent_offset(level: usize) -> isize {
    if level <= isize::MAX as usize {
        (-(level as int)) as isize
    } else {
        (-(isize::MAX as int)) as isize
    }
}

/// `lines` nested back by `level`, so that its line breaks start at column 0.
fn dedent_at(lines: &BoxDoc<'static, ()>, level: usize) -> (r: BoxDoc<'static, ()>)
    ensures
        pretty_contents(r) == p_nest(dedent_offset(level), pretty_contents(*lines)),
{
    let offset: isize = if level <= isize::MAX as usize {
        -(level as isize)
    } else {
        -isize::MAX
    };
    pretty_nest(pretty_clone(lines), offset)
}

/// The lines of `t`: the pieces between its line feeds.
pub open spec fn lines_of(t: Seq<u8>) -> Seq<Seq<u8>>
    decreases t.len(),
{
    if t.len() == 0 {
        seq![Seq::empty()]
    } else {
        let rest = lines_of(t.drop_last());
        if t.last() == 10u8 {
            rest.push(Seq::empty())
        } else {
            rest.update(rest.len() - 1, rest.last().push(t.last()))
        }
    }
}

proof fn lemma_lines_of(t: Seq<u8>)
    ensures
        lines_of(t).len() >= 1,
        forall|i: int| 0 <= i < lines_of(t).len() ==> !(#[trigger] lines_of(t)[i]).contains(10u8),
    decreases t.len(),
{
    if t.len() > 0 {
        lemma_lines_of(t.drop_last());
        let rest = lines_of(t.drop_last());
        if t.last() != 10u8 {
            assert forall|i: int| 0 <= i < lines_of(t).len() implies !(#[trigger] lines_of(t)[i]).contains(10u8) by {
                if i == rest.len() - 1 {
                    let l = rest.last().push(t.last());
                    if l.contains(10u8) {
                        let k = choose|k: int| 0 <= k < l.len() && l[k] == 10u8;
                        assert(rest.last()[k] == 10u8);
                    }
                }
            }
        }
    }
}

/// Split `t` at its line feeds, which are dropped.
fn split_lines(t: &[u8]) -> (parts: Vec<Vec<u8>>)
    ensures
        parts@.len() == lines_of(t@).len(),
        forall|i: int| 0 <= i < parts@.len() ==> (#[trigger] parts@[i])@ == lines_of(t@)[i],
{
    let mut parts: Vec<Vec<u8>> = Vec::new();
    let mut current: Vec<u8> = Vec::new();
    let mut i: usize = 0;
    while i < t.len()
        invariant
            i <= t@.len(),
            parts@.len() + 1 == lines_of(t@.subrange(0, i as int)).len(),
            forall|j: int| 0 <= j < parts@.len() ==> (#[trigger] parts@[j])@ == lines_of(t@.subrange(0, i as int))[j],
            current@ == lines_of(t@.subrange(0, i as int)).last(),
        decreases t.len() - i,
    {
        proof {
            assert(t@.subrange(0, i + 1).drop_last() =~= t@.subrange(0, i as int));
            lemma_lines_of(t@.subrange(0, i as int));
        }
        if t[i] == 10u8 {
            parts.push(current);
            current = Vec::new();
        } else {
            current.push(t[i]);
        }
        i = i + 1;
    }
    parts.push(current);
    proof {
        assert(t@.subrange(0, t@.len() as int) =~= t@);
    }
    parts
}

/// The contents of the lines `ls`, with a hard line break between each two;
/// the halves are joined, so the document is only as deep as the logarithm
/// of the number of lines.
pub open spec fn joined(ls: Seq<Seq<u8>>) -> Seq<PrettyNode>
    decreases ls.len(),
{
    if ls.len() <= 1 {
        p_text(utf8_lossy(ls[0]))
    } else {
        let mid = ls.len() / 2;
        p_append(
            p_append(joined(ls.subrange(0, mid as int)), seq![PrettyNode::Hardline]),
            joined(ls.subrange(mid as int, ls.len() as int)),
        )
    }
}

/// The contents of a `pretty` document that a layout document stands for.
pub open spec fn pretty_pieces(d: DocView) -> Seq<PrettyNode>
    decreases d,
{
    match d {
        DocView::Nil => seq![PrettyNode::Nil],
        DocView::Text(t) => p_text(utf8_lossy(t)),
        DocView::Verbatim(t) => seq![PrettyNode::Dedent] + joined(lines_of(t)),
        DocView::Space => seq![PrettyNode::Text(seq![' '])],
        DocView::Line => seq![PrettyNode::Line],
        DocView::SoftLine => seq![PrettyNode::SoftLine],
        DocView::Hardline => seq![PrettyNode::Hardline],
        DocView::Append(a, b) => p_append(pretty_pieces(*a), pretty_pieces(*b)),
        DocView::Nest(k, a) => p_nest(k, pretty_pieces(*a)),
        DocView::Group(a) => p_group(pretty_pieces(*a)),
    }
}

/// The text `pretty` renders a layout document as, at line width `width`.
pub open spec fn rendering(d: DocView, width: usize) -> Seq<char> {
    pretty_layout(pretty_pieces(d), width)
}

proof fn lemma_no_other_append(a: Seq<PrettyNode>, b: Seq<PrettyNode>)
    requires
        no_other(a),
        no_other(b),
    ensures
        no_other(p_append(a, b)),
        no_other(seq![PrettyNode::Append] + a + b),
{
    let c = seq![PrettyNode::Append] + a + b;
    assert forall|i: int| 0 <= i < c.len() implies !(#[trigger] c[i] is Other) by {
        if i >= 1 + a.len() {
            assert(c[i] == b[i - 1 - a.len()]);
        } else if i >= 1 {
            assert(c[i] == a[i - 1]);
        }
    }
}

proof fn lemma_no_other_prefix(p: PrettyNode, a: Seq<PrettyNode>)
    requires
        no_other(a),
        !(p is Other),
    ensures
        no_other(seq![p] + a),
{
    let c = seq![p] + a;
    assert forall|i: int| 0 <= i < c.len() implies !(#[trigger] c[i] is Other) by {
        if i >= 1 {
            assert(c[i] == a[i - 1]);
        }
    }
}

proof fn lemma_joined_no_other(ls: Seq<Seq<u8>>)
    ensures
        no_other(joined(ls)),
    decreases ls.len(),
{
    if ls.len() > 1 {
        let mid = ls.len() / 2;
        let (left, right) = (ls.subrange(0, mid as int), ls.subrange(mid as int, ls.len() as int));
        lemma_joined_no_other(left);
        lemma_joined_no_other(right);
        lemma_no_other_append(joined(left), seq![PrettyNode::Hardline]);
        lemma_no_other_append(p_append(joined(left), seq![PrettyNode::Hardline]), joined(right));
    }
}

/// No node of a layout document's `pretty` contents is `Other`.
proof fn lemma_pieces_no_other(d: DocView)
    ensures
        no_other(pretty_pieces(d)),
    decreases d,
{
    match d {
        DocView::Verbatim(t) => {
            lemma_joined_no_other(lines_of(t));
            lemma_no_other_prefix(PrettyNode::Dedent, joined(lines_of(t)));
        },
        DocView::Append(a, b) => {
            lemma_pieces_no_other(*a);
            lemma_pieces_no_other(*b);
            lemma_no_other_append(pretty_pieces(*a), pretty_pieces(*b));
        },
        DocView::Nest(k, a) => {
            lemma_pieces_no_other(*a);
            lemma_no_other_prefix(PrettyNode::Nest(k), pretty_pieces(*a));
        },
        DocView::Group(a) => {
            lemma_pieces_no_other(*a);
            lemma_no_other_prefix(PrettyNode::Group, pretty_pieces(*a));
        },
        _ => {},
    }
}

/// Lines `lo..hi` of `parts`, with a hard line break between each two.
fn join_lines(parts: &Vec<Vec<u8>>, lo: usize, hi: usize) -> (r: BoxDoc<'static, ()>)
    requires
        lo < hi <= parts@.len(),
        forall|j: int| 0 <= j < parts@.len() ==> !(#[trigger] parts@[j])@.contains(10u8),
    ensures
        pretty_contents(r) == joined(parts@.subrange(lo as int, hi as int).map_values(|v: Vec<u8>| v@)),
    decreases hi - lo,
{
    let ghost ls = parts@.subrange(lo as int, hi as int).map_values(|v: Vec<u8>| v@);
    if hi - lo == 1 {
        assert(ls[0] == parts@[lo as int]@);
        pretty_text(decode_lossy(parts[lo].as_slice()))
    } else {
        let mid = lo + (hi - lo) / 2;
        let left = join_lines(parts, lo, mid);
        let right = join_lines(parts, mid, hi);
        assert(ls.subrange(0, (mid - lo) as int) =~= parts@.subrange(lo as int, mid as int).map_values(|v: Vec<u8>| v@));
        assert(ls.subrange((mid - lo) as int, ls.len() as int) =~= parts@.subrange(mid as int, hi as int).map_values(|v: Vec<u8>| v@));
        pretty_append(pretty_append(left, pretty_hardline()), right)
    }
}

/// `t` as a text of its own, unless it is empty.
pub open spec fn word(t: Seq<char>) -> Seq<Seq<char>> {
    if t.len() == 0 {
        Seq::empty()
    } else {
        seq![t]
    }
}

/// The lines `ls`, each read as UTF-8, the empty ones left out.
pub open spec fn line_words(ls: Seq<Seq<u8>>) -> Seq<Seq<char>>
    decreases ls.len(),
{
    if ls.len() == 0 {
        Seq::empty()
    } else {
        word(utf8_lossy(ls[0])) + line_words(ls.drop_first())
    }
}

/// The texts that tokens are written as: the lines of each, read as UTF-8,
/// the empty ones left out.
pub open spec fn token_words(toks: Seq<Seq<u8>>) -> Seq<Seq<char>>
    decreases toks.len(),
{
    if toks.len() == 0 {
        Seq::empty()
    } else {
        line_words(lines_of(toks[0])) + token_words(toks.drop_first())
    }
}

/// The texts that are not all blanks and line feeds, in order.
pub open spec fn drop_gaps(ts: Seq<Seq<char>>) -> Seq<Seq<char>>
    decreases ts.len(),
{
    if ts.len() == 0 {
        ts
    } else if is_gap(ts[0]) {
        drop_gaps(ts.drop_first())
    } else {
        seq![ts[0]] + drop_gaps(ts.drop_first())
    }
}

proof fn lemma_texts_concat(a: Seq<PrettyNode>, b: Seq<PrettyNode>)
    ensures
        texts(a + b) == texts(a) + texts(b),
    decreases a.len(),
{
    if a.len() == 0 {
        assert(a + b =~= b);
        assert(texts(a) + texts(b) =~= texts(b));
    } else {
        assert((a + b)[0] == a[0]);
        assert((a + b).drop_first() =~= a.drop_first() + b);
        lemma_texts_concat(a.drop_first(), b);
        match a[0] {
            PrettyNode::Text(t) => {
                assert(seq![t] + (texts(a.drop_first()) + texts(b)) =~= (seq![t] + texts(a.drop_first())) + texts(b));
            },
            _ => {},
        }
    }
}

proof fn lemma_drop_gaps_concat(a: Seq<Seq<char>>, b: Seq<Seq<char>>)
    ensures
        drop_gaps(a + b) == drop_gaps(a) + drop_gaps(b),
    decreases a.len(),
{
    if a.len() == 0 {
        assert(a + b =~= b);
        assert(drop_gaps(a) + drop_gaps(b) =~= drop_gaps(b));
    } else {
        assert((a + b)[0] == a[0]);
        assert((a + b).drop_first() =~= a.drop_first() + b);
        lemma_drop_gaps_concat(a.drop_first(), b);
        if !is_gap(a[0]) {
            assert(seq![a[0]] + (drop_gaps(a.drop_first()) + drop_gaps(b)) =~= (seq![a[0]] + drop_gaps(a.drop_first())) + drop_gaps(b));
        }
    }
}

proof fn lemma_line_words_concat(a: Seq<Seq<u8>>, b: Seq<Seq<u8>>)
    ensures
        line_words(a + b) == line_words(a) + line_words(b),
    decreases a.len(),
{
    if a.len() == 0 {
        assert(a + b =~= b);
        assert(line_words(a) + line_words(b) =~= line_words(b));
    } else {
        assert((a + b)[0] == a[0]);
        assert((a + b).drop_first() =~= a.drop_first() + b);
        lemma_line_words_concat(a.drop_first(), b);
        assert(word(utf8_lossy(a[0])) + (line_words(a.drop_first()) + line_words(b)) =~= (word(utf8_lossy(a[0]))
            + line_words(a.drop_first())) + line_words(b));
    }
}

proof fn lemma_token_words_concat(a: Seq<Seq<u8>>, b: Seq<Seq<u8>>)
    ensures
        token_words(a + b) == token_words(a) + token_words(b),
    decreases a.len(),
{
    if a.len() == 0 {
        assert(a + b =~= b);
        assert(token_words(a) + token_words(b) =~= token_words(b));
    } else {
        assert((a + b)[0] == a[0]);
        assert((a + b).drop_first() =~= a.drop_first() + b);
        lemma_token_words_concat(a.drop_first(), b);
        assert(line_words(lines_of(a[0])) + (token_words(a.drop_first()) + token_words(b)) =~= (line_words(
            lines_of(a[0]),
        ) + token_words(a.drop_first())) + token_words(b));
    }
}

proof fn lemma_texts_prefix(n: PrettyNode, a: Seq<PrettyNode>)
    requires
        !(n is Text),
    ensures
        texts(seq![n] + a) == texts(a),
{
    assert((seq![n] + a).drop_first() =~= a);
}

proof fn lemma_texts_nil()
    ensures
        texts(seq![PrettyNode::Nil]) == Seq::<Seq<char>>::empty(),
{
    lemma_texts_prefix(PrettyNode::Nil, Seq::empty());
    assert(seq![PrettyNode::Nil] + Seq::<PrettyNode>::empty() =~= seq![PrettyNode::Nil]);
}

proof fn lemma_texts_text(t: Seq<char>)
    ensures
        texts(p_text(t)) == word(t),
{
    lemma_texts_nil();
    if t.len() > 0 {
        let c = seq![PrettyNode::Text(t)];
        assert(c[0] == PrettyNode::Text(t));
        assert(c.drop_first() =~= Seq::<PrettyNode>::empty());
        assert(texts(Seq::<PrettyNode>::empty()) == Seq::<Seq<char>>::empty());
        assert(texts(c) == seq![t] + texts(c.drop_first()));
        assert(seq![t] + Seq::<Seq<char>>::empty() =~= seq![t]);
    }
}

proof fn lemma_texts_append(a: Seq<PrettyNode>, b: Seq<PrettyNode>)
    ensures
        texts(p_append(a, b)) == texts(a) + texts(b),
{
    lemma_texts_nil();
    if a == seq![PrettyNode::Nil] {
        assert(texts(a) + texts(b) =~= texts(b));
    } else if b == seq![PrettyNode::Nil] {
        assert(texts(a) + texts(b) =~= texts(a));
    } else {
        lemma_texts_prefix(PrettyNode::Append, a + b);
        assert(seq![PrettyNode::Append] + a + b =~= seq![PrettyNode::Append] + (a + b));
        lemma_texts_concat(a, b);
    }
}

proof fn lemma_texts_nest(k: isize, a: Seq<PrettyNode>)
    ensures
        texts(p_nest(k, a)) == texts(a),
{
    if !(a == seq![PrettyNode::Nil] || k == 0) {
        lemma_texts_prefix(PrettyNode::Nest(k), a);
    }
}

proof fn lemma_texts_group(a: Seq<PrettyNode>)
    ensures
        texts(p_group(a)) == texts(a),
{
    lemma_texts_prefix(PrettyNode::Group, a);
}

proof fn lemma_joined_texts(ls: Seq<Seq<u8>>)
    requires
        ls.len() >= 1,
    ensures
        texts(joined(ls)) == line_words(ls),
    decreases ls.len(),
{
    if ls.len() == 1 {
        lemma_texts_text(utf8_lossy(ls[0]));
        assert(ls.drop_first() =~= Seq::<Seq<u8>>::empty());
        assert(line_words(Seq::<Seq<u8>>::empty()) == Seq::<Seq<char>>::empty());
        assert(line_words(ls) == word(utf8_lossy(ls[0])) + line_words(ls.drop_first()));
        assert(word(utf8_lossy(ls[0])) + Seq::<Seq<char>>::empty() =~= word(utf8_lossy(ls[0])));
    } else {
        let mid = ls.len() / 2;
        let (left, right) = (ls.subrange(0, mid as int), ls.subrange(mid as int, ls.len() as int));
        lemma_joined_texts(left);
        lemma_joined_texts(right);
        lemma_texts_append(joined(left), seq![PrettyNode::Hardline]);
        lemma_texts_prefix(PrettyNode::Hardline, Seq::empty());
        assert(seq![PrettyNode::Hardline] + Seq::<PrettyNode>::empty() =~= seq![PrettyNode::Hardline]);
        lemma_texts_append(p_append(joined(left), seq![PrettyNode::Hardline]), joined(right));
        assert(ls =~= left + right);
        lemma_line_words_concat(left, right);
        assert(texts(joined(left)) + Seq::<Seq<char>>::empty() =~= texts(joined(left)));
    }
}

proof fn lemma_lines_single(t: Seq<u8>)
    requires
        !t.contains(10u8),
    ensures
        lines_of(t) == seq![t],
    decreases t.len(),
{
    if t.len() > 0 {
        assert(!t.drop_last().contains(10u8)) by {
            if t.drop_last().contains(10u8) {
                let k = choose|k: int| 0 <= k < t.drop_last().len() && t.drop_last()[k] == 10u8;
                assert(t[k] == 10u8);
            }
        }
        lemma_lines_single(t.drop_last());
        assert(t.last() != 10u8) by {
            assert(t[t.len() - 1] == t.last());
        }
        assert(t.drop_last().push(t.last()) =~= t);
        assert(seq![t.drop_last()].update(0, t.drop_last().push(t.last())) =~= seq![t]);
    } else {
        assert(t =~= Seq::<u8>::empty());
    }
}

proof fn lemma_text_words(t: Seq<u8>)
    requires
        !t.contains(10u8),
    ensures
        texts(pretty_pieces(DocView::Text(t))) == token_words(tokens(DocView::Text(t))),
{
    let d = DocView::Text(t);
    lemma_texts_text(utf8_lossy(t));
    lemma_lines_single(t);
    assert(seq![t].drop_first() =~= Seq::<Seq<u8>>::empty());
    assert(seq![t][0] == t);
    assert(line_words(Seq::<Seq<u8>>::empty()) == Seq::<Seq<char>>::empty());
    assert(token_words(Seq::<Seq<u8>>::empty()) == Seq::<Seq<char>>::empty());
    assert(line_words(seq![t]) == word(utf8_lossy(t)) + line_words(Seq::<Seq<u8>>::empty()));
    assert(line_words(seq![t]) =~= word(utf8_lossy(t)));
    assert(token_words(seq![t]) == line_words(lines_of(t)) + token_words(Seq::<Seq<u8>>::empty()));
    assert(token_words(seq![t]) =~= word(utf8_lossy(t)));
    assert(tokens(d) == seq![t]);
    assert(pretty_pieces(d) == p_text(utf8_lossy(t)));
}

/// Leaving aside what is nothing but blanks and line feeds, the texts of a
/// layout document's `pretty` contents are its tokens, line by line, read
/// as UTF-8.
pub proof fn pieces_write_the_tokens(d: DocView)
    requires
        doc_wf(d),
    ensures
        drop_gaps(texts(pretty_pieces(d))) == drop_gaps(token_words(tokens(d))),
    decreases d,
{
    lemma_texts_nil();
    match d {
        DocView::Text(t) => {
            lemma_text_words(t);
        },
        DocView::Verbatim(t) => {
            lemma_lines_of(t);
            lemma_joined_texts(lines_of(t));
            lemma_texts_prefix(PrettyNode::Dedent, joined(lines_of(t)));
            assert(seq![t].drop_first() =~= Seq::<Seq<u8>>::empty());
            assert(line_words(lines_of(t)) + Seq::<Seq<char>>::empty() =~= line_words(lines_of(t)));
            assert(token_words(seq![t]) == line_words(lines_of(t)) + token_words(Seq::<Seq<u8>>::empty()));
        },
        DocView::Space => {
            let c = seq![PrettyNode::Text(seq![' '])];
            assert(c.drop_first() =~= Seq::<PrettyNode>::empty());
            assert(seq![seq![' ']] + Seq::<Seq<char>>::empty() =~= seq![seq![' ']]);
            let w = seq![seq![' ']];
            assert(c[0] == PrettyNode::Text(seq![' ']));
            assert(texts(Seq::<PrettyNode>::empty()) == Seq::<Seq<char>>::empty());
            assert(texts(c) == w);
            assert(is_gap(w[0]));
            assert(w.drop_first() =~= Seq::<Seq<char>>::empty());
            assert(drop_gaps(Seq::<Seq<char>>::empty()) == Seq::<Seq<char>>::empty());
            assert(drop_gaps(w) == drop_gaps(w.drop_first()));
            assert(token_words(Seq::<Seq<u8>>::empty()) == Seq::<Seq<char>>::empty());
            assert(tokens(d) == Seq::<Seq<u8>>::empty());
        },
        DocView::Line => {
            lemma_texts_prefix(PrettyNode::Line, Seq::empty());
            assert(seq![PrettyNode::Line] + Seq::<PrettyNode>::empty() =~= seq![PrettyNode::Line]);
        },
        DocView::SoftLine => {
            lemma_texts_prefix(PrettyNode::SoftLine, Seq::empty());
            assert(seq![PrettyNode::SoftLine] + Seq::<PrettyNode>::empty() =~= seq![PrettyNode::SoftLine]);
        },
        DocView::Hardline => {
            lemma_texts_prefix(PrettyNode::Hardline, Seq::empty());
            assert(seq![PrettyNode::Hardline] + Seq::<PrettyNode>::empty() =~= seq![PrettyNode::Hardline]);
        },
        DocView::Append(a, b) => {
            pieces_write_the_tokens(*a);
            pieces_write_the_tokens(*b);
            lemma_texts_append(pretty_pieces(*a), pretty_pieces(*b));
            lemma_drop_gaps_concat(texts(pretty_pieces(*a)), texts(pretty_pieces(*b)));
            lemma_token_words_concat(tokens(*a), tokens(*b));
            lemma_drop_gaps_concat(token_words(tokens(*a)), token_words(tokens(*b)));
        },
        DocView::Nest(k, a) => {
            pieces_write_the_tokens(*a);
            lemma_texts_nest(k, pretty_pieces(*a));
        },
        DocView::Group(a) => {
            pieces_write_the_tokens(*a);
            lemma_texts_group(pretty_pieces(*a));
        },
        DocView::Nil => {},
    }
}

proof fn lemma_spaced_gap_prefix(g: Seq<char>, x: Seq<char>, ts: Seq<Seq<char>>)
    requires
        is_gap(g),
        spaced_out(x, ts),
    ensures
        spaced_out(g + x, ts),
{
    if ts.len() == 0 {
        assert forall|i: int| 0 <= i < (g + x).len() implies (g + x)[i] == ' ' || (g + x)[i] == '\n' by {
            if i >= g.len() {
                assert((g + x)[i] == x[i - g.len()]);
            }
        }
    } else {
        let k = choose|k: int|
            0 <= k && k + ts[0].len() <= x.len() && is_gap(#[trigger] x.subrange(0, k))
                && x.subrange(k, k + ts[0].len()) == ts[0]
                && spaced_out(x.subrange(k + ts[0].len(), x.len() as int), ts.drop_first());
        let y = g + x;
        let k2 = g.len() + k;
        assert(y.subrange(0, k2) =~= g + x.subrange(0, k));
        assert forall|i: int| 0 <= i < y.subrange(0, k2).len() implies y.subrange(0, k2)[i] == ' ' || y.subrange(0, k2)[i] == '\n' by {
            if i >= g.len() {
                assert(y.subrange(0, k2)[i] == x.subrange(0, k)[i - g.len()]);
            }
        }
        assert(y.subrange(k2, k2 + ts[0].len()) =~= x.subrange(k, k + ts[0].len()));
        assert(y.subrange(k2 + ts[0].len(), y.len() as int) =~= x.subrange(k + ts[0].len(), x.len() as int));
        assert(is_gap(y.subrange(0, k2)));
    }
}

/// Texts that are nothing but blanks and line feeds can be counted among
/// the gaps around the others.
pub proof fn spaced_without_gaps(out: Seq<char>, ts: Seq<Seq<char>>)
    requires
        spaced_out(out, ts),
    ensures
        spaced_out(out, drop_gaps(ts)),
    decreases ts.len(),
{
    if ts.len() > 0 {
        let k = choose|k: int|
            0 <= k && k + ts[0].len() <= out.len() && is_gap(#[trigger] out.subrange(0, k))
                && out.subrange(k, k + ts[0].len()) == ts[0]
                && spaced_out(out.subrange(k + ts[0].len(), out.len() as int), ts.drop_first());
        let e = k + ts[0].len();
        let rest = out.subrange(e, out.len() as int);
        spaced_without_gaps(rest, ts.drop_first());
        if is_gap(ts[0]) {
            let g = out.subrange(0, e);
            assert forall|i: int| 0 <= i < g.len() implies g[i] == ' ' || g[i] == '\n' by {
                if i < k {
                    assert(g[i] == out.subrange(0, k)[i]);
                } else {
                    assert(g[i] == ts[0][i - k]);
                }
            }
            lemma_spaced_gap_prefix(g, rest, drop_gaps(ts.drop_first()));
            assert(g + rest =~= out);
        } else {
            let d = seq![ts[0]] + drop_gaps(ts.drop_first());
            assert(d[0] == ts[0]);
            assert(d.drop_first() =~= drop_gaps(ts.drop_first()));
            assert(is_gap(out.subrange(0, k)));
        }
    }
}

/// The lines of a multi-line token, with a hard line break between each
/// two and no indentation after any of them.
fn verbatim(t: &[u8]) -> (r: BoxDoc<'static, ()>)
    ensures
        pretty_contents(r) == seq![PrettyNode::Dedent] + joined(lines_of(t@)),
{
    let parts = split_lines(t);
    proof {
        lemma_lines_of(t@);
        assert(parts@.subrange(0, parts@.len() as int).map_values(|v: Vec<u8>| v@) =~= lines_of(t@));
    }
    let lines = join_lines(&parts, 0, parts.len());
    pretty_nesting(lines)
}

/// The `pretty` document that `d` stands for, built constructor by constructor.
fn to_pretty(d: &Doc) -> (r: BoxDoc<'static, ()>)
    requires
        doc_wf(d@),
    ensures
        pretty_contents(r) == pretty_pieces(d@),
    decreases d,
{
    match d {
        Doc::Nil => pretty_nil(),
        Doc::Text(t) => pretty_text(decode_lossy(t.as_slice())),
        Doc::Verbatim(t) => verbatim(t.as_slice()),
        Doc::Space => pretty_space(),
        Doc::Line => pretty_line(),
        Doc::SoftLine => pretty_soft_line(),
        Doc::Hardline => pretty_hardline(),
        Doc::Append(a, b) => pretty_append(to_pretty(a), to_pretty(b)),
        Doc::Nest(k, a) => pretty_nest(to_pretty(a), *k),
        Doc::Group(a) => pretty_group(to_pretty(a)),
    }
}

/// Render a document at the given line width: `pretty`'s layout of the
/// document, which always succeeds here; it is the document's texts with
/// nothing but blanks and line feeds around them.
pub fn render(d: &Doc, width: usize) -> (r: Option<String>)
    requires
        doc_wf(d@),
    ensures
        r matches Some(s) && s@ == rendering(d@, width),
        r matches Some(s) && spaced_out(s@, texts(pretty_pieces(d@))),
{
    let doc = to_pretty(d);
    proof {
        lemma_pieces_no_other(d@);
    }
    pretty_render(&doc, width)
}

}
