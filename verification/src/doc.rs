//! The layout document: tokens, the whitespace allowed between them, and
//! the grouping and indentation that decide where lines break.
use vstd::prelude::*;

verus! {

/// A document in the style of Wadler's prettier printer.
/// `Text` holds a token without line breaks; `Verbatim` holds a token whose
/// internal line breaks are kept exactly, with no added indentation.
/// `Space` is one blank, `Line` a break or a blank, `SoftLine` a break or
/// nothing, `Hardline` a break in any case.
#[derive(Debug)]
pub enum Doc {
    Nil,
    Text(Vec<u8>),
    Verbatim(Vec<u8>),
    Space,
    Line,
    SoftLine,
    Hardline,
    Append(Box<Doc>, Box<Doc>),
    Nest(isize, Box<Doc>),
    Group(Box<Doc>),
}

/// The mathematical value of a document.
pub enum DocView {
    Nil,
    Text(Seq<u8>),
    Verbatim(Seq<u8>),
    Space,
    Line,
    SoftLine,
    Hardline,
    Append(Box<DocView>, Box<DocView>),
    Nest(isize, Box<DocView>),
    Group(Box<DocView>),
}

impl View for Doc {
    type V = DocView;

    open spec fn view(&self) -> DocView
        decreases self,
    {
        match self {
            Doc::Nil => DocView::Nil,
            Doc::Text(t) => DocView::Text(t@),
            Doc::Verbatim(t) => DocView::Verbatim(t@),
            Doc::Space => DocView::Space,
            Doc::Line => DocView::Line,
            Doc::SoftLine => DocView::SoftLine,
            Doc::Hardline => DocView::Hardline,
            Doc::Append(a, b) => DocView::Append(Box::new((**a).view()), Box::new((**b).view())),
            Doc::Nest(k, a) => DocView::Nest(*k, Box::new((**a).view())),
            Doc::Group(a) => DocView::Group(Box::new((**a).view())),
        }
    }
}

/// The tokens of a document, in order; everything else in it is whitespace.
pub open spec fn tokens(d: DocView) -> Seq<Seq<u8>>
    decreases d,
{
    match d {
        DocView::Text(t) => seq![t],
        DocView::Verbatim(t) => seq![t],
        DocView::Append(a, b) => tokens(*a) + tokens(*b),
        DocView::Nest(_, a) => tokens(*a),
        DocView::Group(a) => tokens(*a),
        _ => Seq::empty(),
    }
}

/// Every `Text` token is free of line feeds, as the renderer requires.
pub open spec fn doc_wf(d: DocView) -> bool
    decreases d,
{
    match d {
        DocView::Text(t) => !t.contains(10u8),
        DocView::Append(a, b) => doc_wf(*a) && doc_wf(*b),
        DocView::Nest(_, a) => doc_wf(*a),
        DocView::Group(a) => doc_wf(*a),
        _ => true,
    }
}

pub open spec fn cat(a: DocView, b: DocView) -> DocView {
    DocView::Append(Box::new(a), Box::new(b))
}

pub open spec fn nested(a: DocView, offset: isize) -> DocView {
    DocView::Nest(offset, Box::new(a))
}

pub open spec fn grouped(a: DocView) -> DocView {
    DocView::Group(Box::new(a))
}

impl Doc {
    /// `self` followed by `next`.
    pub fn append(self, next: Doc) -> (d: Doc)
        ensures
            d@ == cat(self@, next@),
    {
        Doc::Append(Box::new(self), Box::new(next))
    }

    /// `self` with every line break inside it indented by `offset` more.
    pub fn nest(self, offset: isize) -> (d: Doc)
        ensures
            d@ == nested(self@, offset),
    {
        Doc::Nest(offset, Box::new(self))
    }

    /// `self` laid out on one line where it fits.
    pub fn group(self) -> (d: Doc)
        ensures
            d@ == grouped(self@),
    {
        Doc::Group(Box::new(self))
    }
}

}
