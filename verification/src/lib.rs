//! Syntax-preserving Monkey C formatting, independent of any editor or SDK.
//!
//! Only whitespace between syntax tokens is changed. Comments, literal contents,
//! parentheses, and punctuation are retained. The result is reparsed and compared
//! with the input tree before it is returned to a caller.
pub mod check;
pub mod cli;
pub mod doc;
pub mod laws;
pub mod layout;
pub mod options;
pub mod printer;
pub mod render;
pub mod syntax;
pub mod ts;

pub use crate::options::{FormatError, Options};
use vstd::prelude::*;
use crate::check::{
    equivalent, equivalent_trees, equivalent_trees_share_leaves, leaves, validate, validation,
    validation_reports_syntax_or_nesting,
};
use crate::laws::layout_keeps_tokens;
use crate::layout::shaped;
use crate::options::{check_options, options_check};
use crate::printer::{is_shaped, layout};
use crate::printer::document;
use crate::render::{
    drop_gaps, pieces_write_the_tokens, pretty_pieces, render, rendering, spaced_out, spaced_without_gaps,
    texts, token_words,
};
use crate::syntax::{atoms, is_wf, wf, SyntaxNode};
use crate::ts::{decodable, monkeyc_parse, parse_monkeyc, read_tree, reads_as, tree_node_at, ParseFailure};

verus! {

/// `t` is the syntax tree read from Tree-sitter's parse of `text`.
pub open spec fn parsed_as(text: Seq<u8>, t: SyntaxNode) -> bool {
    monkeyc_parse(text) matches Ok(s) && reads_as(s, 0, 0, t)
}

/// Tree-sitter's parse of `out` has no error or missing node, and its tree
/// is well-formed and equivalent to `before` over `src`.
pub open spec fn reparses_to(before: SyntaxNode, src: Seq<u8>, out: Seq<u8>) -> bool {
    &&& monkeyc_parse(out) matches Ok(s) && s.len() > 0 && !s[0].has_error
    &&& exists|after: SyntaxNode|
        #[trigger] parsed_as(out, after) && wf(after, out.len()) && equivalent(before, after, src, out)
}

/// Tree-sitter's parse of `out` fails, holds an error or missing node, or
/// its tree is not well-formed or not equivalent to `before` over `src`.
pub open spec fn reparse_fails(before: SyntaxNode, src: Seq<u8>, out: Seq<u8>) -> bool {
    ||| monkeyc_parse(out) is Err
    ||| (monkeyc_parse(out) matches Ok(s) && (!decodable(s, 0, 0) || s[0].has_error))
    ||| exists|after: SyntaxNode|
        #[trigger] parsed_as(out, after) && !(wf(after, out.len()) && equivalent(before, after, src, out))
}

/// `out` is the formatting of `source` with `options`: the tree of the
/// source is well-formed and free of syntax errors and too deep nesting;
/// where it is empty, so is the output; otherwise the output is `pretty`'s
/// rendering of the tree's layout document at the line width (the
/// document's texts with nothing but blanks and line feeds around them), and
/// its own tree has no error and is equivalent to the source's.
pub open spec fn formats_to(source: Seq<char>, options: Options, out: Seq<char>) -> bool {
    let src = vstd::utf8::encode_utf8(source);
    exists|t: SyntaxNode|
        #[trigger] parsed_as(src, t) && wf(t, src.len()) && validation(t) is Ok && if t.children@.len() == 0 {
            out.len() == 0
        } else {
            &&& shaped(t)
            &&& out == rendering(document(src, options.indent_width as isize, t), options.line_width)
            &&& spaced_out(out, texts(pretty_pieces(document(src, options.indent_width as isize, t))))
            &&& reparses_to(t, src, vstd::utf8::encode_utf8(out))
        }
}

/// The formatter cannot vouch for its result on `source`: Tree-sitter's
/// parse of it fails or does not fit together, its tree is not well-formed,
/// or it is valid and non-empty but not of the shape the layout rules rely
/// on, or the rendered output does not reparse to an equivalent tree.
pub open spec fn format_refused(source: Seq<char>, options: Options) -> bool {
    let src = vstd::utf8::encode_utf8(source);
    ||| monkeyc_parse(src) is Err
    ||| (monkeyc_parse(src) matches Ok(s) && !decodable(s, 0, 0))
    ||| exists|t: SyntaxNode| #[trigger] parsed_as(src, t) && (!wf(t, src.len()) || {
        &&& validation(t) is Ok
        &&& t.children@.len() > 0
        &&& (!shaped(t) || reparse_fails(
            t,
            src,
            vstd::utf8::encode_utf8(rendering(document(src, options.indent_width as isize, t), options.line_width)),
        ))
    })
}

/// Format UTF-8 Monkey C source using the pinned Tree-sitter grammar.
///
/// Indentation must be 1–16 spaces and the line width at least 20 columns.
/// Output uses LF between tokens; line endings inside literals/comments are
/// untouched. Empty or whitespace-only input becomes empty output. Nonempty
/// output has one final newline. Syntax nested deeper than 256 levels is
/// rejected before any document is built; lists of siblings and the lines of
/// a multi-line token are joined by halves, so the documents are only as
/// deep as the syntax times the logarithm of the longest list.
///
/// Each outcome comes with its reason over the tree read from Tree-sitter's
/// parse of the source; the parse reads as one tree only, node for node
/// (`ts::reads_as_unique`).
pub fn format(source: &str, options: &Options) -> (r: Result<String, FormatError>)
    ensures
        options_check(*options) matches Err(e) ==> r == Err::<String, FormatError>(e),
        r matches Err(FormatError::InvalidOptions(_)) ==> options_check(*options) is Err,
        r matches Err(e) ==> ((e is Syntax || e is Nesting) ==> exists|t: SyntaxNode|
            #[trigger] parsed_as(vstd::utf8::encode_utf8(source@), t)
                && wf(t, vstd::utf8::encode_utf8(source@).len())
                && validation(t) == Err::<(), FormatError>(e)),
        r matches Err(FormatError::Internal(_)) ==> options_check(*options) is Ok && format_refused(source@, *options),
        r matches Ok(out) ==> options_check(*options) is Ok && formats_to(source@, *options, out@),
{
    match check_options(options) {
        Err(e) => return Err(e),
        Ok(()) => {},
    }
    let src = source.as_bytes();
    let ghost srcv = vstd::utf8::encode_utf8(source@);
    assert(src@ == srcv);
    let tree = match parse_monkeyc(src) {
        Ok(tree) => tree,
        Err(ParseFailure::Grammar) => return Err(FormatError::Internal("unable to load Monkey C grammar")),
        Err(ParseFailure::Parse) => return Err(FormatError::Internal("unable to parse source")),
    };
    let before = match read_tree(&tree) {
        Some(node) => node,
        None => return Err(FormatError::Internal("unable to read the syntax tree")),
    };
    assert(parsed_as(srcv, before));
    if !is_wf(&before, src.len()) {
        return Err(FormatError::Internal("unable to read the syntax tree"));
    }
    proof {
        crate::check::lemma_wf_reportable(before, src@.len());
    }
    match validate(&before) {
        Err(e) => {
            proof {
                validation_reports_syntax_or_nesting(before);
            }
            return Err(e);
        },
        Ok(()) => {},
    }
    if before.children.len() == 0 {
        let empty = String::new();
        assert(empty@.len() == 0) by {
            assert(empty@ =~= Seq::<char>::empty());
        }
        assert(formats_to(source@, *options, empty@));
        return Ok(empty);
    }
    if !is_shaped(&before) {
        return Err(FormatError::Internal("unexpected syntax tree shape"));
    }
    let document = layout(src, &before, options.indent_width as isize);
    proof {
        layout_keeps_tokens(src@, options.indent_width as isize, before);
    }
    let output = match render(&document, options.line_width) {
        Some(text) => text,
        None => return Err(FormatError::Internal("unable to render formatted source")),
    };
    let out = output.as_str().as_bytes();
    let ghost outv = vstd::utf8::encode_utf8(output@);
    assert(out@ == outv);
    let formatted = match parse_monkeyc(out) {
        Ok(tree) => tree,
        Err(_) => return Err(FormatError::Internal("unable to parse formatted source")),
    };
    let after = match read_tree(&formatted) {
        Some(node) => node,
        None => return Err(FormatError::Internal("unable to read the formatted syntax tree")),
    };
    assert(parsed_as(outv, after));
    if !is_wf(&after, out.len()) {
        return Err(FormatError::Internal("unable to read the formatted syntax tree"));
    }
    if tree_node_at(&formatted, 0).has_error || !equivalent_trees(&before, &after, src, out) {
        return Err(
            FormatError::Internal(
                "formatting would change the syntax tree; refusing to return unsafe output",
            ),
        );
    }
    assert(reparses_to(before, srcv, outv));
    assert(formats_to(source@, *options, output@));
    Ok(output)
}

/// Formatting changes only the whitespace between tokens: where `out` is
/// the non-empty formatting of `source`, the trees Tree-sitter reads from
/// the two have the same leaves, byte for byte and in order.
pub proof fn formatting_keeps_every_token(source: Seq<char>, options: Options, out: Seq<char>)
    requires
        formats_to(source, options, out),
        out.len() > 0,
    ensures
        exists|t: SyntaxNode, u: SyntaxNode|
            #[trigger] parsed_as(vstd::utf8::encode_utf8(source), t) && #[trigger] parsed_as(vstd::utf8::encode_utf8(out), u)
                && leaves(vstd::utf8::encode_utf8(source), t) == leaves(vstd::utf8::encode_utf8(out), u),
{
    let src = vstd::utf8::encode_utf8(source);
    let o = vstd::utf8::encode_utf8(out);
    let t = choose|t: SyntaxNode|
        #[trigger] parsed_as(src, t) && wf(t, src.len()) && validation(t) is Ok && if t.children@.len() == 0 {
            out.len() == 0
        } else {
            &&& shaped(t)
            &&& out == rendering(document(src, options.indent_width as isize, t), options.line_width)
            &&& spaced_out(out, texts(pretty_pieces(document(src, options.indent_width as isize, t))))
            &&& reparses_to(t, src, o)
        };
    let u = choose|u: SyntaxNode| #[trigger] parsed_as(o, u) && wf(u, o.len()) && equivalent(t, u, src, o);
    equivalent_trees_share_leaves(t, u, src, o);
}

/// Only whitespace between tokens is changed: where `out` is the non-empty
/// formatting of `source`, it is the atoms of the source's tree (its leaves
/// and literal nodes), in order, line by line and read as UTF-8, with
/// nothing but blanks and line feeds before, between and after them.
pub proof fn formatting_only_spaces_the_tokens(source: Seq<char>, options: Options, out: Seq<char>)
    requires
        formats_to(source, options, out),
        out.len() > 0,
    ensures
        exists|t: SyntaxNode|
            #[trigger] parsed_as(vstd::utf8::encode_utf8(source), t) && spaced_out(
                out,
                drop_gaps(token_words(atoms(vstd::utf8::encode_utf8(source), t))),
            ),
{
    let src = vstd::utf8::encode_utf8(source);
    let ind = options.indent_width as isize;
    let t = choose|t: SyntaxNode|
        #[trigger] parsed_as(src, t) && wf(t, src.len()) && validation(t) is Ok && if t.children@.len() == 0 {
            out.len() == 0
        } else {
            &&& shaped(t)
            &&& out == rendering(document(src, ind, t), options.line_width)
            &&& spaced_out(out, texts(pretty_pieces(document(src, ind, t))))
            &&& reparses_to(t, src, vstd::utf8::encode_utf8(out))
        };
    layout_keeps_tokens(src, ind, t);
    pieces_write_the_tokens(document(src, ind, t));
    spaced_without_gaps(out, texts(pretty_pieces(document(src, ind, t))));
}

}
