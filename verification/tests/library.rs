use monkeyc_fmt::check::{equivalent_trees, same_bytes, validate};
use monkeyc_fmt::doc::Doc;
use monkeyc_fmt::options::check_options;
use monkeyc_fmt::printer::{has_byte, is_shaped, layout};
use monkeyc_fmt::render::render;
use monkeyc_fmt::syntax::{is_wf, Kind, SyntaxNode};
use monkeyc_fmt::{FormatError, Options};

fn node(kind: Kind, kind_id: u16, start: usize, end: usize, children: Vec<SyntaxNode>) -> SyntaxNode {
    SyntaxNode {
        kind,
        kind_id,
        named: true,
        field_id: 0,
        error: false,
        missing: false,
        start,
        end,
        row: 0,
        column: start,
        children,
    }
}

fn token(kind: Kind, kind_id: u16, start: usize, end: usize) -> SyntaxNode {
    let mut n = node(kind, kind_id, start, end, Vec::new());
    n.named = false;
    n
}

fn tokens(doc: &Doc, out: &mut Vec<Vec<u8>>) {
    match doc {
        Doc::Text(t) | Doc::Verbatim(t) => out.push(t.clone()),
        Doc::Append(a, b) => {
            tokens(a, out);
            tokens(b, out);
        }
        Doc::Nest(_, a) | Doc::Group(a) => tokens(a, out),
        _ => {}
    }
}

fn sum_tree() -> SyntaxNode {
    // "a + b" as a binary expression inside a source file.
    let expr = node(
        Kind::BinaryExpression,
        10,
        0,
        5,
        vec![
            node(Kind::Identifier, 1, 0, 1, Vec::new()),
            token(Kind::Other, 2, 2, 3),
            node(Kind::Identifier, 1, 4, 5, Vec::new()),
        ],
    );
    node(Kind::SourceFile, 20, 0, 5, vec![expr])
}

#[test]
fn default_options_are_the_documented_ones_and_accepted() {
    let options = Options::default();
    assert_eq!(options.line_width, 100);
    assert_eq!(options.indent_width, 4);
    assert!(check_options(&options).is_ok());
}

#[test]
fn option_bounds_give_their_own_messages() {
    let narrow = Options { line_width: 19, indent_width: 4 };
    match check_options(&narrow) {
        Err(FormatError::InvalidOptions(m)) => assert_eq!(m, "line width must be at least 20"),
        other => panic!("unexpected {other:?}"),
    }
    for indent_width in [0, 17] {
        let options = Options { line_width: 20, indent_width };
        match monkeyc_fmt::format("var x = 1;", &options) {
            Err(FormatError::InvalidOptions(m)) => {
                assert_eq!(m, "indent width must be between 1 and 16")
            }
            other => panic!("unexpected {other:?}"),
        }
    }
    assert!(check_options(&Options { line_width: 20, indent_width: 1 }).is_ok());
    assert!(check_options(&Options { line_width: 20, indent_width: 16 }).is_ok());
}

#[test]
fn error_messages_read_as_documented() {
    assert_eq!(
        FormatError::Syntax { line: 12, column: 7 }.message(),
        "syntax error at 12:7; refusing to format"
    );
    assert_eq!(
        FormatError::Nesting { line: 3, column: 105 }.message(),
        "syntax nesting exceeds 256 levels at 3:105"
    );
    assert_eq!(FormatError::Internal("boom").message(), "boom");
    assert_eq!(FormatError::InvalidOptions("bad").message(), "bad");
}

#[test]
fn simple_statement_gets_spaces_and_a_final_newline() {
    let out = monkeyc_fmt::format("var x=1;", &Options::default()).unwrap();
    assert_eq!(out, "var x = 1;\n");
}

#[test]
fn whitespace_only_input_becomes_empty_output() {
    assert_eq!(monkeyc_fmt::format("  \n\t\n", &Options::default()).unwrap(), "");
}

#[test]
fn blank_lines_between_statements_are_kept_once() {
    let out = monkeyc_fmt::format("var a=1;\n\n\n\nvar b=2;", &Options::default()).unwrap();
    assert_eq!(out, "var a = 1;\n\nvar b = 2;\n");
}

#[test]
fn crlf_between_tokens_becomes_lf() {
    let out = monkeyc_fmt::format("var a=1;\r\nvar b=2;\r\n", &Options::default()).unwrap();
    assert_eq!(out, "var a = 1;\nvar b = 2;\n");
}

#[test]
fn a_line_comment_keeps_the_next_statement_on_its_own_line() {
    let out = monkeyc_fmt::format("var a=1;// note\nvar b=2;", &Options::default()).unwrap();
    assert_eq!(out, "var a = 1; // note\nvar b = 2;\n");
}

#[test]
fn indentation_width_is_used_for_bodies() {
    let options = Options { line_width: 100, indent_width: 2 };
    let out = monkeyc_fmt::format("function f(){return 1;}", &options).unwrap();
    assert_eq!(out, "function f() {\n  return 1;\n}\n");
}

#[test]
fn syntax_errors_are_reported_not_formatted() {
    match monkeyc_fmt::format("function broken( {", &Options::default()) {
        Err(FormatError::Syntax { line, column }) => {
            assert!(line >= 1);
            assert!(column >= 1);
        }
        other => panic!("unexpected {other:?}"),
    }
}

#[test]
fn deep_nesting_is_rejected() {
    let depth = 300;
    let source = format!("var x = {}1{};", "(".repeat(depth), ")".repeat(depth));
    match monkeyc_fmt::format(&source, &Options::default()) {
        Err(FormatError::Nesting { line, .. }) => assert_eq!(line, 1),
        other => panic!("unexpected {other:?}"),
    }
}

#[test]
fn layout_keeps_tokens_of_a_small_tree() {
    let source = b"a + b";
    let tree = sum_tree();
    assert!(is_wf(&tree, source.len()));
    assert!(is_shaped(&tree));
    let doc = layout(source, &tree, 4);
    let mut found = Vec::new();
    tokens(&doc, &mut found);
    assert_eq!(found, vec![b"a".to_vec(), b"+".to_vec(), b"b".to_vec()]);
    match doc {
        Doc::Append(_, last) => assert!(matches!(*last, Doc::Hardline)),
        _ => panic!("document must end with a line break"),
    }
}

#[test]
fn multi_line_literals_are_kept_verbatim() {
    let source = b"\"a\nb\"";
    let tree = node(
        Kind::SourceFile,
        20,
        0,
        5,
        vec![node(Kind::StringLiteral, 30, 0, 5, Vec::new())],
    );
    let doc = layout(source, &tree, 4);
    let mut found = Vec::new();
    tokens(&doc, &mut found);
    assert_eq!(found, vec![source.to_vec()]);
}

#[test]
fn validation_reports_the_first_problem_one_based() {
    let mut tree = sum_tree();
    tree.children[0].children[2].error = true;
    tree.children[0].children[2].row = 4;
    tree.children[0].children[2].column = 9;
    match validate(&tree) {
        Err(FormatError::Syntax { line, column }) => {
            assert_eq!((line, column), (5, 10));
        }
        other => panic!("unexpected {other:?}"),
    }
    assert!(validate(&sum_tree()).is_ok());
}

#[test]
fn validation_rejects_a_chain_deeper_than_256() {
    let mut tree = node(Kind::Other, 1, 0, 0, Vec::new());
    for _ in 0..257 {
        tree = node(Kind::Other, 1, 0, 0, vec![tree]);
    }
    match validate(&tree) {
        Err(FormatError::Nesting { line, column }) => assert_eq!((line, column), (1, 1)),
        other => panic!("unexpected {other:?}"),
    }
    let mut shallow = node(Kind::Other, 1, 0, 0, Vec::new());
    for _ in 0..256 {
        shallow = node(Kind::Other, 1, 0, 0, vec![shallow]);
    }
    assert!(validate(&shallow).is_ok());
}

#[test]
fn equivalence_compares_structure_and_leaf_bytes() {
    let tree = sum_tree();
    assert!(equivalent_trees(&tree, &tree, b"a + b", b"a + b"));
    let spaced = node(
        Kind::SourceFile,
        20,
        0,
        7,
        vec![node(
            Kind::BinaryExpression,
            10,
            0,
            7,
            vec![
                node(Kind::Identifier, 1, 0, 1, Vec::new()),
                token(Kind::Other, 2, 3, 4),
                node(Kind::Identifier, 1, 6, 7, Vec::new()),
            ],
        )],
    );
    assert!(equivalent_trees(&tree, &spaced, b"a + b", b"a  +  b"));
    assert!(!equivalent_trees(&tree, &spaced, b"a + b", b"a  -  b"));
    let mut renamed = sum_tree();
    renamed.children[0].kind_id = 11;
    assert!(!equivalent_trees(&tree, &renamed, b"a + b", b"a + b"));
}

#[test]
fn well_formedness_and_shape_are_checked() {
    let tree = sum_tree();
    assert!(is_wf(&tree, 5));
    assert!(!is_wf(&tree, 4));
    let mut overlapping = sum_tree();
    overlapping.children[0].children[1].start = 0;
    assert!(!is_wf(&overlapping, 5));
    let lonely_block = node(
        Kind::SourceFile,
        20,
        0,
        1,
        vec![node(Kind::Block, 40, 0, 1, vec![token(Kind::OpenBrace, 41, 0, 1)])],
    );
    assert!(!is_shaped(&lonely_block));
}

#[test]
fn byte_helpers_compare_exactly() {
    assert!(same_bytes(b"abc", b"abc"));
    assert!(!same_bytes(b"abc", b"abd"));
    assert!(!same_bytes(b"abc", b"ab"));
    assert!(has_byte(b"a\nb", b'\n'));
    assert!(!has_byte(b"ab", b'\n'));
}

#[test]
fn shape_is_not_asked_of_what_lies_inside_a_literal() {
    let odd_string = node(
        Kind::StringLiteral,
        50,
        0,
        1,
        vec![node(Kind::Block, 40, 0, 1, vec![token(Kind::OpenBrace, 41, 0, 1)])],
    );
    assert!(is_shaped(&node(Kind::SourceFile, 20, 0, 1, vec![odd_string])));
}

#[test]
fn rendering_a_small_document_gives_pretty_text() {
    let doc = Doc::Text(b"a".to_vec())
        .append(Doc::Space)
        .append(Doc::Text(b"b".to_vec()))
        .append(Doc::Hardline);
    assert_eq!(render(&doc, 100), Some(String::from("a b\n")));
    let wide = Doc::Text(b"call(".to_vec())
        .append(Doc::SoftLine.append(Doc::Text(b"argument".to_vec())).nest(4))
        .append(Doc::SoftLine)
        .append(Doc::Text(b")".to_vec()))
        .group();
    assert_eq!(render(&wide, 100), Some(String::from("call(argument)")));
    assert_eq!(render(&wide, 10), Some(String::from("call(\n    argument\n)")));
}

#[test]
fn rendering_keeps_a_multi_line_token_at_column_zero() {
    let doc = Doc::Text(b"f".to_vec())
        .append(Doc::Hardline)
        .append(Doc::Verbatim(b"/* a\n   b */".to_vec()))
        .nest(4);
    assert_eq!(render(&doc, 100), Some(String::from("f\n    /* a\n   b */")));
}

#[test]
fn rendering_reads_text_bytes_as_utf8_replacing_invalid_ones() {
    let doc = Doc::Text(vec![0xFF]).append(Doc::Space).append(Doc::Text("é".as_bytes().to_vec()));
    assert_eq!(render(&doc, 100), Some(String::from("\u{FFFD} é")));
}

#[test]
fn a_long_list_of_statements_is_formatted() {
    let source = "var x=1;".repeat(20000);
    let expected = "var x = 1;\n".repeat(20000);
    let options = Options { line_width: 100, indent_width: 4 };
    match monkeyc_fmt::format(&source, &options) {
        Ok(output) => assert!(output == expected, "unexpected output of {} bytes", output.len()),
        Err(error) => panic!("{}", error.message()),
    }
}

#[test]
fn a_long_array_is_broken_one_element_per_line() {
    let source = format!("var a=[{}1];", "1,".repeat(19999));
    let expected = format!("var a = [\n{}    1\n];\n", "    1,\n".repeat(19999));
    let options = Options { line_width: 100, indent_width: 4 };
    match monkeyc_fmt::format(&source, &options) {
        Ok(output) => assert!(output == expected, "unexpected output: {}", &output[..output.len().min(200)]),
        Err(error) => panic!("{}", error.message()),
    }
}
