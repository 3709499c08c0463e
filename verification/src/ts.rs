//! Parsing with the Tree-sitter Monkey C grammar, and reading its trees
//! into `SyntaxNode`s.
use vstd::prelude::*;
use tree_sitter::{Parser, Tree};
use crate::check::same_bytes;
use crate::syntax::{Kind, SyntaxNode};

verus! {

#[verifier::external_type_specification]
#[verifier::external_body]
pub struct ExTree(Tree);

/// Why no tree came back: the grammar could not be loaded into a parser,
/// or the parser returned none.
#[derive(Clone, Copy, Debug, PartialEq, Eq, Structural)]
pub enum ParseFailure {
    Grammar,
    Parse,
}

/// One node of a Tree-sitter tree, as plain values: its kind name (UTF-8
/// bytes) and kind id, whether it is named, the field it fills in its parent
/// (0 for none), whether it is an error or missing node, whether it or any
/// node below it is one, its byte range, its zero-based start row and
/// column, its number of children, and its number of nodes counting itself.
pub struct NodeInfo {
    pub kind: Seq<u8>,
    pub kind_id: u16,
    pub named: bool,
    pub field_id: u16,
    pub error: bool,
    pub missing: bool,
    pub has_error: bool,
    pub start: usize,
    pub end: usize,
    pub row: usize,
    pub column: usize,
    pub child_count: u32,
    pub size: usize,
}

/// A node of a Tree-sitter tree, read out of it.
pub struct NodeFacts {
    pub kind: Vec<u8>,
    pub kind_id: u16,
    pub named: bool,
    pub field_id: u16,
    pub error: bool,
    pub missing: bool,
    pub has_error: bool,
    pub start: usize,
    pub end: usize,
    pub row: usize,
    pub column: usize,
    pub child_count: u32,
    pub size: usize,
}

impl View for NodeFacts {
    type V = NodeInfo;

    open spec fn view(&self) -> NodeInfo {
        NodeInfo {
            kind: self.kind@,
            kind_id: self.kind_id,
            named: self.named,
            field_id: self.field_id,
            error: self.error,
            missing: self.missing,
            has_error: self.has_error,
            start: self.start,
            end: self.end,
            row: self.row,
            column: self.column,
            child_count: self.child_count,
            size: self.size,
        }
    }
}

/// The nodes of a Tree-sitter tree, in the order of its descendant indices
/// (preorder, the root first).
pub uninterp spec fn tree_nodes(tree: Tree) -> Seq<NodeInfo>;

/// What a new Tree-sitter parser, given the Monkey C grammar, makes of
/// `text`: the nodes of the tree it returns, or why it returned none.
pub uninterp spec fn monkeyc_parse(text: Seq<u8>) -> Result<Seq<NodeInfo>, ParseFailure>;

/// `tree_sitter::Parser::new`, `Parser::set_language` with the Monkey C
/// grammar (`tree_sitter_monkeyc::LANGUAGE`, converted by `Language::from`),
/// then `Parser::parse` of the bytes with no earlier tree. The grammar's
/// error and a missing tree become `ParseFailure`s.
#[verifier::external_body]
pub(crate) fn parse_monkeyc(text: &[u8]) -> (r: Result<Tree, ParseFailure>)
    ensures
        r matches Ok(t) ==> (monkeyc_parse(text@) matches Ok(nodes) && nodes == tree_nodes(t)),
        r matches Err(e) ==> (monkeyc_parse(text@) matches Err(f) && f == e),
{
    let mut parser = Parser::new();
    if parser.set_language(&tree_sitter_monkeyc::LANGUAGE.into()).is_err() {
        return Err(ParseFailure::Grammar);
    }
    match parser.parse(text, None) {
        Some(tree) => Ok(tree),
        None => Err(ParseFailure::Parse),
    }
}

/// `tree_sitter::Node::descendant_count` of `Tree::root_node`: the number
/// of nodes of the tree.
#[verifier::external_body]
pub(crate) fn tree_node_count(tree: &Tree) -> (r: usize)
    ensures
        r == tree_nodes(*tree).len(),
{
    tree.root_node().descendant_count()
}

/// The node with descendant index `index`: `Tree::walk`, then
/// `TreeCursor::goto_descendant`, then the cursor's `node` and `field_id`
/// (0 for none) and that node's `kind`, `kind_id`, `is_named`, `is_error`,
/// `is_missing`, `has_error`, `start_byte`, `end_byte`, `start_position`,
/// `child_count` and `descendant_count`.
#[verifier::external_body]
pub(crate) fn tree_node_at(tree: &Tree, index: usize) -> (r: NodeFacts)
    requires
        index < tree_nodes(*tree).len(),
    ensures
        r@ == tree_nodes(*tree)[index as int],
{
    let mut cursor = tree.walk();
    cursor.goto_descendant(index);
    let (node, field_id) = (cursor.node(), cursor.field_id().map_or(0, u16::from));
    let point = node.start_position();
    NodeFacts {
        kind: node.kind().as_bytes().to_vec(), kind_id: node.kind_id(), named: node.is_named(),
        field_id, error: node.is_error(), missing: node.is_missing(), has_error: node.has_error(),
        start: node.start_byte(), end: node.end_byte(), row: point.row, column: point.column,
        child_count: node.child_count(), size: node.descendant_count(),
    }
}

fn kind_is(kind: &[u8], name: &str) -> (r: bool)
    ensures
        r == (kind@ == vstd::utf8::encode_utf8(name@)),
{
    same_bytes(kind, name.as_bytes())
}

/// The kind that the formatting rules know a node by, from the UTF-8 bytes
/// of its kind name.
pub open spec fn kind_named(k: Seq<u8>) -> Kind {
    if k == vstd::utf8::encode_utf8("source_file"@) {
        Kind::SourceFile
    } else if k == vstd::utf8::encode_utf8("block"@) {
        Kind::Block
    } else if k == vstd::utf8::encode_utf8("class_body"@) {
        Kind::ClassBody
    } else if k == vstd::utf8::encode_utf8("module_body"@) {
        Kind::ModuleBody
    } else if k == vstd::utf8::encode_utf8("switch_body"@) {
        Kind::SwitchBody
    } else if k == vstd::utf8::encode_utf8("enum_body"@) {
        Kind::EnumBody
    } else if k == vstd::utf8::encode_utf8("interface_type"@) {
        Kind::InterfaceType
    } else if k == vstd::utf8::encode_utf8("switch_case"@) {
        Kind::SwitchCase
    } else if k == vstd::utf8::encode_utf8("switch_default"@) {
        Kind::SwitchDefault
    } else if k == vstd::utf8::encode_utf8("parameters"@) {
        Kind::Parameters
    } else if k == vstd::utf8::encode_utf8("arguments"@) {
        Kind::Arguments
    } else if k == vstd::utf8::encode_utf8("parenthesized_expression"@) {
        Kind::ParenthesizedExpression
    } else if k == vstd::utf8::encode_utf8("tuple_type"@) {
        Kind::TupleType
    } else if k == vstd::utf8::encode_utf8("array_expression"@) {
        Kind::ArrayExpression
    } else if k == vstd::utf8::encode_utf8("byte_array_expression"@) {
        Kind::ByteArrayExpression
    } else if k == vstd::utf8::encode_utf8("annotation_arguments"@) {
        Kind::AnnotationArguments
    } else if k == vstd::utf8::encode_utf8("annotation_array"@) {
        Kind::AnnotationArray
    } else if k == vstd::utf8::encode_utf8("annotations"@) {
        Kind::Annotations
    } else if k == vstd::utf8::encode_utf8("dictionary_expression"@) {
        Kind::DictionaryExpression
    } else if k == vstd::utf8::encode_utf8("dictionary_type"@) {
        Kind::DictionaryType
    } else if k == vstd::utf8::encode_utf8("generic_type"@) {
        Kind::GenericType
    } else if k == vstd::utf8::encode_utf8("method_type"@) {
        Kind::MethodType
    } else if k == vstd::utf8::encode_utf8("for_statement"@) {
        Kind::ForStatement
    } else if k == vstd::utf8::encode_utf8("catch_clause"@) {
        Kind::CatchClause
    } else if k == vstd::utf8::encode_utf8("binary_expression"@) {
        Kind::BinaryExpression
    } else if k == vstd::utf8::encode_utf8("union_type"@) {
        Kind::UnionType
    } else if k == vstd::utf8::encode_utf8("conditional_expression"@) {
        Kind::ConditionalExpression
    } else if k == vstd::utf8::encode_utf8("variable_declaration"@) {
        Kind::VariableDeclaration
    } else if k == vstd::utf8::encode_utf8("local_variable_declaration"@) {
        Kind::LocalVariableDeclaration
    } else if k == vstd::utf8::encode_utf8("for_variable_declaration"@) {
        Kind::ForVariableDeclaration
    } else if k == vstd::utf8::encode_utf8("expression_list"@) {
        Kind::ExpressionList
    } else if k == vstd::utf8::encode_utf8("symbol"@) {
        Kind::Symbol
    } else if k == vstd::utf8::encode_utf8("annotation"@) {
        Kind::Annotation
    } else if k == vstd::utf8::encode_utf8("nullable_type"@) {
        Kind::NullableType
    } else if k == vstd::utf8::encode_utf8("right_shift_operator"@) {
        Kind::RightShiftOperator
    } else if k == vstd::utf8::encode_utf8("update_expression"@) {
        Kind::UpdateExpression
    } else if k == vstd::utf8::encode_utf8("signed_number"@) {
        Kind::SignedNumber
    } else if k == vstd::utf8::encode_utf8("unary_expression"@) {
        Kind::UnaryExpression
    } else if k == vstd::utf8::encode_utf8("string"@) {
        Kind::StringLiteral
    } else if k == vstd::utf8::encode_utf8("character"@) {
        Kind::CharacterLiteral
    } else if k == vstd::utf8::encode_utf8("identifier"@) {
        Kind::Identifier
    } else if k == vstd::utf8::encode_utf8("number"@) {
        Kind::NumberLiteral
    } else if k == vstd::utf8::encode_utf8("comment"@) {
        Kind::Comment
    } else if k == vstd::utf8::encode_utf8("boolean"@) {
        Kind::BooleanLiteral
    } else if k == vstd::utf8::encode_utf8("null"@) {
        Kind::NullLiteral
    } else if k == vstd::utf8::encode_utf8("self"@) {
        Kind::SelfKeyword
    } else if k == vstd::utf8::encode_utf8("global"@) {
        Kind::GlobalKeyword
    } else if k == vstd::utf8::encode_utf8("modifier"@) {
        Kind::Modifier
    } else if k == vstd::utf8::encode_utf8("{"@) {
        Kind::OpenBrace
    } else if k == vstd::utf8::encode_utf8("("@) {
        Kind::OpenParen
    } else if k == vstd::utf8::encode_utf8(")"@) {
        Kind::CloseParen
    } else if k == vstd::utf8::encode_utf8("["@) {
        Kind::OpenBracket
    } else if k == vstd::utf8::encode_utf8("]"@) {
        Kind::CloseBracket
    } else if k == vstd::utf8::encode_utf8("]b"@) {
        Kind::CloseByteBracket
    } else if k == vstd::utf8::encode_utf8(","@) {
        Kind::Comma
    } else if k == vstd::utf8::encode_utf8(";"@) {
        Kind::Semicolon
    } else if k == vstd::utf8::encode_utf8("."@) {
        Kind::Dot
    } else if k == vstd::utf8::encode_utf8(":"@) {
        Kind::Colon
    } else if k == vstd::utf8::encode_utf8("<"@) {
        Kind::OpenAngle
    } else if k == vstd::utf8::encode_utf8("?"@) {
        Kind::Question
    } else if k == vstd::utf8::encode_utf8("if"@) {
        Kind::If
    } else if k == vstd::utf8::encode_utf8("while"@) {
        Kind::While
    } else if k == vstd::utf8::encode_utf8("for"@) {
        Kind::For
    } else if k == vstd::utf8::encode_utf8("switch"@) {
        Kind::Switch
    } else if k == vstd::utf8::encode_utf8("catch"@) {
        Kind::Catch
    } else if k == vstd::utf8::encode_utf8("new"@) {
        Kind::New
    } else {
        Kind::Other
    }
}

/// The kind that the formatting rules know a node by, from the UTF-8 bytes
/// of its kind name.
fn classify(k: &[u8]) -> (r: Kind)
    ensures
        r == kind_named(k@),
{
    if kind_is(k, "source_file") { Kind::SourceFile }
    else if kind_is(k, "block") { Kind::Block }
    else if kind_is(k, "class_body") { Kind::ClassBody }
    else if kind_is(k, "module_body") { Kind::ModuleBody }
    else if kind_is(k, "switch_body") { Kind::SwitchBody }
    else if kind_is(k, "enum_body") { Kind::EnumBody }
    else if kind_is(k, "interface_type") { Kind::InterfaceType }
    else if kind_is(k, "switch_case") { Kind::SwitchCase }
    else if kind_is(k, "switch_default") { Kind::SwitchDefault }
    else if kind_is(k, "parameters") { Kind::Parameters }
    else if kind_is(k, "arguments") { Kind::Arguments }
    else if kind_is(k, "parenthesized_expression") { Kind::ParenthesizedExpression }
    else if kind_is(k, "tuple_type") { Kind::TupleType }
    else if kind_is(k, "array_expression") { Kind::ArrayExpression }
    else if kind_is(k, "byte_array_expression") { Kind::ByteArrayExpression }
    else if kind_is(k, "annotation_arguments") { Kind::AnnotationArguments }
    else if kind_is(k, "annotation_array") { Kind::AnnotationArray }
    else if kind_is(k, "annotations") { Kind::Annotations }
    else if kind_is(k, "dictionary_expression") { Kind::DictionaryExpression }
    else if kind_is(k, "dictionary_type") { Kind::DictionaryType }
    else if kind_is(k, "generic_type") { Kind::GenericType }
    else if kind_is(k, "method_type") { Kind::MethodType }
    else if kind_is(k, "for_statement") { Kind::ForStatement }
    else if kind_is(k, "catch_clause") { Kind::CatchClause }
    else if kind_is(k, "binary_expression") { Kind::BinaryExpression }
    else if kind_is(k, "union_type") { Kind::UnionType }
    else if kind_is(k, "conditional_expression") { Kind::ConditionalExpression }
    else if kind_is(k, "variable_declaration") { Kind::VariableDeclaration }
    else if kind_is(k, "local_variable_declaration") { Kind::LocalVariableDeclaration }
    else if kind_is(k, "for_variable_declaration") { Kind::ForVariableDeclaration }
    else if kind_is(k, "expression_list") { Kind::ExpressionList }
    else if kind_is(k, "symbol") { Kind::Symbol }
    else if kind_is(k, "annotation") { Kind::Annotation }
    else if kind_is(k, "nullable_type") { Kind::NullableType }
    else if kind_is(k, "right_shift_operator") { Kind::RightShiftOperator }
    else if kind_is(k, "update_expression") { Kind::UpdateExpression }
    else if kind_is(k, "signed_number") { Kind::SignedNumber }
    else if kind_is(k, "unary_expression") { Kind::UnaryExpression }
    else if kind_is(k, "string") { Kind::StringLiteral }
    else if kind_is(k, "character") { Kind::CharacterLiteral }
    else if kind_is(k, "identifier") { Kind::Identifier }
    else if kind_is(k, "number") { Kind::NumberLiteral }
    else if kind_is(k, "comment") { Kind::Comment }
    else if kind_is(k, "boolean") { Kind::BooleanLiteral }
    else if kind_is(k, "null") { Kind::NullLiteral }
    else if kind_is(k, "self") { Kind::SelfKeyword }
    else if kind_is(k, "global") { Kind::GlobalKeyword }
    else if kind_is(k, "modifier") { Kind::Modifier }
    else if kind_is(k, "{") { Kind::OpenBrace }
    else if kind_is(k, "(") { Kind::OpenParen }
    else if kind_is(k, ")") { Kind::CloseParen }
    else if kind_is(k, "[") { Kind::OpenBracket }
    else if kind_is(k, "]") { Kind::CloseBracket }
    else if kind_is(k, "]b") { Kind::CloseByteBracket }
    else if kind_is(k, ",") { Kind::Comma }
    else if kind_is(k, ";") { Kind::Semicolon }
    else if kind_is(k, ".") { Kind::Dot }
    else if kind_is(k, ":") { Kind::Colon }
    else if kind_is(k, "<") { Kind::OpenAngle }
    else if kind_is(k, "?") { Kind::Question }
    else if kind_is(k, "if") { Kind::If }
    else if kind_is(k, "while") { Kind::While }
    else if kind_is(k, "for") { Kind::For }
    else if kind_is(k, "switch") { Kind::Switch }
    else if kind_is(k, "catch") { Kind::Catch }
    else if kind_is(k, "new") { Kind::New }
    else { Kind::Other }
}

/// How deep the reader descends, counting the root as depth 0. A tree
/// deeper than `check::MAX_DEPTH` is rejected by validation at its first node
/// below that depth, so the nodes under depth `READ_DEPTH` are never looked at.
pub const READ_DEPTH: usize = 257;

/// The descendant index of child `j` of the node at index `i`: the children
/// follow their parent, each after all the nodes of the one before it.
pub open spec fn child_index(s: Seq<NodeInfo>, i: int, j: nat) -> int
    decreases j,
{
    if j == 0 {
        i + 1
    } else {
        let p = child_index(s, i, (j - 1) as nat);
        p + s[p].size
    }
}

/// The node at index `i`, at `depth`, and every child of the nodes down to
/// depth `READ_DEPTH`, lie inside `s`.
pub open spec fn decodable(s: Seq<NodeInfo>, i: int, depth: nat) -> bool
    decreases READ_DEPTH - depth,
{
    &&& 0 <= i < s.len()
    &&& (depth < READ_DEPTH ==> forall|j: nat|
        j < s[i].child_count ==> decodable(s, #[trigger] child_index(s, i, j), depth + 1))
}

/// `n` holds the plain values of node `f`.
pub open spec fn node_is(f: NodeInfo, n: SyntaxNode) -> bool {
    &&& n.kind == kind_named(f.kind)
    &&& n.kind_id == f.kind_id
    &&& n.named == f.named
    &&& n.field_id == f.field_id
    &&& n.error == f.error
    &&& n.missing == f.missing
    &&& n.start == f.start
    &&& n.end == f.end
    &&& n.row == f.row
    &&& n.column == f.column
}

/// `n` is the node at index `i` of `s`, at `depth`, with its children read
/// down to depth `READ_DEPTH` (a node at that depth is read without them).
/// Only one tree, node for node, reads as a given index.
pub open spec fn reads_as(s: Seq<NodeInfo>, i: int, depth: nat, n: SyntaxNode) -> bool
    decreases READ_DEPTH - depth,
{
    &&& 0 <= i < s.len()
    &&& node_is(s[i], n)
    &&& if depth < READ_DEPTH {
        &&& n.children@.len() == s[i].child_count
        &&& forall|j: int|
            0 <= j < n.children@.len() ==> reads_as(s, child_index(s, i, j as nat), depth + 1, #[trigger] n.children@[j])
    } else {
        n.children@.len() == 0
    }
}

/// Two trees are the same node for node: equal plain values, and children
/// that are the same in order.
pub open spec fn same_tree(a: SyntaxNode, b: SyntaxNode) -> bool
    decreases a,
{
    &&& a.kind == b.kind
    &&& a.kind_id == b.kind_id
    &&& a.named == b.named
    &&& a.field_id == b.field_id
    &&& a.error == b.error
    &&& a.missing == b.missing
    &&& a.start == b.start
    &&& a.end == b.end
    &&& a.row == b.row
    &&& a.column == b.column
    &&& same_trees(a.children@, b.children@)
}

/// Two sequences of trees are the same tree by tree.
pub open spec fn same_trees(x: Seq<SyntaxNode>, y: Seq<SyntaxNode>) -> bool
    decreases x,
{
    &&& x.len() == y.len()
    &&& (x.len() == 0 || (same_trees(x.drop_last(), y.drop_last()) && same_tree(x.last(), y.last())))
}

proof fn lemma_same_trees(x: Seq<SyntaxNode>, y: Seq<SyntaxNode>)
    requires
        x.len() == y.len(),
        forall|j: int| 0 <= j < x.len() ==> same_tree(#[trigger] x[j], y[j]),
    ensures
        same_trees(x, y),
    decreases x.len(),
{
    if x.len() > 0 {
        let (xs, ys) = (x.drop_last(), y.drop_last());
        assert forall|j: int| 0 <= j < xs.len() implies same_tree(#[trigger] xs[j], ys[j]) by {
            assert(xs[j] == x[j] && ys[j] == y[j]);
        }
        lemma_same_trees(xs, ys);
    }
}

/// A parse reads as one tree only, node for node: any two trees that read
/// as the same index at the same depth are the same tree.
pub proof fn reads_as_unique(s: Seq<NodeInfo>, i: int, depth: nat, a: SyntaxNode, b: SyntaxNode)
    requires
        reads_as(s, i, depth, a),
        reads_as(s, i, depth, b),
    ensures
        same_tree(a, b),
    decreases READ_DEPTH - depth,
{
    if depth < READ_DEPTH {
        assert forall|j: int| 0 <= j < a.children@.len() implies same_tree(#[trigger] a.children@[j], b.children@[j]) by {
            reads_as_unique(s, child_index(s, i, j as nat), depth + 1, a.children@[j], b.children@[j]);
        }
    }
    lemma_same_trees(a.children@, b.children@);
}

/// A tree that reads as an index shows that the nodes below it fit together.
pub proof fn reads_as_decodable(s: Seq<NodeInfo>, i: int, depth: nat, n: SyntaxNode)
    requires
        reads_as(s, i, depth, n),
    ensures
        decodable(s, i, depth),
    decreases READ_DEPTH - depth,
{
    if depth < READ_DEPTH {
        assert forall|j: nat| j < s[i].child_count implies decodable(s, #[trigger] child_index(s, i, j), depth + 1) by {
            assert(reads_as(s, child_index(s, i, j), depth + 1, n.children@[j as int]));
            reads_as_decodable(s, child_index(s, i, j), depth + 1, n.children@[j as int]);
        }
    }
}

proof fn lemma_undecodable_child(s: Seq<NodeInfo>, i: int, depth: nat, j: nat)
    requires
        depth < READ_DEPTH,
        0 <= i < s.len(),
        j < s[i].child_count,
        !decodable(s, child_index(s, i, j), depth + 1),
    ensures
        !decodable(s, i, depth),
{
}

proof fn lemma_decodable_node(s: Seq<NodeInfo>, i: int, depth: nat)
    requires
        0 <= i < s.len(),
        depth < READ_DEPTH ==> forall|k: nat| k < s[i].child_count ==> decodable(s, #[trigger] child_index(s, i, k), depth + 1),
    ensures
        decodable(s, i, depth),
{
}

proof fn lemma_reads_node(s: Seq<NodeInfo>, i: int, depth: nat, n: SyntaxNode)
    requires
        0 <= i < s.len(),
        node_is(s[i], n),
        depth < READ_DEPTH ==> n.children@.len() == s[i].child_count,
        depth < READ_DEPTH ==> forall|k: int| 0 <= k < n.children@.len() ==> reads_as(s, child_index(s, i, k as nat), depth + 1, #[trigger] n.children@[k]),
        depth >= READ_DEPTH ==> n.children@.len() == 0,
    ensures
        reads_as(s, i, depth, n),
{
}

/// Read the node at index `i`, at `depth`, and the nodes below it down to
/// `READ_DEPTH`, with the node's number of nodes; `None` exactly where some
/// child index falls outside the tree.
#[verifier::rlimit(40)]
fn read_node(tree: &Tree, count: usize, i: usize, depth: usize) -> (r: Option<(SyntaxNode, usize)>)
    requires
        count == tree_nodes(*tree).len(),
        depth <= READ_DEPTH,
    ensures
        r is Some <==> decodable(tree_nodes(*tree), i as int, depth as nat),
        r matches Some((n, size)) ==> reads_as(tree_nodes(*tree), i as int, depth as nat, n)
            && size == tree_nodes(*tree)[i as int].size,
    decreases READ_DEPTH - depth,
{
    let ghost s = tree_nodes(*tree);
    if i >= count {
        return None;
    }
    let facts = tree_node_at(tree, i);
    let mut children: Vec<SyntaxNode> = Vec::new();
    if depth < READ_DEPTH {
        let child_count = facts.child_count;
        let mut idx: usize = i + 1;
        let mut j: u32 = 0;
        while j < child_count
            invariant
                j <= child_count,
                child_count == s[i as int].child_count,
                depth < READ_DEPTH,
                count == s.len(),
                s == tree_nodes(*tree),
                i < count,
                j < child_count ==> idx == child_index(s, i as int, j as nat),
                children@.len() == j,
                forall|k: int| 0 <= k < j ==> reads_as(s, child_index(s, i as int, k as nat), (depth + 1) as nat, #[trigger] children@[k]),
                forall|k: nat| k < j ==> decodable(s, #[trigger] child_index(s, i as int, k), (depth + 1) as nat),
            decreases child_count - j,
        {
            match read_node(tree, count, idx, depth + 1) {
                Some((child, size)) => {
                    let ghost before = children@;
                    children.push(child);
                    assert forall|k: int| 0 <= k < j + 1 implies reads_as(s, child_index(s, i as int, k as nat), (depth + 1) as nat, #[trigger] children@[k]) by {
                        if k < j {
                            assert(children@[k] == before[k]);
                        }
                    }
                    j = j + 1;
                    if j < child_count {
                        assert(child_index(s, i as int, j as nat) == idx + size);
                        match idx.checked_add(size) {
                            Some(next) => idx = next,
                            None => {
                                proof {
                                    lemma_undecodable_child(s, i as int, depth as nat, j as nat);
                                }
                                return None;
                            },
                        }
                    }
                },
                None => {
                    proof {
                        lemma_undecodable_child(s, i as int, depth as nat, j as nat);
                    }
                    return None;
                },
            }
        }
    }
    let node = SyntaxNode {
        kind: classify(facts.kind.as_slice()),
        kind_id: facts.kind_id,
        named: facts.named,
        field_id: facts.field_id,
        error: facts.error,
        missing: facts.missing,
        start: facts.start,
        end: facts.end,
        row: facts.row,
        column: facts.column,
        children,
    };
    proof {
        lemma_decodable_node(s, i as int, depth as nat);
        lemma_reads_node(s, i as int, depth as nat, node);
    }
    Some((node, facts.size))
}

/// The syntax tree of a Tree-sitter tree, read from its root down to depth
/// `READ_DEPTH`; `None` exactly where its nodes do not fit together.
pub(crate) fn read_tree(tree: &Tree) -> (r: Option<SyntaxNode>)
    ensures
        r is Some <==> decodable(tree_nodes(*tree), 0, 0),
        r matches Some(n) ==> reads_as(tree_nodes(*tree), 0, 0, n),
{
    let count = tree_node_count(tree);
    match read_node(tree, count, 0, 0) {
        Some((n, _)) => Some(n),
        None => None,
    }
}

}
