//! The syntax tree that the formatter reads: one node per Tree-sitter node,
//! holding as plain values everything the formatting logic looks at.
use vstd::prelude::*;

verus! {

/// The node kinds that the formatting rules distinguish. Every other kind
/// is `Other`; the rules treat all of those alike.
#[derive(Clone, Copy, Debug, PartialEq, Eq, Structural)]
pub enum Kind {
    SourceFile,
    Block,
    ClassBody,
    ModuleBody,
    SwitchBody,
    EnumBody,
    InterfaceType,
    SwitchCase,
    SwitchDefault,
    Parameters,
    Arguments,
    ParenthesizedExpression,
    TupleType,
    ArrayExpression,
    ByteArrayExpression,
    AnnotationArguments,
    AnnotationArray,
    Annotations,
    DictionaryExpression,
    DictionaryType,
    GenericType,
    MethodType,
    ForStatement,
    CatchClause,
    BinaryExpression,
    UnionType,
    ConditionalExpression,
    VariableDeclaration,
    LocalVariableDeclaration,
    ForVariableDeclaration,
    ExpressionList,
    Symbol,
    Annotation,
    NullableType,
    RightShiftOperator,
    UpdateExpression,
    SignedNumber,
    UnaryExpression,
    StringLiteral,
    CharacterLiteral,
    Identifier,
    NumberLiteral,
    Comment,
    BooleanLiteral,
    NullLiteral,
    SelfKeyword,
    GlobalKeyword,
    Modifier,
    OpenBrace,
    OpenParen,
    CloseParen,
    OpenBracket,
    CloseBracket,
    CloseByteBracket,
    Comma,
    Semicolon,
    Dot,
    Colon,
    OpenAngle,
    Question,
    If,
    While,
    For,
    Switch,
    Catch,
    New,
    Other,
}

/// One node of a concrete syntax tree over a byte buffer.
/// `field_id` is 0 where the node fills no field of its parent.
#[derive(Debug)]
pub struct SyntaxNode {
    pub kind: Kind,
    pub kind_id: u16,
    pub named: bool,
    pub field_id: u16,
    pub error: bool,
    pub missing: bool,
    pub start: usize,
    pub end: usize,
    pub row: usize,
    pub column: usize,
    pub children: Vec<SyntaxNode>,
}

/// The bytes of `src` that node `n` covers.
pub open spec fn node_text(src: Seq<u8>, n: SyntaxNode) -> Seq<u8> {
    src.subrange(n.start as int, n.end as int)
}

/// A tree whose byte ranges lie inside a buffer of `len` bytes, whose
/// siblings follow one another in order, and whose positions can be
/// reported one-based.
pub open spec fn wf(n: SyntaxNode, len: nat) -> bool
    decreases n,
{
    &&& n.start <= n.end <= len
    &&& n.row < usize::MAX
    &&& n.column < usize::MAX
    &&& wf_list(n.children@, len)
}

/// Every node of the sequence is well-formed, and each ends before the next starts.
pub open spec fn wf_list(s: Seq<SyntaxNode>, len: nat) -> bool
    decreases s,
{
    if s.len() == 0 {
        true
    } else {
        &&& wf_list(s.drop_last(), len)
        &&& wf(s.last(), len)
        &&& (s.len() >= 2 ==> s[s.len() - 2].end <= s.last().start)
    }
}

/// Kinds whose text is printed as one unit, whatever children they have.
pub open spec fn is_literal_kind(k: Kind) -> bool {
    match k {
        Kind::StringLiteral | Kind::CharacterLiteral | Kind::Identifier | Kind::NumberLiteral
        | Kind::Comment | Kind::BooleanLiteral | Kind::NullLiteral | Kind::SelfKeyword
        | Kind::GlobalKeyword | Kind::Modifier => true,
        _ => false,
    }
}

/// A node printed as one token: a leaf, or a literal kind.
pub open spec fn is_atom(n: SyntaxNode) -> bool {
    n.children@.len() == 0 || is_literal_kind(n.kind)
}

/// The texts of the tree's atoms (leaves and literal nodes) in source order.
pub open spec fn atoms(src: Seq<u8>, n: SyntaxNode) -> Seq<Seq<u8>>
    decreases n,
{
    if is_atom(n) {
        seq![node_text(src, n)]
    } else {
        atoms_seq(src, n.children@)
    }
}

/// The atoms of a sequence of trees, one tree after the other.
pub open spec fn atoms_seq(src: Seq<u8>, s: Seq<SyntaxNode>) -> Seq<Seq<u8>>
    decreases s,
{
    if s.len() == 0 {
        Seq::empty()
    } else {
        atoms_seq(src, s.drop_last()) + atoms(src, s.last())
    }
}

/// What well-formedness says of the node itself.
pub proof fn lemma_wf_node(n: SyntaxNode, len: nat)
    requires
        wf(n, len),
    ensures
        n.start <= n.end <= len,
        n.row < usize::MAX,
        n.column < usize::MAX,
        wf_list(n.children@, len),
{
}

/// Each member of a well-formed sequence is well-formed and ends before the next.
pub proof fn lemma_wf_list(s: Seq<SyntaxNode>, len: nat, i: int)
    requires
        wf_list(s, len),
        0 <= i < s.len(),
    ensures
        wf(s[i], len),
        i + 1 < s.len() ==> s[i].end <= s[i + 1].start,
    decreases s.len(),
{
    if i < s.len() - 1 {
        lemma_wf_list(s.drop_last(), len, i);
        if i + 1 < s.len() - 1 {
            lemma_wf_list(s.drop_last(), len, i + 1);
        }
    }
}

/// Children of a well-formed node are well-formed.
pub proof fn lemma_wf_child(n: SyntaxNode, len: nat, i: int)
    requires
        wf(n, len),
        0 <= i < n.children@.len(),
    ensures
        wf(n.children@[i], len),
{
    lemma_wf_node(n, len);
    lemma_wf_list(n.children@, len, i);
}

/// Adjacent children of a well-formed node do not overlap.
pub proof fn lemma_wf_siblings(n: SyntaxNode, len: nat, i: int)
    requires
        wf(n, len),
        0 <= i < n.children@.len() - 1,
    ensures
        n.children@[i].end <= n.children@[i + 1].start,
        wf(n.children@[i], len),
        wf(n.children@[i + 1], len),
        n.children@[i + 1].start <= n.children@[i + 1].end <= len,
{
    lemma_wf_node(n, len);
    lemma_wf_list(n.children@, len, i);
    lemma_wf_list(n.children@, len, i + 1);
    lemma_wf_node(n.children@[i + 1], len);
}

/// Whether the tree is well-formed over a buffer of `len` bytes.
pub fn is_wf(n: &SyntaxNode, len: usize) -> (r: bool)
    ensures
        r == wf(*n, len as nat),
    decreases n,
{
    if !(n.start <= n.end && n.end <= len && n.row < usize::MAX && n.column < usize::MAX) {
        return false;
    }
    let count = n.children.len();
    let mut i: usize = 0;
    while i < count
        invariant
            i <= count,
            count == n.children@.len(),
            wf_list(n.children@.subrange(0, i as int), len as nat),
        decreases count - i,
    {
        proof {
            assert(n.children@.subrange(0, i + 1).drop_last() =~= n.children@.subrange(0, i as int));
        }
        if !is_wf(&n.children[i], len) {
            proof {
                if wf_list(n.children@, len as nat) {
                    lemma_wf_list(n.children@, len as nat, i as int);
                }
            }
            return false;
        }
        if i > 0 && n.children[i - 1].end > n.children[i].start {
            proof {
                if wf_list(n.children@, len as nat) {
                    lemma_wf_list(n.children@, len as nat, i - 1);
                }
            }
            return false;
        }
        i = i + 1;
    }
    assert(n.children@.subrange(0, count as int) =~= n.children@);
    true
}

}
