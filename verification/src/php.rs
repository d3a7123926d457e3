//! PHP syntax trees: the parser's output as a flat post-order listing, and
//! the tree it encodes.

use vstd::prelude::*;
use mago_database::file::FileId;
use mago_span::HasSpan;
use mago_syntax::ast::Node;
use mago_syntax::parser::parse_file_content;
use mago_syntax::ast::TriviaSequenceExt;

verus! {

broadcast use vstd::string::group_string_axioms;

/// One node as the parser lists it: kind name, byte span, number of
/// children, source text, and (for string literals) the literal's value.
pub type NodeView = (Seq<char>, u32, u32, usize, Seq<char>, Option<Seq<char>>);

/// One comment: the byte offset where it ends, and its text.
pub type CommentView = (u32, Seq<char>);

/// What the PHP parser makes of a source text: every node of the syntax
/// tree in post-order (children before their parent), and every comment.
pub uninterp spec fn php_syntax(text: Seq<char>) -> (Seq<NodeView>, Seq<CommentView>);

pub open spec fn opt_view(o: Option<String>) -> Option<Seq<char>> {
    match o {
        Some(s) => Some(s@),
        None => None,
    }
}

/// A node as listed by the parser.
pub struct SyntaxNode {
    pub kind: String,
    pub start: u32,
    pub end: u32,
    pub arity: usize,
    pub text: String,
    pub literal: Option<String>,
}

impl View for SyntaxNode {
    type V = NodeView;

    open spec fn view(&self) -> NodeView {
        (self.kind@, self.start, self.end, self.arity, self.text@, opt_view(self.literal))
    }
}

/// A comment as listed by the parser.
pub struct Comment {
    pub end: u32,
    pub text: String,
}

impl View for Comment {
    type V = CommentView;

    open spec fn view(&self) -> CommentView {
        (self.end, self.text@)
    }
}

/// The parser's listing of one source text.
pub struct Syntax {
    pub nodes: Vec<SyntaxNode>,
    pub comments: Vec<Comment>,
}

impl View for Syntax {
    type V = (Seq<NodeView>, Seq<CommentView>);

    open spec fn view(&self) -> (Seq<NodeView>, Seq<CommentView>) {
        (
            self.nodes@.map_values(|n: SyntaxNode| n@),
            self.comments@.map_values(|c: Comment| c@),
        )
    }
}

/// Parses `text` with `mago_syntax::parser::parse_file_content` and lists
/// the resulting tree with `Node::filter_map` (which visits children before
/// their parent), each node with its `kind()`, span, number of `children()`,
/// source text and, for a string literal, its `value`; and the comments of
/// the program's trivia (`comments()`). The contract names the result and
/// claims nothing more of it.
#[verifier::external_body]
fn parse_php(text: &str) -> (r: Syntax)
    ensures
        r@ == php_syntax(text@),
{
    let arena = bumpalo::Bump::new();
    let program = parse_file_content(&arena, FileId::new("source.php"), text);
    let nodes = Node::Program(program).filter_map(|n| Some(SyntaxNode {
        kind: n.kind().to_string(), start: n.span().start.offset, end: n.span().end.offset,
        arity: n.children().len(), text: text[n.span().to_range_usize()].to_string(),
        literal: match n { Node::LiteralString(s) => s.value.map(String::from), _ => None },
    }));
    let comments = program.trivia.comments().map(|t| Comment { end: t.span.end.offset, text: t.value.to_string() });
    Syntax { nodes, comments: comments.collect() }
}

/// A PHP syntax tree, as a value.
pub struct Tree {
    pub kind: Seq<char>,
    pub start: u32,
    pub end: u32,
    pub text: Seq<char>,
    pub literal: Option<Seq<char>>,
    pub kids: Seq<Tree>,
}

/// A node of a PHP syntax tree.
pub struct PhpNode {
    pub kind: String,
    pub start: u32,
    pub end: u32,
    pub text: String,
    pub literal: Option<String>,
    pub children: Vec<PhpNode>,
}

pub open spec fn tree_view(n: PhpNode) -> Tree
    decreases n,
{
    Tree {
        kind: n.kind@,
        start: n.start,
        end: n.end,
        text: n.text@,
        literal: opt_view(n.literal),
        kids: Seq::new(
            n.children@.len(),
            |i: int|
                if 0 <= i < n.children@.len() {
                    tree_view(n.children@[i])
                } else {
                    leaf_tree()
                },
        ),
    }
}

pub open spec fn leaf_tree() -> Tree {
    Tree { kind: seq![], start: 0, end: 0, text: seq![], literal: None, kids: seq![] }
}

impl View for PhpNode {
    type V = Tree;

    open spec fn view(&self) -> Tree {
        tree_view(*self)
    }
}

/// The tree node a listed node becomes, given its children.
pub open spec fn make_tree(v: NodeView, kids: Seq<Tree>) -> Tree {
    Tree { kind: v.0, start: v.1, end: v.2, text: v.4, literal: v.5, kids }
}

/// The stack of trees after decoding a post-order listing, or `None` where
/// some node has more children than the stack holds.
pub open spec fn decode_stack(nodes: Seq<NodeView>) -> Option<Seq<Tree>>
    decreases nodes.len(),
{
    if nodes.len() == 0 {
        Some(seq![])
    } else {
        match decode_stack(nodes.drop_last()) {
            Some(st) => {
                let k = nodes.last().3 as int;
                if k <= st.len() {
                    Some(st.take(st.len() - k).push(make_tree(nodes.last(), st.skip(st.len() - k))))
                } else {
                    None
                }
            },
            None => None,
        }
    }
}

/// The tree a post-order listing describes, when it describes exactly one.
pub open spec fn tree_of_listing(nodes: Seq<NodeView>) -> Option<Tree> {
    match decode_stack(nodes) {
        Some(st) => if st.len() == 1 {
            Some(st[0])
        } else {
            None
        },
        None => None,
    }
}

/// The syntax tree of a PHP source text, when the parser's listing
/// describes one.
pub open spec fn source_tree(text: Seq<char>) -> Option<Tree> {
    tree_of_listing(php_syntax(text).0)
}

proof fn lemma_decode_stuck(nodes: Seq<NodeView>, i: int, j: int)
    requires
        0 <= i <= j <= nodes.len(),
        decode_stack(nodes.take(i)) is None,
    ensures
        decode_stack(nodes.take(j)) is None,
    decreases j - i,
{
    if i < j {
        lemma_decode_stuck(nodes, i, j - 1);
        assert(nodes.take(j).drop_last() == nodes.take(j - 1));
    }
}

fn clone_opt(o: &Option<String>) -> (r: Option<String>)
    ensures
        opt_view(r) == opt_view(*o),
{
    match o {
        Some(s) => Some(s.clone()),
        None => None,
    }
}

pub open spec fn trees_of(v: Seq<PhpNode>) -> Seq<Tree> {
    v.map_values(|n: PhpNode| n@)
}

pub open spec fn listing_of(nodes: Seq<SyntaxNode>) -> Seq<NodeView> {
    nodes.map_values(|n: SyntaxNode| n@)
}

/// The tree a post-order listing describes, if it describes exactly one.
pub fn decode_tree(nodes: &Vec<SyntaxNode>) -> (r: Option<PhpNode>)
    ensures
        match r {
            Some(t) => tree_of_listing(listing_of(nodes@)) == Some(t@),
            None => tree_of_listing(listing_of(nodes@)) is None,
        },
{
    let ghost views = listing_of(nodes@);
    let mut stack: Vec<PhpNode> = Vec::new();
    let mut i: usize = 0;
    while i < nodes.len()
        invariant
            i <= nodes.len(),
            views == listing_of(nodes@),
            decode_stack(views.take(i as int)) == Some(trees_of(stack@)),
        decreases nodes.len() - i,
    {
        let n = &nodes[i];
        assert(views.take(i + 1).drop_last() == views.take(i as int));
        assert(views.take(i + 1).last() == n@);
        if n.arity > stack.len() {
            proof {
                lemma_decode_stuck(views, i + 1, views.len() as int);
                assert(views.take(views.len() as int) == views);
            }
            return None;
        }
        let ghost before = stack@;
        let kids = stack.split_off(stack.len() - n.arity);
        let node = PhpNode {
            kind: n.kind.clone(),
            start: n.start,
            end: n.end,
            text: n.text.clone(),
            literal: clone_opt(&n.literal),
            children: kids,
        };
        proof {
            assert(before == stack@ + kids@);
            let k = n.arity as int;
            assert(trees_of(before).take(before.len() - k) == trees_of(stack@));
            assert(trees_of(before).skip(before.len() - k) == trees_of(kids@));
            assert(node@.kids == trees_of(kids@));
            assert(node@ == make_tree(n@, trees_of(kids@)));
        }
        let ghost rest = stack@;
        stack.push(node);
        proof {
            assert(trees_of(stack@) == trees_of(rest).push(node@));
        }
        i = i + 1;
    }
    assert(views.take(nodes.len() as int) == views);
    if stack.len() == 1 {
        let ghost whole = stack@;
        let t = stack.pop().unwrap();
        assert(trees_of(whole)[0] == t@);
        Some(t)
    } else {
        None
    }
}

/// The syntax tree of a PHP source text and its comments.
pub fn parse_tree(text: &str) -> (r: (Option<PhpNode>, Vec<Comment>))
    ensures
        match r.0 {
            Some(t) => source_tree(text@) == Some(t@),
            None => source_tree(text@) is None,
        },
        r.1@.map_values(|c: Comment| c@) == php_syntax(text@).1,
{
    let syntax = parse_php(text);
    let tree = decode_tree(&syntax.nodes);
    (tree, syntax.comments)
}

} // verus!
