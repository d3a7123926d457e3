use artisan_comp::config::scalar_or_env_default;
use artisan_comp::php::{decode_tree, PhpNode, SyntaxNode};

fn listed(kind: &str, arity: usize, text: &str, literal: Option<&str>) -> SyntaxNode {
    SyntaxNode {
        kind: kind.to_string(),
        start: 0,
        end: text.len() as u32,
        arity,
        text: text.to_string(),
        literal: literal.map(String::from),
    }
}

fn string_expression(text: &str, value: Option<&str>) -> Vec<SyntaxNode> {
    vec![
        listed("LiteralString", 0, text, value),
        listed("Literal", 1, text, None),
        listed("Expression", 1, text, None),
    ]
}

fn tree(nodes: &Vec<SyntaxNode>) -> PhpNode {
    decode_tree(nodes).expect("one tree")
}

#[test]
fn decodes_a_post_order_listing() {
    let nodes = string_expression("'redis'", Some("redis"));
    let t = tree(&nodes);
    assert_eq!(t.kind, "Expression");
    assert_eq!(t.children.len(), 1);
    assert_eq!(t.children[0].kind, "Literal");
    assert_eq!(t.children[0].children[0].kind, "LiteralString");
    assert_eq!(t.children[0].children[0].literal.as_deref(), Some("redis"));
}

#[test]
fn listings_that_are_not_one_tree_are_refused() {
    let mut two = string_expression("'a'", Some("a"));
    two.extend(string_expression("'b'", Some("b")));
    assert!(decode_tree(&two).is_none());
    let short = vec![listed("Expression", 1, "x", None)];
    assert!(decode_tree(&short).is_none());
    assert!(decode_tree(&Vec::new()).is_none());
}

#[test]
fn scalar_defaults_from_literals() {
    let t = tree(&string_expression("'sync'", Some("sync")));
    assert_eq!(scalar_or_env_default(&t).as_deref(), Some("sync"));
    // Without a decoded value, the quotes are taken off the source text.
    let t = tree(&string_expression("'redis'", None));
    assert_eq!(scalar_or_env_default(&t).as_deref(), Some("redis"));
    let not_a_string = vec![listed("Variable", 0, "$x", None), listed("Expression", 1, "$x", None)];
    assert_eq!(scalar_or_env_default(&tree(&not_a_string)), None);
}
