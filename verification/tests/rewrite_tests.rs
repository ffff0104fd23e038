use kaleidoscope::text::char_is_whitespace;
use kaleidoscope::stdlib::generate_lambda_number;
use kaleidoscope::types::{ApplicationNode, Node, VariableNode};

fn is_x((n, _): (&Node, Option<&VariableNode>)) -> bool {
    n.is_variable() && n.to_string() == "x"
}

fn z() -> Node {
    Node::parse_str("z", 0).unwrap()
}

#[test]
fn replace_in_application() {
    let n = Node::parse_str("xy", 0).unwrap().replace(&is_x, None, z());
    assert_eq!(n.to_string(), "(z)(y)");
}

#[test]
fn replace_abstraction_with_variable_body() {
    // When the test picks the body of an abstraction and that body is a
    // variable, the whole abstraction is replaced.
    let n = Node::parse_str("Lx.x", 0).unwrap().replace(&is_x, None, z());
    assert_eq!(n.to_string(), "z");
}

#[test]
fn replace_inside_abstraction_body() {
    let n = Node::parse_str("Lx.xy", 0).unwrap().replace(&is_x, None, z());
    assert_eq!(n.to_string(), "λx.(z)(y)");
}

#[test]
fn replace_nothing_picked() {
    let never = |(_, _): (&Node, Option<&VariableNode>)| false;
    let n = Node::parse_str("Lx.xy", 0).unwrap().replace(&never, None, z());
    assert_eq!(n.to_string(), "λx.(x)(y)");
}

#[test]
fn find_all_collects_inner_first_once() {
    let mut n = Node::parse_str("xyx", 0).unwrap();
    let is_var = |m: &Node| m.is_variable();
    let found: Vec<String> = n.find_all(&is_var).iter().map(|m| m.to_string()).collect();
    assert_eq!(found, vec!["x", "y"]);
    let any = |_: &Node| true;
    let found: Vec<String> = n.find_all(&any).iter().map(|m| m.to_string()).collect();
    assert_eq!(found, vec!["x", "y", "(y)(x)", "x((y)(x))"]);
}

#[test]
fn find_mut_in_application() {
    let mut a = ApplicationNode::parse_str("xyz", 0).unwrap();
    match a.find_mut(|n: &Node| n.is_application()) {
        Some(part) => *part = Node::parse_str("w", 0).unwrap(),
        None => panic!("no part found"),
    }
    assert_eq!(a.to_string(), "(x)(w)");
    assert!(a.find_mut(|n: &Node| n.is_abstraction()).is_none());
}

#[test]
fn lambda_number_zero() {
    assert_eq!(generate_lambda_number(0).to_string(), "λf.λx.x");
}

#[test]
fn whitespace_matches_std() {
    for c in (0u32..0x11_0000).filter_map(char::from_u32) {
        assert_eq!(char_is_whitespace(c), c.is_whitespace(), "{:?}", c);
    }
}
