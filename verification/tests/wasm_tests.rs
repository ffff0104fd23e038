use kaleidoscope::parsing::Lambda;
use kaleidoscope::types::Node;
use kaleidoscope::wasm::{
    wasm_interpret_raw, wasm_node_inner_kind_is_abstraction, wasm_node_inner_kind_is_application,
    wasm_node_inner_kind_is_variable, wasm_node_inner_kind_to_js_string, WasmLambdaKindInner, WasmNode,
    WasmNodeInner, WasmNodeInnerKind,
};
use kaleidoscope::{EXTENDED_SYNTAX, LAMBDA_CHAR, MAIN_FILE_PATH, VALID_LAMBDA_CHARACTERS};

#[test]
fn constants() {
    assert_eq!(LAMBDA_CHAR, 'λ');
    assert_eq!(VALID_LAMBDA_CHARACTERS, ['L', 'λ']);
    assert!(EXTENDED_SYNTAX);
    assert_eq!(MAIN_FILE_PATH, "/src/main.lmda");
}

#[test]
fn wasm_node_parse_and_reduce() {
    let n = WasmNode::parse_str("(Lx.x)y").unwrap();
    assert_eq!(n.to_js_string(), "(λx.x)y");
    let r = n.reduce().unwrap();
    assert_eq!(r.to_js_string(), "y");
    let v = WasmNode::parse_str("z").unwrap().reduce().unwrap();
    assert_eq!(v.to_js_string(), "z");
    assert!(WasmNode::parse_str("$").is_err());
}

#[test]
fn wasm_node_inner_kinds() {
    let i = WasmNode::parse_str("x").unwrap().inner();
    assert_eq!(i.kind(), WasmNodeInnerKind::Variable);
    assert!(i.is_variable());
    assert_eq!(i.variable().to_string(), "x");
    let i = WasmNode::parse_str("xy").unwrap().inner();
    assert_eq!(i.kind(), WasmNodeInnerKind::Application);
    assert!(i.is_application());
    assert_eq!(i.application().to_string(), "(x)(y)");
    // An abstraction is reported with the kind `Variable`.
    let i = WasmNodeInner::from(Node::parse_str("Lx.x", 0).unwrap());
    assert_eq!(i.kind(), WasmNodeInnerKind::Variable);
    assert!(i.is_abstraction());
    assert!(!i.is_variable());
    assert_eq!(i.abstraction().to_string(), "λx.x");
}

#[test]
fn wasm_inner_kind_helpers() {
    assert!(wasm_node_inner_kind_is_variable(WasmNodeInnerKind::Variable));
    assert!(!wasm_node_inner_kind_is_variable(WasmNodeInnerKind::Application));
    assert!(wasm_node_inner_kind_is_abstraction(WasmNodeInnerKind::Abstraction));
    assert!(wasm_node_inner_kind_is_application(WasmNodeInnerKind::Application));
    assert_eq!(wasm_node_inner_kind_to_js_string(WasmNodeInnerKind::Abstraction), "Abstraction");
}

#[test]
fn wasm_lambda_kinds() {
    let ls = Lambda::parse_wasm("a:=x\ny".to_string()).unwrap();
    let k = ls[0].get_kind();
    assert_eq!(k.kind(), WasmLambdaKindInner::Assignment);
    assert!(k.is_assignment());
    assert!(!k.is_statement());
    let a = k.assignment().unwrap();
    assert_eq!(a.to_js_string(), "a := x");
    assert_eq!(a.ident().to_string(), "a");
    assert_eq!(a.body().to_js_string(), "x");
    let k = ls[1].get_kind();
    assert_eq!(k.kind(), WasmLambdaKindInner::Statement);
    assert_eq!(k.statement().unwrap().to_js_string(), "y");
    assert!(k.assignment().is_none());
    assert!(Lambda::parse_wasm("$".to_string()).is_err());
}

#[test]
fn wasm_interpret_frames() {
    let f = wasm_interpret_raw("I:=Lx.x\nIy\nz".to_string(), 100).unwrap();
    assert_eq!(f.get_frames_lengths(), vec![2, 1]);
    let all: Vec<String> = f.get_frames().iter().map(|n| n.to_js_string()).collect();
    assert_eq!(all, vec!["(λx.x)y", "y", "z"]);
    let e = wasm_interpret_raw("$".to_string(), 100).unwrap_err();
    assert_eq!(e.src(), "$");
}

#[test]
fn wasm_node_conversions() {
    let n = Node::parse_str("xy", 0).unwrap();
    let w = WasmNode::from_ref(&n);
    let back = w.into_node();
    assert!(back == n);
    let w2 = WasmNode::from_node(n);
    assert_eq!(w2.to_js_string(), "(x)(y)");
}

#[test]
fn application_parts_for_scripts() {
    let a = kaleidoscope::types::ApplicationNode::parse_str("xyz", 0).unwrap();
    assert_eq!(a.get_left().to_js_string(), "x");
    assert_eq!(a.get_right().to_js_string(), "(y)(z)");
    let x = kaleidoscope::types::VariableNode::parse_str("y", 0).unwrap();
    let r = a.reduce_wasm(WasmNode::parse_str("w").unwrap(), Some(x)).unwrap();
    assert_eq!(r.to_js_string(), "x((w)(z))");
}

#[test]
fn node_from_parts() {
    let v = kaleidoscope::types::VariableNode::parse_str("x", 0).unwrap();
    let n: Node = v.into();
    assert!(n.is_variable());
    let a = kaleidoscope::types::ApplicationNode::parse_str("xyz", 0).unwrap();
    let n: Node = a.into();
    assert!(n.is_application());
}
