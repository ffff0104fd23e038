use kaleidoscope::find_closing_delim;
use kaleidoscope::nodes::VariableNode as CharVariable;
use kaleidoscope::parsing::{Lambda, LambdaKind, UnwrapExpressions, UnzipExpressions};
use kaleidoscope::types::{AbstractionNode, ApplicationNode, Node, Span, VariableNode};

#[test]
fn closing_delim_nested() {
    assert_eq!(find_closing_delim("(a(b)c)", ['('], ')'), Ok(0..6));
}

#[test]
fn closing_delim_offset_start() {
    assert_eq!(find_closing_delim("ab(c)", ['('], ')'), Err(0));
    assert_eq!(find_closing_delim("(c)d", ['('], ')'), Ok(0..2));
}

#[test]
fn closing_delim_unclosed() {
    assert_eq!(find_closing_delim("(ab", ['('], ')'), Err(1));
    assert_eq!(find_closing_delim("((a)", ['('], ')'), Err(1));
    assert_eq!(find_closing_delim("", ['('], ')'), Err(0));
}

#[test]
fn closing_delim_closing_before_opening() {
    // A closing character before the first opening one is counted too.
    assert_eq!(find_closing_delim(")(x)", ['('], ')'), Ok(1..2));
}

#[test]
fn closing_delim_two_openers() {
    assert_eq!(find_closing_delim("{x]", ['{', '['], ']'), Ok(0..2));
}

#[test]
fn span_basics() {
    let s = Span::new(2, 5);
    assert_eq!(s.len(), 3);
    assert!(!s.is_empty());
    assert!(Span::new(3, 3).is_empty());
    assert_eq!(Span::from(2..5), s);
    assert_eq!(Span::from((2, 5)), s);
}

#[test]
fn bench_inputs_parse() {
    for s in [
        "x",
        "x_1",
        "x_{bravery_sacrfice_death}",
        "Lx.x",
        "Lx_{bravery_sacrfice_death}.x_{bravery_sacrfice_death}",
        "xy",
        "x_1y_1",
        "x_{honnor}y_{bravery}",
    ] {
        let r: Vec<_> = Lambda::parse(s);
        assert!(r.iter().all(|x| x.is_ok()), "{}", s);
    }
}

#[test]
fn parse_single_variable() {
    let n = Node::parse_str("x", 0).unwrap();
    assert!(n.is_variable());
    assert_eq!(n.to_string(), "x");
    assert_eq!(*n.span(), Span::new(0, 1));
}

#[test]
fn parse_variable_subscripts() {
    let v = VariableNode::parse_str("x_1", 0).unwrap();
    assert_eq!(v.get_ident(), "x");
    assert_eq!(v.get_subscript(), Some("1".to_string()));
    assert_eq!(*v.span(), Span::new(0, 3));
    assert_eq!(v.to_string(), "x_1");

    let w = VariableNode::parse_str("x_{ab}", 4).unwrap();
    assert_eq!(w.get_subscript(), Some("ab".to_string()));
    assert_eq!(*w.span(), Span::new(4, 10));
    assert_eq!(w.to_string(), "x_{ab}");
}

#[test]
fn parse_variable_uppercase_run() {
    let v = VariableNode::parse_str("ABc", 0).unwrap();
    assert_eq!(v.get_ident(), "AB");
    assert_eq!(*v.span(), Span::new(0, 1));
}

#[test]
fn parse_variable_errors() {
    let e = VariableNode::parse_str("", 3).unwrap_err();
    assert_eq!(e.msg().as_deref(), Some("Expected identifier, found EOL."));
    assert_eq!(e.error_span(), Span::new(3, 4));

    let e = VariableNode::parse_str("$", 0).unwrap_err();
    assert_eq!(e.msg().as_deref(), Some("Invalid Variable Identifier"));

    let e = VariableNode::parse_str("L", 0).unwrap_err();
    assert_eq!(
        e.msg().as_deref(),
        Some("Variable contains a lambda character. Try using a substring such as L_1 to differentiate the name.")
    );

    let e = VariableNode::parse_str("x_", 0).unwrap_err();
    assert_eq!(e.src(), "Expected '{' or identifier after '_' found EOL.");
    assert_eq!(e.msg(), &None);
    assert_eq!(e.to_string(), "Parsing Error");
}

#[test]
fn parse_abstraction() {
    let a = AbstractionNode::parse_str("Lx.x", 0).unwrap();
    assert_eq!(a.to_string(), "λx.x");
    assert_eq!(*a.span(), Span::new(0, 4));
    let n = Node::parse_str("Ly.y", 2).unwrap();
    assert!(n.is_abstraction());
    assert_eq!(n.to_string(), "λy.y");
}

#[test]
fn parse_abstraction_errors() {
    let e = AbstractionNode::parse_str("x.x", 0).unwrap_err();
    assert_eq!(e.msg().as_deref(), Some("Missing a valid abstraction identifier!"));
    let e = AbstractionNode::parse_str("Lx", 0).unwrap_err();
    assert!(e.msg().is_some());
}

#[test]
fn parse_application_of_variables() {
    let n = Node::parse_str("xy", 0).unwrap();
    assert!(n.is_application());
    assert_eq!(n.to_string(), "(x)(y)");
    assert_eq!(*n.span(), Span::new(0, 2));
}

#[test]
fn parse_parenthesised_application() {
    let n = Node::parse_str("(Lx.x)y", 0).unwrap();
    assert!(n.is_application());
    assert_eq!(n.to_string(), "(λx.x)y");
}

#[test]
fn parse_application_node_direct() {
    let a = ApplicationNode::parse_str("xyz", 0).unwrap();
    assert_eq!(a.to_string(), "x((y)(z))");
    // The check for a single node compares the first part's end with the
    // position of the last character.
    let e = ApplicationNode::parse_str("xy", 0).unwrap_err();
    assert_eq!(e.msg().as_deref(), Some("Attempt to parse application with only single node"));
}

#[test]
fn parse_invalid_input() {
    let e = Node::parse_str("$", 0).unwrap_err();
    assert_eq!(e.msg().as_deref(), Some("Invalid Input"));
}

#[test]
fn parse_unclosed_parenthesis() {
    let e = Node::parse_str("(x", 0).unwrap_err();
    assert_eq!(e.msg().as_deref(), Some("Missing closing delimiter for (."));
}

#[test]
fn span_within_text() {
    // The span of a parsed expression lies in the text given.
    for (s, start) in [("x", 0usize), ("xy", 3), ("Lx.x", 1), ("x_{ab}", 2)] {
        let n = Node::parse_str(s, start).unwrap();
        assert!(start <= n.span().start());
        assert!(n.span().start() < n.span().end());
        assert!(n.span().end() <= start + 4 * s.chars().count());
    }
}

#[test]
fn program_parse_assignment_and_statement() {
    let ls = Lambda::parse("I:=Lx.x\nIy").unwrap_expressions().unwrap();
    assert_eq!(ls.len(), 2);
    assert!(ls[0].is_assignment());
    assert_eq!(ls[0].to_string(), "I := λx.x");
    assert!(matches!(ls[1].kind(), LambdaKind::Statement(_)));
    assert_eq!(ls[1].to_string(), "(I)(y)");
}

#[test]
fn program_parse_skips_comments_and_joins_continuations() {
    let ls = Lambda::parse("// comment\n\nxy\n  z").unwrap_expressions().unwrap();
    assert_eq!(ls.len(), 1);
    assert_eq!(ls[0].to_string(), "x((y)(z))");
}

#[test]
fn program_parse_error_is_first_error() {
    let r = Lambda::parse("x\n$\n%").unwrap_expressions();
    assert!(r.is_err());
    assert_eq!(r.unwrap_err().src(), "$");
}

#[test]
fn unzip_partitions_program() {
    let u = Lambda::parse("a:=x\nb\nc:=y\nd").unzip_expressions().unwrap();
    assert_eq!(u.assignments.len(), 2);
    assert_eq!(u.statements.len(), 2);
    assert_eq!(u.assignments[0].ident.to_string(), "a");
    assert_eq!(u.assignments[1].ident.to_string(), "c");
    assert_eq!(u.statements[0].body.to_string(), "b");
    assert_eq!(u.statements[1].body.to_string(), "d");
}

#[test]
fn assignment_map_absent_without_assignments() {
    let ls = Lambda::parse("x\ny").unwrap_expressions().unwrap();
    assert!(Lambda::generate_assignment_map(&ls).is_none());
    let ls = Lambda::parse("a:=x\nb:=y\na:=z").unwrap_expressions().unwrap();
    let m = Lambda::generate_assignment_map(&ls).unwrap();
    let a = VariableNode::parse_str("a", 7).unwrap();
    assert_eq!(m.get(&a).unwrap().to_string(), "z");
}

#[test]
fn node_equality_ignores_variable_spans() {
    let a = Node::parse_str("x", 0).unwrap();
    let b = Node::parse_str("x", 5).unwrap();
    assert!(a == b);
    let c = Node::parse_str("y", 0).unwrap();
    assert!(a != c);
}

#[test]
fn assignment_body_keeps_leading_space() {
    // The text after `:=` is read as it stands: a leading space is read as
    // a variable applied to the rest.
    let ls = Lambda::parse("I := Lx.x").unwrap_expressions().unwrap();
    assert_eq!(ls[0].to_string(), "I :=  (λx.x)");
}

#[test]
fn char_variable_from_str() {
    let v = CharVariable::from_str("x", 2).unwrap();
    assert_eq!(v.base_ident(), 'x');
    assert_eq!(v.subscript(), &None);
    assert_eq!(v.span(), Span::new(2, 3));
    let v = CharVariable::from_str("x_1", 0).unwrap();
    assert_eq!(v.subscript(), &Some("1".to_string()));
    assert_eq!(v.span(), Span::new(0, 3));
    let v = CharVariable::from_str("x_{ab}", 0).unwrap();
    assert_eq!(v.subscript(), &Some("ab".to_string()));
    assert_eq!(v.span(), Span::new(0, 6));
}

#[test]
fn char_variable_from_str_errors() {
    let e = CharVariable::from_str("", 4).unwrap_err();
    assert_eq!(e.msg().as_deref(), Some("Expected identifier."));
    assert_eq!(e.error_span(), Span::new(4, 5));
    let e = CharVariable::from_str("xy", 3).unwrap_err();
    assert_eq!(e.msg().as_deref(), Some("Expected Variable Subscript Delimiter, found y."));
    assert_eq!(e.error_span(), Span::new(3, 2));
    let e = CharVariable::from_str("x_", 0).unwrap_err();
    assert_eq!(e.src(), "Expected '{' or identifier after '_' found EOL.");
    let e = CharVariable::from_str("x_{ab", 0).unwrap_err();
    assert_eq!(e.msg().as_deref(), Some("Closing '}' not found in variable decleration"));
}

#[test]
fn variable_equals_its_text() {
    let v = VariableNode::parse_str("x_{ab}", 0).unwrap();
    assert!(v == "x_{ab}");
    assert!(v != "x_ab");
    assert!(v == *"x_{ab}");
    let w = VariableNode::parse_str("y_1", 0).unwrap();
    assert!(w == "y_1");
}

#[test]
fn char_variable_counts_bytes() {
    let e = CharVariable::from_str("λ", 1).unwrap_err();
    assert_eq!(
        e.msg().as_deref(),
        Some("Expected Variable Subscript Delimiter, found end of expression.")
    );
    assert_eq!(e.error_span(), Span::new(1, 2));
    let e = CharVariable::from_str("éy", 0).unwrap_err();
    assert_eq!(e.error_span(), Span::new(0, 3));
    let v = CharVariable::from_str("λ_x", 0).unwrap();
    assert_eq!(v.base_ident(), 'λ');
    assert_eq!(v.span(), Span::new(0, 3));
}

#[test]
fn error_spans_count_bytes() {
    let e = VariableNode::parse_str("_λ", 0).unwrap_err();
    assert_eq!(e.error_span(), Span::new(0, 3));
    let e = AbstractionNode::parse_str("xλ", 0).unwrap_err();
    assert_eq!(e.error_span(), Span::new(0, 3));
    let ls = Lambda::parse("é := y").unwrap_expressions().unwrap();
    match ls[0].kind() {
        LambdaKind::Assignment(a) => assert_eq!(*a.body.span(), Span::new(5, 7)),
        LambdaKind::Statement(_) => panic!("expected an assignment"),
    }
}

#[test]
fn variable_text_reads_back() {
    for text in ["x", "AB", "x_1", "AB_{cd}", "L_2", "y_{x1}"] {
        let v = VariableNode::parse_str(text, 0).unwrap();
        let w = VariableNode::parse_str(&v.to_string(), 5).unwrap();
        assert!(v == w.to_string().as_str());
        assert_eq!(v.to_string(), w.to_string());
    }
}

#[test]
fn redundant_parentheses_change_nothing_but_spans() {
    for text in ["xy", "Lx.x", "(Lx.x)y", "x(yz)", "(x)(y)"] {
        let inner = Node::parse_str(text, 0).unwrap();
        let outer = Node::parse_str(&format!("({})", text), 0).unwrap();
        assert_eq!(inner.to_string(), outer.to_string());
    }
    assert!(Node::parse_str("Lx", 0).is_err());
    assert!(Node::parse_str("(Lx)", 0).is_err());
}

#[test]
fn char_variable_braces_cut_at_bytes() {
    let v = CharVariable::from_str("x_{a}λ", 0).unwrap();
    assert_eq!(v.subscript(), &Some("a".to_string()));
    let e = CharVariable::from_str("é_{x}", 0).unwrap_err();
    assert_eq!(e.msg().as_deref(), Some("Closing '}' not found in variable decleration"));
    assert_eq!(e.error_span(), Span::new(0, 6));
}

#[test]
fn abstraction_from_str_reads_body_from_the_dot() {
    let a = AbstractionNode::from_str("Lx.x", 0).unwrap();
    assert_eq!(a.to_string(), "λx.(.)(x)");
    assert_eq!(*a.span(), Span::new(0, 4));
    let e = AbstractionNode::from_str("x.x", 0).unwrap_err();
    assert_eq!(e.msg().as_deref(), Some("Missing a valid abstraction identifier!"));
    let e = AbstractionNode::from_str("L.x", 3).unwrap_err();
    assert_eq!(e.msg().as_deref(), Some("Expected abstraction body seperator '.', found EOL"));
    assert_eq!(e.error_span(), Span::new(3, 3));
    let e = AbstractionNode::from_str("Lx", 0).unwrap_err();
    assert_eq!(e.msg().as_deref(), Some("Expected abstraction body, found EOL"));
    let e = AbstractionNode::from_str("Lxy.x", 0).unwrap_err();
    assert_eq!(e.msg().as_deref(), Some("Bound of a abstraction must be a variable"));
}

#[test]
fn variable_braces_cut_at_bytes() {
    let e = VariableNode::parse_str("é_{x}", 0).unwrap_err();
    assert_eq!(e.msg().as_deref(), Some("Closing '}' not found in variable decleration"));
    assert_eq!(e.error_span(), Span::new(0, 6));
    let v = VariableNode::parse_str("x_{ab}é", 0).unwrap();
    assert_eq!(v.to_string(), "x_{ab}");
}

#[test]
fn lambda_character_cuts_at_bytes() {
    let n = Node::parse_str("λx.x", 0).unwrap();
    assert_eq!(n.to_string(), "λx.(.)(x)");
    assert_eq!(*n.span(), Span::new(0, 5));
    let e = Node::parse_str("(λx.x)", 0).unwrap_err();
    assert_eq!(e.msg().as_deref(), Some("Invalid Input"));
}
