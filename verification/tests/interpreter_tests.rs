use kaleidoscope::interpreter::{can_interpret, interpret, interpret_partial, read_opt_flag, InterpretingError};
use kaleidoscope::opts::{CreateDefaultOpts, DefaultOpts, GetDefaultOpt, OptEntry, Opts};
use kaleidoscope::parsing::{Lambda, UnwrapExpressions};
use kaleidoscope::runner::run_program;
use kaleidoscope::types::{Node, NodeFormattingOptions, ReductionError, Span};

fn program(s: &str) -> Vec<Lambda> {
    Lambda::parse(s).unwrap_expressions().unwrap()
}

#[test]
fn interpret_identity_application() {
    let mut out = String::new();
    let frames = interpret(program("I:=Lx.x\nIy"), &mut out, None, 100).unwrap();
    assert_eq!(out, "(Variable Assignment) I := λx.x\n\n(Expression Reduction) \t (λx.x)y => y\n");
    assert_eq!(frames.len(), 1);
    assert_eq!(frames[0].len(), 2);
    assert_eq!(frames[0][1].to_string(), "y");
}

#[test]
fn interpret_normal_form_statement() {
    let mut out = String::new();
    let frames = interpret(program("xy"), &mut out, None, 100).unwrap();
    assert_eq!(out, "(Expression Reduction)\n(x)(y) => (x)(y)\n");
    assert_eq!(frames[0].len(), 1);
}

#[test]
fn interpret_two_steps() {
    let mut out = String::new();
    let frames = interpret(program("(Lx.x)((Ly.y)z)"), &mut out, None, 100).unwrap();
    assert_eq!(
        out,
        "(Expression Reduction)\n\t(λx.x(λy.y)z)\n\t=> (λy.y)z\n\t=> z\n\n"
    );
    assert_eq!(frames[0].len(), 3);
}

#[test]
fn interpret_frames_differ_step_to_step() {
    let mut out = String::new();
    let frames = interpret(program("(Lx.x)((Ly.y)z)\n(La.a)b"), &mut out, None, 100).unwrap();
    assert_eq!(frames.len(), 2);
    for f in &frames {
        for w in f.windows(2) {
            assert!(w[0] != w[1]);
        }
        let last = f.last().unwrap().clone();
        assert!(last.clone().reduce_self().unwrap() == last);
    }
}

#[test]
fn interpret_fuel_limits_steps() {
    let mut out = String::new();
    let frames = interpret(program("(Lx.x)((Ly.y)z)"), &mut out, None, 1).unwrap();
    assert_eq!(frames[0].len(), 2);
    let mut out = String::new();
    let frames = interpret(program("(Lx.x)((Ly.y)z)"), &mut out, None, 0).unwrap();
    assert_eq!(frames[0].len(), 1);
}

#[test]
fn interpret_without_printing_assignments() {
    let mut opts = Opts::create_default_options();
    assert!(opts.set_current_bool("ShouldPrintEveryLine", false));
    let mut out = String::new();
    interpret(program("I:=Lx.x\nIy"), &mut out, Some(&opts), 100).unwrap();
    assert_eq!(out, "(Expression Reduction) \t (λx.x)y => y\n");
}

#[test]
fn interpret_with_substitutions_shown() {
    let mut opts = Opts::create_default_options();
    assert!(opts.set_current_bool("ShouldCaptureAllChanges", true));
    let mut out = String::new();
    interpret(program("I:=Lx.x\nIy"), &mut out, Some(&opts), 100).unwrap();
    assert_eq!(
        out,
        "(Variable Assignment) I := λx.x\n\n(Variable Substitutions) (I)(y) => (λx.x)y\n(Expression Reduction) \t (λx.x)y => y\n"
    );
}

#[test]
fn interpret_needs_boolean_options() {
    let mut opts = Opts::create_default_options();
    assert!(opts.set_current("ShouldPrintEveryLine", "true"));
    assert!(!can_interpret(&program("a:=x"), Some(&opts)));
    // Without an assignment the printing option is not read.
    assert!(can_interpret(&program("x"), Some(&opts)));
    assert!(can_interpret(&program("a:=x\nx"), None));
}

#[test]
fn default_options_read_back() {
    let opts = Opts::create_default_options();
    assert_eq!(read_opt_flag(&opts, DefaultOpts::ShouldPrintEveryLine), Some(true));
    assert_eq!(read_opt_flag(&opts, DefaultOpts::ShouldCaptureAllChanges), Some(false));
    assert_eq!(read_opt_flag(&opts, DefaultOpts::FormatWithExtraDelimiters), Some(false));
    assert_eq!(opts.keys(), vec!["ShouldPrintEveryLine", "ShouldCaptureAllChanges", "FormatWithExtraDelimiters"]);
    let e = opts.get_default_opt(&DefaultOpts::ShouldPrintEveryLine);
    assert_eq!(e.get_name(), "ShouldPrintEveryLine");
    assert_eq!(e.get_valid_options_as().unwrap(), vec![true, false]);
    assert_eq!(e.get_default_as().unwrap(), true);
    assert_eq!(DefaultOpts::ShouldCaptureAllChanges.to_string(), "ShouldCaptureAllChanges");
}

#[test]
fn option_set_then_get() {
    let mut opts = Opts::create_default_options();
    assert!(opts.set_current("ShouldCaptureAllChanges", "x\"y"));
    let e = opts.get("ShouldCaptureAllChanges").unwrap();
    assert_eq!(e.current_json(), "\"x\\\"y\"");
    assert!(e.get_current_as().is_err());
    // The other options keep their values.
    assert_eq!(opts.get("ShouldPrintEveryLine").unwrap().current_json(), "true");
    assert!(!opts.set_current("Missing", "true"));
    assert!(opts.get("Missing").is_none());
}

#[test]
fn option_entry_json_texts() {
    let e = OptEntry::new("Flag", vec![false], true, Some(false));
    assert_eq!(e.default_json(), "true");
    assert_eq!(e.current_json(), "false");
    assert_eq!(e.valid_options_json(), &vec!["false".to_string()]);
    assert_eq!(e.get_current_as().unwrap(), false);
    let mut e = e;
    e.set_current("on").unwrap();
    assert_eq!(e.current_json(), "\"on\"");
    e.set_current_bool(true).unwrap();
    assert_eq!(e.get_current_as().unwrap(), true);
}

#[test]
fn formatting_options_from_opts() {
    let opts = Opts::create_default_options();
    assert!(!NodeFormattingOptions::from(opts).uses_extra_delimiters());
    let mut opts = Opts::create_default_options();
    opts.set_current_bool("FormatWithExtraDelimiters", true);
    assert!(NodeFormattingOptions::from(opts).uses_extra_delimiters());
    assert!(NodeFormattingOptions::new(true).uses_extra_delimiters());
}

#[test]
fn run_program_sections() {
    let out = run_program("I:=Lx.x\nIy", false).unwrap();
    assert_eq!(
        out,
        "// ==================== Original ====================\n(I)(y)\n\n// ==================== Variable Replacements ====================\n(λx.x)y\n\n// ==================== Reductions ====================\ny\n\n"
    );
}

#[test]
fn run_program_uses_only_earlier_assignments() {
    let out = run_program("Iy\nI:=Lx.x\nx", false).unwrap();
    assert_eq!(
        out,
        "// ==================== Original ====================\n(I)(y)\nx\n\n// ==================== Variable Replacements ====================\n(I)(y)\nx\n\n// ==================== Reductions ====================\n(I)(y)\nx\n\n"
    );
}

#[test]
fn run_program_only_reductions() {
    let out = run_program("I:=Lx.x\nIy\nz", true).unwrap();
    assert_eq!(out, "// ==================== Reductions ====================\ny\nz\n\n");
    let e = run_program("x\n$", true).unwrap_err();
    assert_eq!(e.src(), "$");
}

#[test]
fn run_program_reports_parse_error() {
    let e = run_program("x\n$", false).unwrap_err();
    assert_eq!(e.src(), "$");
}

#[test]
fn reduce_self_steps_applications_only() {
    let n = Node::parse_str("(Lx.x)y", 0).unwrap();
    assert_eq!(n.reduce_self().unwrap().to_string(), "y");
    let v = Node::parse_str("Lx.x", 0).unwrap();
    let same = v.clone().reduce_self().unwrap();
    assert!(same == v);
}

#[test]
fn substitution_keeps_bound_variables() {
    let n = Node::parse_str("Lx.xy", 0).unwrap();
    let x = kaleidoscope::types::VariableNode::parse_str("x", 0).unwrap();
    let w = Node::parse_str("z", 0).unwrap();
    let r = n.reduce(w, Some(&x)).unwrap();
    assert_eq!(r.to_string(), "λx.(x)(y)");
}

#[test]
fn substitution_replaces_free_variables() {
    let n = Node::parse_str("xy", 0).unwrap();
    let x = kaleidoscope::types::VariableNode::parse_str("x", 0).unwrap();
    let w = Node::parse_str("Lz.z", 0).unwrap();
    let r = n.reduce(w, Some(&x)).unwrap();
    assert_eq!(r.to_string(), "(λz.z)y");
    let same = Node::parse_str("xy", 0).unwrap().reduce(Node::parse_str("q", 0).unwrap(), None).unwrap();
    assert_eq!(same.to_string(), "(x)(y)");
}

#[test]
fn error_conversions() {
    let p = kaleidoscope::types::ParsingError::new("src", Some("m"), Span::new(1, 2), None);
    let i = InterpretingError::from_parsing_error(p);
    assert_eq!(i.src(), "src");
    assert_eq!(i.msg().as_deref(), Some("m"));
    assert_eq!(i.error_span(), Span::new(1, 2));
    assert_eq!(i.help(), &None);
    assert_eq!(i.to_string(), "InterpretingError");
    let r = ReductionError::new("s", None, Span::new(0, 0), None);
    let i = InterpretingError::from_reduction_error(r);
    assert_eq!(i.src(), "s");
    assert_eq!(i.msg(), &None);
    let k = kaleidoscope::KalidoscopeError::from_interpreting_error(InterpretingError::new(
        "a",
        Some("b"),
        Span::new(0, 1),
        None,
        Some("h".to_string()),
    ));
    assert_eq!(k.src(), "a");
    assert_eq!(k.message().as_deref(), Some("b"));
    let k = kaleidoscope::KalidoscopeError::msg("boom".to_string());
    assert_eq!(k.src(), "");
    assert_eq!(k.message().as_deref(), Some("boom"));
    assert_eq!(k.error_span(), Span::new(0, 0));
    assert_eq!(k.to_string(), "KalidoscopeError");
}

#[test]
fn missing_closing_delimiter_error() {
    let e = kaleidoscope::types::ParsingError::missing_closing_delimiter("ab(c", '(', 2, None);
    assert_eq!(e.msg().as_deref(), Some("Missing closing delimiter for (."));
    assert_eq!(e.error_span(), Span::new(2, 4));
}

#[test]
fn substituting_a_variable_by_itself_keeps_the_expression() {
    let n = Node::parse_str("Ly.(xy)x", 0).unwrap();
    let x = kaleidoscope::types::VariableNode::parse_str("x", 9).unwrap();
    let r = n.clone().reduce(Node::Variable(x.clone()), Some(&x)).unwrap();
    assert!(r == n);
}

#[test]
fn no_bindings_keep_the_expression() {
    let n = Node::parse_str("Lx.xy", 0).unwrap();
    let table = kaleidoscope::assignments::Assignments::new();
    assert!(table.is_empty());
    let r = n.clone().replace_assignments(&table);
    assert!(r == n);
}

#[test]
fn later_binding_wins() {
    let mut table = kaleidoscope::assignments::Assignments::new();
    let a = kaleidoscope::types::VariableNode::parse_str("a", 0).unwrap();
    table.insert(a.clone(), Node::parse_str("x", 0).unwrap());
    table.insert(kaleidoscope::types::VariableNode::parse_str("a", 7).unwrap(), Node::parse_str("y", 0).unwrap());
    assert_eq!(table.get(&a).unwrap().to_string(), "y");
    let b = kaleidoscope::types::VariableNode::parse_str("b", 0).unwrap();
    assert!(table.get(&b).is_none());
}

#[test]
fn partial_run_stops_at_unreadable_option() {
    let mut opts = Opts::create_default_options();
    assert!(opts.set_current("ShouldCaptureAllChanges", "true"));
    let mut out = String::new();
    let r = interpret_partial(program("a:=x\nay"), &mut out, Some(&opts), 100);
    assert!(r.is_none());
    assert_eq!(out, "(Variable Assignment) a := x\n\n");
    let mut out = String::new();
    let r = interpret_partial(program("a:=x"), &mut out, Some(&opts), 100).unwrap();
    assert!(r.is_empty());
}

#[test]
fn default_option_in_place() {
    let mut opts = Opts::create_default_options();
    opts.get_default_opt_mut(&DefaultOpts::ShouldCaptureAllChanges).set_current_bool(true).unwrap();
    assert_eq!(read_opt_flag(&opts, DefaultOpts::ShouldCaptureAllChanges), Some(true));
    assert_eq!(read_opt_flag(&opts, DefaultOpts::ShouldPrintEveryLine), Some(true));
}

#[test]
fn unzipped_from_separated_lists() {
    let a = program("a:=x\nb:=y");
    let s = program("x\nyz");
    let u = kaleidoscope::parsing::Unzipped::from((a, s));
    assert_eq!(u.assignments.len(), 2);
    assert_eq!(u.assignments[1].body.to_string(), "y");
    assert_eq!(u.statements[1].body.to_string(), "(y)(z)");
}
