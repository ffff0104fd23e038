use kaleidoscope::invocations::inclusion::IncludeInvocation;
use kaleidoscope::invocations::{BuiltinInvocations, Invocation, InvocationKind};
use kaleidoscope::modules::ModuleTables;
use kaleidoscope::repl::{cmd_can_run, run_cmd, CmdKind, Repl, ReplAction, HELLO_MESSAGE};
use kaleidoscope::opts::{CreateDefaultOpts, Opts};
use kaleidoscope::types::{Span, VariableNode};

fn step(repl: &mut Repl, line: &str) -> (String, ReplAction) {
    let mut out = String::new();
    let a = repl.handle_line(line, &mut out, 100);
    (out, a)
}

#[test]
fn hello_message_text() {
    assert_eq!(HELLO_MESSAGE, "Welcome to the Kaleidoscope repl. Use /help for help or /quit to quit.");
}

#[test]
fn repl_quit() {
    let mut r = Repl::new();
    assert_eq!(step(&mut r, "  /quit  "), (String::new(), ReplAction::Quit));
    assert_eq!(r.history(), &vec!["/quit".to_string()]);
}

#[test]
fn repl_help() {
    let mut r = Repl::new();
    let (out, a) = step(&mut r, "/help");
    assert_eq!(a, ReplAction::Continue);
    assert_eq!(out, "\nPossible Commands:\n/quit\nsetopt\ngetopt\nhelp\n");
}

#[test]
fn repl_command_names_ignore_case_and_slashes() {
    assert_eq!(CmdKind::try_from("/SETOPT"), Ok(CmdKind::SetOpt));
    assert_eq!(CmdKind::try_from("get/opt"), Ok(CmdKind::GetOpt));
    assert_eq!(CmdKind::try_from("/Help"), Ok(CmdKind::Help));
    assert!(CmdKind::try_from("/quit").is_err());
    assert_eq!(CmdKind::SetOpt.name(), "SetOpt");
}

#[test]
fn repl_getopt_and_setopt() {
    let mut r = Repl::new();
    assert_eq!(step(&mut r, "/getopt ShouldPrintEveryLine").0, "ShouldPrintEveryLine = true\n");
    assert_eq!(step(&mut r, "/setopt ShouldPrintEveryLine false"), (String::new(), ReplAction::Continue));
    assert_eq!(step(&mut r, "/getopt ShouldPrintEveryLine").0, "ShouldPrintEveryLine = \"false\"\n");
}

#[test]
fn repl_setopt_errors() {
    let mut r = Repl::new();
    assert_eq!(
        step(&mut r, "/setopt ShouldPrintEveryLine maybe").0,
        "option, maybe, is not valid for entry: ShouldPrintEveryLine\n"
    );
    assert_eq!(step(&mut r, "/setopt Nope true").0, "Invalid option! Use /setopt help for a list of options.\n");
    assert_eq!(step(&mut r, "/setopt ShouldPrintEveryLine").0, "/setopt requires 2 arguments per option.\n");
    assert_eq!(step(&mut r, "/setopt").1, ReplAction::Abort);
    assert_eq!(step(&mut r, "/getopt").1, ReplAction::Abort);
    assert_eq!(step(&mut r, "/getopt Nope").0, "Invalid option! Use /setopt help for a list of options.\n");
    assert_eq!(
        step(&mut r, "/getopt ShouldPrintEveryLine x").0,
        "/getopt requires only 1 argument per option.\nShouldPrintEveryLine = true\n"
    );
}

#[test]
fn repl_unknown_command() {
    let mut r = Repl::new();
    assert_eq!(step(&mut r, " /bogus ").0, "Invalid command: '/bogus', cmd. use /help for help.\n");
}

#[test]
fn repl_option_listing() {
    let mut r = Repl::new();
    let (out, _) = step(&mut r, "/getopt help");
    assert_eq!(
        out,
        "Option: ShouldPrintEveryLine, current = \"true\", default = true, valid options = [\"true\", \"false\"]\n\
Option: ShouldCaptureAllChanges, current = \"false\", default = false, valid options = [\"true\", \"false\"]\n\
Option: FormatWithExtraDelimiters, current = \"false\", default = false, valid options = [\"true\", \"false\"]\n\
Invalid option! Use /setopt help for a list of options.\n"
    );
}

#[test]
fn repl_program_lines_accumulate() {
    let mut r = Repl::new();
    let (out, a) = step(&mut r, "I:=Lx.x");
    assert_eq!(a, ReplAction::Continue);
    assert_eq!(out, "(Variable Assignment) I := λx.x\n\n");
    let (out, _) = step(&mut r, "Iy");
    assert_eq!(out, "(Variable Assignment) I := λx.x\n\n(Expression Reduction) \t (λx.x)y => y\n");
    assert_eq!(r.expressions().len(), 2);
}

#[test]
fn repl_parse_error_changes_nothing() {
    let mut r = Repl::new();
    let (out, a) = step(&mut r, "$");
    assert_eq!(out, "Parsing Error");
    assert_eq!(a, ReplAction::Continue);
    assert_eq!(r.expressions().len(), 0);
    assert_eq!(r.history().len(), 1);
}

#[test]
fn repl_unreadable_option_aborts() {
    let mut r = Repl::new();
    step(&mut r, "/setopt ShouldPrintEveryLine true");
    // Statements do not read the printing option.
    assert_eq!(step(&mut r, "x"), ("(Expression Reduction)\nx => x\n".to_string(), ReplAction::Continue));
    // The lines before the assignment run, then the session cannot go on.
    assert_eq!(step(&mut r, "a:=x"), ("(Expression Reduction)\nx => x\n".to_string(), ReplAction::Abort));
}

#[test]
fn run_cmd_directly() {
    let mut opts = Opts::create_default_options();
    let mut out = String::new();
    assert!(cmd_can_run("/setopt ShouldCaptureAllChanges false"));
    run_cmd("/setopt ShouldCaptureAllChanges false", &mut out, &mut opts);
    assert_eq!(out, "");
    assert_eq!(opts.get("ShouldCaptureAllChanges").unwrap().current_json(), "\"false\"");
    assert!(!cmd_can_run("/getopt"));
    assert!(cmd_can_run("/help"));
}

#[test]
fn builtin_names() {
    assert_eq!(BuiltinInvocations::try_from("print"), Ok(BuiltinInvocations::Print));
    assert_eq!(BuiltinInvocations::try_from("JsOn"), Ok(BuiltinInvocations::Json));
    assert!(BuiltinInvocations::try_from("other").is_err());
    assert!(matches!(InvocationKind::from("Print"), InvocationKind::Builtin(BuiltinInvocations::Print)));
    assert!(matches!(InvocationKind::from("foo"), InvocationKind::Custom(ref s) if s == "foo"));
}

#[test]
fn invocation_parse_basic() {
    let (v, rest) = Invocation::parse("foo!(a,b) rest", 0).unwrap();
    assert_eq!(v.len(), 1);
    assert_eq!(v[0].ident(), "foo");
    assert_eq!(v[0].args(), &vec!["a".to_string(), "b".to_string()]);
    assert_eq!(v[0].span(), Span::new(0, 4));
    assert!(matches!(v[0].kind(), InvocationKind::Custom(ref s) if s == "foo"));
    assert_eq!(rest, " rest");
}

#[test]
fn invocation_parse_two_and_builtin() {
    let (v, rest) = Invocation::parse("print!(x)json!(y)z", 3).unwrap();
    assert_eq!(v.len(), 2);
    assert!(matches!(v[0].kind(), InvocationKind::Builtin(BuiltinInvocations::Print)));
    assert!(matches!(v[1].kind(), InvocationKind::Builtin(BuiltinInvocations::Json)));
    assert_eq!(v[1].args(), &vec!["y".to_string()]);
    assert_eq!(v[1].span(), Span::new(3, 2));
    assert_eq!(rest, "z");
}

#[test]
fn invocation_name_starts_after_space() {
    let (v, _) = Invocation::parse("a foo!(x)", 0).unwrap();
    assert_eq!(v[0].ident(), " foo");
}

#[test]
fn invocation_parse_none() {
    let (v, rest) = Invocation::parse("plain text", 0).unwrap();
    assert!(v.is_empty());
    assert_eq!(rest, "plain text");
}

#[test]
fn invocation_parse_errors() {
    let e = Invocation::parse("foo!x", 0).unwrap_err();
    assert_eq!(e.msg().as_deref(), Some("Unexpected end of invocation. Expected '('."));
    assert_eq!(e.error_span(), Span::new(0, 5));
    let e = Invocation::parse("foo!(x", 0).unwrap_err();
    assert_eq!(e.msg().as_deref(), Some("Missing closing delimiter for (."));
}

#[test]
fn include_files_only() {
    let i = IncludeInvocation::parse_include_statement("include! a.lmda b.lmda").unwrap();
    assert_eq!(i.included_files(), &vec!["a.lmda".to_string(), "b.lmda".to_string()]);
    assert_eq!(i.included_items(), &None);
}

#[test]
fn include_with_items() {
    let i = IncludeInvocation::parse_include_statement("  include! a.lmda with x, y  ").unwrap();
    assert_eq!(i.included_files(), &vec!["a.lmda".to_string()]);
    assert_eq!(i.included_items(), &Some(vec!["x".to_string(), "y".to_string()]));
}

#[test]
fn include_errors() {
    let e = IncludeInvocation::parse_include_statement("include!").unwrap_err();
    assert_eq!(e.msg().as_deref(), Some("Must specify a file to include"));
    assert_eq!(e.error_span(), Span::new(0, 8));
    let e = IncludeInvocation::parse_include_statement("include! a b with x").unwrap_err();
    assert_eq!(e.msg().as_deref(), Some("Cannot batch include files when using with clause."));
    let e = IncludeInvocation::parse_include_statement("use a").unwrap_err();
    assert_eq!(e.msg().as_deref(), Some("include directive must have include!"));
    let e = IncludeInvocation::parse_include_statement("include! with x").unwrap_err();
    assert_eq!(e.msg().as_deref(), Some("Must specify a file to include"));
}

#[test]
fn include_shape_on_success() {
    for s in ["include! a", "include! a with b", "include! a b c", "include!  a"] {
        let i = IncludeInvocation::parse_include_statement(s).unwrap();
        assert!(!i.included_files().is_empty());
        if let Some(items) = i.included_items() {
            assert_eq!(i.included_files().len(), 1);
            assert!(!items.is_empty());
        }
    }
}

#[test]
fn module_tables_from_text() {
    let mut t = ModuleTables::new();
    t.generate_inclusion_map("x\ninclude! a.lmda\n include! b.lmda with q\ny").unwrap();
    assert_eq!(t.inclusions().len(), 2);
    assert_eq!(t.inclusions()[1].included_items(), &Some(vec!["q".to_string()]));
    t.generate_assignment_map("a:=x\nb\na:=y").unwrap();
    let a = VariableNode::parse_str("a", 0).unwrap();
    assert_eq!(t.assignments().get(&a).unwrap().to_string(), "y");
    assert!(t.generate_assignment_map("$").is_err());
}

#[test]
fn module_inclusion_stops_at_error() {
    let mut t = ModuleTables::new();
    let e = t.generate_inclusion_map("include! a\nuse include! b\ninclude! c").unwrap_err();
    assert_eq!(e.msg().as_deref(), Some("include directive must have include!"));
    assert_eq!(t.inclusions().len(), 1);
}

#[test]
fn invocation_error_spans_count_bytes() {
    let e = Invocation::parse("é!x", 0).unwrap_err();
    assert_eq!(e.error_span(), Span::new(0, 4));
    let e = Invocation::parse("é!(x", 0).unwrap_err();
    assert_eq!(e.error_span(), Span::new(0, 5));
    let e = IncludeInvocation::parse_include_statement("include! é b with x").unwrap_err();
    assert_eq!(e.msg().as_deref(), Some("Cannot batch include files when using with clause."));
    assert_eq!(e.error_span(), Span::new(0, 20));
}

#[test]
fn invocation_cuts_at_bytes() {
    let (v, rest) = Invocation::parse("é!(a)b", 0).unwrap();
    assert_eq!(v[0].ident(), "é");
    assert_eq!(v[0].args(), &vec!["a".to_string()]);
    assert_eq!(rest, "b");
}
