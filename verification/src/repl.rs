//! The interactive session: commands (`/setopt`, `/getopt`, `/help`,
//! `/quit`) and program lines, one line at a time. Reading and writing the
//! terminal is left to the caller; each step takes a line and gives the
//! text to show.

use vstd::prelude::*;

use crate::interpreter::{first_stuck, interpret_opts_ok, interpret_partial, opt_flag, program_run};
use crate::opts::{default_opts_view, opt_index, string_json, CreateDefaultOpts, DefaultOpts, OptEntryV, Opts};
use crate::parsing::{
    assignment_bindings, collect_results, copy_lambdas, lambdas_view, results_view, spec_parse_program, Lambda,
    LambdaV, UnwrapExpressions,
};
use crate::text::{
    append_str, chars_of, copy_string, debug_str, debug_text, lemma_split_on_len, other_than, lowercase, push_char, remove_char, split_on,
    split_window, str_eq, str_to_lowercase, strings_view, trim, trim_window,
};

verus! {

/// What the session shows when it starts.
pub const HELLO_MESSAGE: &'static str = "Welcome to the Kaleidoscope repl. Use /help for help or /quit to quit.";

/// The commands of the session (besides `/quit`).
#[derive(Debug, Clone, Copy, PartialEq, Eq, Structural)]
pub enum CmdKind {
    SetOpt,
    GetOpt,
    Help,
}

/// The name of a command, as it is displayed.
pub open spec fn cmd_name(k: CmdKind) -> Seq<char> {
    match k {
        CmdKind::SetOpt => "SetOpt"@,
        CmdKind::GetOpt => "GetOpt"@,
        CmdKind::Help => "Help"@,
    }
}

/// The command that `word` names: compared in lower case, with every `/`
/// of `word` removed; the first command in declaration order wins.
pub open spec fn cmd_kind_of(word: Seq<char>) -> Option<CmdKind> {
    let w = remove_char(lowercase(word), '/');
    if lowercase(cmd_name(CmdKind::SetOpt)) == w {
        Some(CmdKind::SetOpt)
    } else if lowercase(cmd_name(CmdKind::GetOpt)) == w {
        Some(CmdKind::GetOpt)
    } else if lowercase(cmd_name(CmdKind::Help)) == w {
        Some(CmdKind::Help)
    } else {
        None
    }
}

/// The words of a command line: the trimmed line split at each space.
pub open spec fn cmd_words(cmd: Seq<char>) -> Seq<Seq<char>> {
    split_on(trim(cmd), ' ')
}

/// A command line read: its command and the words after the first.
pub open spec fn spec_parse_cmd(cmd: Seq<char>) -> Option<(CmdKind, Seq<Seq<char>>)> {
    match cmd_kind_of(cmd_words(cmd)[0]) {
        Some(k) => Some((k, cmd_words(cmd).drop_first())),
        None => None,
    }
}

/// `s` without its `/` characters.
fn remove_slashes(s: &String) -> (r: String)
    ensures
        r@ == remove_char(s@, '/'),
{
    let cs = chars_of(s.as_str());
    let mut r = String::new();
    let mut i: usize = 0;
    assert(cs@.take(0) =~= Seq::<char>::empty());
    proof {
        reveal(Seq::filter);
    }
    while i < cs.len()
        invariant
            0 <= i <= cs@.len(),
            cs@ == s@,
            r@ == remove_char(cs@.take(i as int), '/'),
        decreases cs@.len() - i,
    {
        assert(cs@.take(i + 1) =~= cs@.take(i as int).push(cs@[i as int]));
        proof {
            cs@.take(i as int).lemma_filter_push(cs@[i as int], other_than('/'));
        }
        if cs[i] != '/' {
            push_char(&mut r, cs[i]);
        }
        i = i + 1;
    }
    assert(cs@.take(i as int) =~= cs@);
    r
}

impl CmdKind {
    /// The name of this command.
    pub fn name(&self) -> (r: &'static str)
        ensures
            r@ == cmd_name(*self),
    {
        match self {
            CmdKind::SetOpt => "SetOpt",
            CmdKind::GetOpt => "GetOpt",
            CmdKind::Help => "Help",
        }
    }

    /// The command that `value` names (see `cmd_kind_of`).
    pub fn try_from(value: &str) -> (r: Result<Self, ()>)
        ensures
            match cmd_kind_of(value@) {
                Some(k) => r == Ok::<Self, ()>(k),
                None => r is Err,
            },
    {
        let lower = str_to_lowercase(value);
        let w = remove_slashes(&lower);
        let a = str_to_lowercase(CmdKind::SetOpt.name());
        if str_eq(a.as_str(), w.as_str()) {
            return Ok(CmdKind::SetOpt);
        }
        let b = str_to_lowercase(CmdKind::GetOpt.name());
        if str_eq(b.as_str(), w.as_str()) {
            return Ok(CmdKind::GetOpt);
        }
        let c = str_to_lowercase(CmdKind::Help.name());
        if str_eq(c.as_str(), w.as_str()) {
            return Ok(CmdKind::Help);
        }
        Err(())
    }
}

/// A command line: the command and its arguments.
pub struct Cmd {
    pub kind: CmdKind,
    pub args: Vec<String>,
}

impl Cmd {
    /// Reads a command line (see `spec_parse_cmd`).
    pub fn try_from(value: &str) -> (r: Result<Cmd, ()>)
        ensures
            match spec_parse_cmd(value@) {
                Some((k, args)) => r matches Ok(c) && c.kind == k && strings_view(c.args@) == args,
                None => r is Err,
            },
    {
        let cs = chars_of(value);
        let (a, b) = trim_window(&cs, 0, cs.len());
        assert(cs@.subrange(0, cs@.len() as int) =~= value@);
        let mut words = split_window(&cs, a, b, ' ');
        proof {
            lemma_split_on_len(trim(value@), ' ');
        }
        let ghost all = strings_view(words@);
        assert(all[0] == words@[0]@);
        let kind = match CmdKind::try_from(words[0].as_str()) {
            Ok(k) => k,
            Err(_) => {
                return Err(());
            },
        };
        words.remove(0);
        assert(strings_view(words@) =~= all.drop_first());
        Ok(Cmd { kind, args: words })
    }
}

/// The `Debug` text of a list of strings: `[` then each string's `Debug`
/// text, separated by `, `, then `]`.
pub open spec fn debug_list(v: Seq<Seq<char>>) -> Seq<char> {
    "["@ + debug_items(v) + "]"@
}

pub open spec fn debug_items(v: Seq<Seq<char>>) -> Seq<char>
    decreases v.len(),
{
    if v.len() == 0 {
        Seq::empty()
    } else if v.len() == 1 {
        debug_text(v[0])
    } else {
        debug_items(v.drop_last()) + ", "@ + debug_text(v.last())
    }
}

/// The line that describes one option.
pub open spec fn option_line(e: OptEntryV) -> Seq<char> {
    "Option: "@ + e.name + ", current = "@ + debug_text(e.current) + ", default = "@ + e.default_value
        + ", valid options = "@ + debug_list(e.valid_options) + "\n"@
}

/// The lines that describe the options `s`, in order.
pub open spec fn options_listing(s: Seq<OptEntryV>) -> Seq<char>
    decreases s.len(),
{
    if s.len() == 0 {
        Seq::empty()
    } else {
        options_listing(s.drop_last()) + option_line(s.last())
    }
}

/// What `/help` shows.
pub open spec fn help_text() -> Seq<char> {
    "\nPossible Commands:\n/quit\n"@ + lowercase(cmd_name(CmdKind::SetOpt)) + "\n"@ + lowercase(
        cmd_name(CmdKind::GetOpt),
    ) + "\n"@ + lowercase(cmd_name(CmdKind::Help)) + "\n"@
}

pub open spec fn msg_invalid_option() -> Seq<char> {
    "Invalid option! Use /setopt help for a list of options.\n"@
}

/// Whether a command line can be run: `/setopt` and `/getopt` need an
/// argument.
pub open spec fn cmd_args_ok(cmd: Seq<char>) -> bool {
    match spec_parse_cmd(cmd) {
        Some((k, args)) => (k == CmdKind::SetOpt || k == CmdKind::GetOpt) ==> args.len() >= 1,
        None => true,
    }
}

/// The option listing shown when the first argument is `help`.
pub open spec fn listing_if_help(arg: Seq<char>, opts: Seq<OptEntryV>) -> Seq<char> {
    if trim(arg) == "help"@ {
        options_listing(opts)
    } else {
        Seq::empty()
    }
}

/// What `/setopt` with the arguments `args` shows, and the options after
/// it.
pub open spec fn setopt_result(args: Seq<Seq<char>>, opts: Seq<OptEntryV>) -> (Seq<char>, Seq<OptEntryV>) {
    let listing = listing_if_help(args[0], opts);
    match opt_index(opts, args[0]) {
        None => (listing + msg_invalid_option(), opts),
        Some(i) => if args.len() != 2 {
            (listing + "/setopt requires 2 arguments per option.\n"@, opts)
        } else if !opts[i].valid_options.contains(args[1]) {
            (listing + "option, "@ + args[1] + ", is not valid for entry: "@ + args[0] + "\n"@, opts)
        } else {
            (listing, opts.update(i, OptEntryV { current: string_json(args[1]), ..opts[i] }))
        },
    }
}

/// What `/getopt` with the arguments `args` shows.
pub open spec fn getopt_text(args: Seq<Seq<char>>, opts: Seq<OptEntryV>) -> Seq<char> {
    let listing = listing_if_help(args[0], opts);
    match opt_index(opts, args[0]) {
        None => listing + msg_invalid_option(),
        Some(i) => listing + (if args.len() != 1 {
            "/getopt requires only 1 argument per option.\n"@
        } else {
            Seq::empty()
        }) + args[0] + " = "@ + opts[i].current + "\n"@,
    }
}

/// What running the command line `cmd` shows, and the options after it.
pub open spec fn cmd_result(cmd: Seq<char>, opts: Seq<OptEntryV>) -> (Seq<char>, Seq<OptEntryV>) {
    match spec_parse_cmd(cmd) {
        None => ("Invalid command: '"@ + trim(cmd) + "', cmd. use /help for help.\n"@, opts),
        Some((CmdKind::Help, _)) => (help_text(), opts),
        Some((CmdKind::SetOpt, args)) => setopt_result(args, opts),
        Some((CmdKind::GetOpt, args)) => (getopt_text(args, opts), opts),
    }
}

/// Appends the `Debug` text of the list `v` to `out`.
fn write_debug_list(v: &Vec<String>, out: &mut String)
    ensures
        final(out)@ == old(out)@ + debug_list(strings_view(v@)),
{
    let ghost sv = strings_view(v@);
    let ghost o = out@;
    append_str(out, "[");
    let mut i: usize = 0;
    assert(sv.take(0) =~= Seq::<Seq<char>>::empty());
    while i < v.len()
        invariant
            0 <= i <= v@.len(),
            sv == strings_view(v@),
            out@ == o + "["@ + debug_items(sv.take(i as int)),
        decreases v@.len() - i,
    {
        if i > 0 {
            append_str(out, ", ");
        }
        let d = debug_str(v[i].as_str());
        append_str(out, d.as_str());
        assert(sv.take(i + 1).drop_last() =~= sv.take(i as int));
        assert(sv.take(i + 1).last() == v@[i as int]@);
        assert(out@ =~= o + "["@ + debug_items(sv.take(i + 1)));
        i = i + 1;
    }
    assert(sv.take(i as int) =~= sv);
    append_str(out, "]");
    assert(out@ =~= o + debug_list(sv));
}

/// Appends the lines that describe the options to `out`.
fn write_options_listing(opts: &Opts, out: &mut String)
    ensures
        final(out)@ == old(out)@ + options_listing(opts@),
{
    let ghost o = out@;
    let mut i: usize = 0;
    assert(opts@.take(0) =~= Seq::<OptEntryV>::empty());
    while i < opts.entries.len()
        invariant
            0 <= i <= opts.entries@.len(),
            opts@.len() == opts.entries@.len(),
            out@ == o + options_listing(opts@.take(i as int)),
        decreases opts.entries@.len() - i,
    {
        let e = &opts.entries[i];
        let ghost ev = opts@[i as int];
        assert(ev == e@);
        let ghost before = out@;
        append_str(out, "Option: ");
        append_str(out, e.name.as_str());
        append_str(out, ", current = ");
        let cur = debug_str(e.current.as_str());
        append_str(out, cur.as_str());
        append_str(out, ", default = ");
        append_str(out, e.default_value.as_str());
        append_str(out, ", valid options = ");
        write_debug_list(&e.valid_options, out);
        append_str(out, "\n");
        assert(out@ =~= before + option_line(ev));
        assert(opts@.take(i + 1).drop_last() =~= opts@.take(i as int));
        i = i + 1;
    }
    assert(opts@.take(i as int) =~= opts@);
}

/// Whether `v` holds `x`.
fn strings_contain(v: &Vec<String>, x: &String) -> (r: bool)
    ensures
        r == strings_view(v@).contains(x@),
{
    let mut i: usize = 0;
    while i < v.len()
        invariant
            0 <= i <= v@.len(),
            forall|j: int| 0 <= j < i ==> v@[j]@ != x@,
        decreases v@.len() - i,
    {
        if str_eq(v[i].as_str(), x.as_str()) {
            assert(strings_view(v@)[i as int] == x@);
            return true;
        }
        i = i + 1;
    }
    assert forall|j: int| 0 <= j < strings_view(v@).len() implies strings_view(v@)[j] != x@ by {
        assert(strings_view(v@)[j] == v@[j]@);
    }
    false
}

/// Runs `/setopt` with the arguments `args` (see `setopt_result`).
fn run_setopt(args: &Vec<String>, out: &mut String, opts: &mut Opts)
    requires
        args@.len() >= 1,
    ensures
        final(out)@ == old(out)@ + setopt_result(strings_view(args@), old(opts)@).0,
        final(opts)@ == setopt_result(strings_view(args@), old(opts)@).1,
{
    let ghost o = out@;
    let ghost av = strings_view(args@);
    assert(av[0] == args@[0]@);
    write_listing_if_help(&args[0], opts, out);
    match opts.index_of(args[0].as_str()) {
        None => {
            append_str(out, "Invalid option! Use /setopt help for a list of options.\n");
            assert(out@ =~= o + setopt_result(av, old(opts)@).0);
        },
        Some(i) => {
            if args.len() != 2 {
                append_str(out, "/setopt requires 2 arguments per option.\n");
                assert(out@ =~= o + setopt_result(av, old(opts)@).0);
                return;
            }
            assert(av[1] == args@[1]@);
            assert(opts@[i as int].valid_options == strings_view(opts.entries@[i as int].valid_options@));
            if !strings_contain(&opts.entries[i].valid_options, &args[1]) {
                append_str(out, "option, ");
                append_str(out, args[1].as_str());
                append_str(out, ", is not valid for entry: ");
                append_str(out, args[0].as_str());
                append_str(out, "\n");
                assert(out@ =~= o + setopt_result(av, old(opts)@).0);
                return;
            }
            let _ = opts.set_current(args[0].as_str(), args[1].as_str());
            assert(out@ =~= o + setopt_result(av, old(opts)@).0);
        },
    }
}

/// Runs `/getopt` with the arguments `args` (see `getopt_text`).
fn run_getopt(args: &Vec<String>, out: &mut String, opts: &Opts)
    requires
        args@.len() >= 1,
    ensures
        final(out)@ == old(out)@ + getopt_text(strings_view(args@), opts@),
{
    let ghost o = out@;
    let ghost av = strings_view(args@);
    assert(av[0] == args@[0]@);
    write_listing_if_help(&args[0], opts, out);
    match opts.index_of(args[0].as_str()) {
        None => {
            append_str(out, "Invalid option! Use /setopt help for a list of options.\n");
            assert(out@ =~= o + getopt_text(av, opts@));
        },
        Some(i) => {
            if args.len() != 1 {
                append_str(out, "/getopt requires only 1 argument per option.\n");
            }
            append_str(out, args[0].as_str());
            append_str(out, " = ");
            append_str(out, opts.entries[i].current.as_str());
            append_str(out, "\n");
            assert(opts@[i as int].current == opts.entries@[i as int].current@);
            assert(out@ =~= o + getopt_text(av, opts@));
        },
    }
}

/// Appends what `/help` shows to `out`.
fn write_help(out: &mut String)
    ensures
        final(out)@ == old(out)@ + help_text(),
{
    let ghost o = out@;
    append_str(out, "\nPossible Commands:\n/quit\n");
    let a = str_to_lowercase(CmdKind::SetOpt.name());
    append_str(out, a.as_str());
    append_str(out, "\n");
    let b = str_to_lowercase(CmdKind::GetOpt.name());
    append_str(out, b.as_str());
    append_str(out, "\n");
    let h = str_to_lowercase(CmdKind::Help.name());
    append_str(out, h.as_str());
    append_str(out, "\n");
    assert(out@ =~= o + help_text());
}

/// Runs the command line `cmd` (see `cmd_result`): writes what it shows
/// to `out` and applies it to `opts`.
pub fn run_cmd(cmd: &str, out: &mut String, opts: &mut Opts)
    requires
        cmd_args_ok(cmd@),
    ensures
        final(out)@ == old(out)@ + cmd_result(cmd@, old(opts)@).0,
        final(opts)@ == cmd_result(cmd@, old(opts)@).1,
{
    let ghost o = out@;
    let c = match Cmd::try_from(cmd) {
        Ok(c) => c,
        Err(_) => {
            append_str(out, "Invalid command: '");
            let cs = chars_of(cmd);
            let (a, b) = trim_window(&cs, 0, cs.len());
            assert(cs@.subrange(0, cs@.len() as int) =~= cmd@);
            let t = crate::text::string_from_chars(&cs, a, b);
            append_str(out, t.as_str());
            append_str(out, "', cmd. use /help for help.\n");
            assert(out@ =~= o + cmd_result(cmd@, old(opts)@).0);
            return;
        },
    };
    match c.kind {
        CmdKind::Help => write_help(out),
        CmdKind::SetOpt => run_setopt(&c.args, out, opts),
        CmdKind::GetOpt => run_getopt(&c.args, out, opts),
    }
}

/// Appends the option listing to `out` when `arg`, trimmed, is `help`.
fn write_listing_if_help(arg: &String, opts: &Opts, out: &mut String)
    ensures
        final(out)@ == old(out)@ + listing_if_help(arg@, opts@),
{
    let cs = chars_of(arg.as_str());
    let (a, b) = trim_window(&cs, 0, cs.len());
    assert(cs@.subrange(0, cs@.len() as int) =~= arg@);
    let t = crate::text::string_from_chars(&cs, a, b);
    if str_eq(t.as_str(), "help") {
        write_options_listing(opts, out);
    } else {
        assert(out@ =~= old(out)@ + Seq::<char>::empty());
    }
}

/// The state of a session: its options, the lines read so far (trimmed),
/// and the program expressions entered so far.
pub struct Repl {
    pub(crate) opts: Opts,
    pub(crate) history: Vec<String>,
    pub(crate) expressions: Vec<Lambda>,
}

/// The content of a session's state.
pub struct ReplV {
    pub opts: Seq<OptEntryV>,
    pub history: Seq<Seq<char>>,
    pub expressions: Seq<LambdaV>,
}

impl View for Repl {
    type V = ReplV;

    open(crate) spec fn view(&self) -> ReplV {
        ReplV {
            opts: self.opts@,
            history: strings_view(self.history@),
            expressions: lambdas_view(self.expressions@),
        }
    }
}

/// What the session does after a line.
#[derive(Debug, Clone, Copy, PartialEq, Eq, Structural)]
pub enum ReplAction {
    /// Read the next line.
    Continue,
    /// The session ends (`/quit`).
    Quit,
    /// The line cannot be handled: `/setopt` or `/getopt` without an
    /// argument, or a program whose options do not hold the booleans that
    /// running it reads (the lines before the first that needs one have
    /// run).
    Abort,
}

/// What a session in state `s` does with the line `line`: the new state,
/// the text shown, and what comes next. A program line is parsed; on an
/// error `Parsing Error` is shown; otherwise its expressions are added to
/// the session's, and the whole program is run again with at most `fuel`
/// reduction steps per statement.
pub open spec fn repl_step(s: ReplV, line: Seq<char>, fuel: nat) -> (ReplV, Seq<char>, ReplAction) {
    let l = trim(line);
    let s1 = ReplV { history: s.history.push(l), ..s };
    if l == "/quit"@ {
        (s1, Seq::empty(), ReplAction::Quit)
    } else if l.len() > 0 && l[0] == '/' {
        if !cmd_args_ok(l) {
            (s1, Seq::empty(), ReplAction::Abort)
        } else {
            (ReplV { opts: cmd_result(l, s.opts).1, ..s1 }, cmd_result(l, s.opts).0, ReplAction::Continue)
        }
    } else {
        match collect_results(spec_parse_program(l)) {
            Err(_) => (s1, "Parsing Error"@, ReplAction::Continue),
            Ok(ls) => {
                let h = s.expressions + ls;
                let s2 = ReplV { expressions: h, ..s1 };
                let text = program_run(
                    h.take(first_stuck(h, s.opts) as int),
                    assignment_bindings(h),
                    opt_flag(s.opts, DefaultOpts::ShouldPrintEveryLine) == Some(true),
                    opt_flag(s.opts, DefaultOpts::ShouldCaptureAllChanges) == Some(true),
                    fuel,
                ).0;
                if !interpret_opts_ok(h, s.opts) {
                    (s2, text, ReplAction::Abort)
                } else {
                    (s2, text, ReplAction::Continue)
                }
            },
        }
    }
}

/// Every line is recorded, trimmed; `/quit` ends the session showing
/// nothing; a command never changes the program entered so far, and only
/// `/setopt` changes the options; a line that does not parse changes
/// neither the options nor the program.
pub proof fn lemma_repl_step(s: ReplV, line: Seq<char>, fuel: nat)
    ensures
        ({
            let (t, text, action) = repl_step(s, line, fuel);
            let l = trim(line);
            &&& t.history == s.history.push(l)
            &&& l == "/quit"@ ==> action == ReplAction::Quit && text.len() == 0 && t.opts == s.opts
                && t.expressions == s.expressions
            &&& action == ReplAction::Quit ==> l == "/quit"@
            &&& (l.len() > 0 && l[0] == '/') ==> t.expressions == s.expressions
            &&& ((l.len() > 0 && l[0] == '/') && !(spec_parse_cmd(l) matches Some((CmdKind::SetOpt, _)))) ==> t.opts
                == s.opts
            &&& !(l.len() > 0 && l[0] == '/') ==> t.opts == s.opts
            &&& (!(l.len() > 0 && l[0] == '/') && collect_results(spec_parse_program(l)) is Err) ==> t.expressions
                == s.expressions && text == "Parsing Error"@
        }),
{
    let l = trim(line);
    reveal_strlit("/quit");
    assert("/quit"@[0] == '/');
    if l.len() > 0 && l[0] == '/' && l != "/quit"@ && cmd_args_ok(l) {
        match spec_parse_cmd(l) {
            Some((CmdKind::SetOpt, _)) => {},
            _ => {},
        }
    }
}

impl Repl {
    /// A new session: default options, nothing read yet.
    pub fn new() -> (r: Self)
        ensures
            r@ == (ReplV {
                opts: default_opts_view(),
                history: Seq::empty(),
                expressions: Seq::empty(),
            }),
    {
        let r = Repl { opts: Opts::create_default_options(), history: Vec::new(), expressions: Vec::new() };
        assert(r@.history =~= Seq::<Seq<char>>::empty());
        assert(r@.expressions =~= Seq::<LambdaV>::empty());
        r
    }

    /// The session's options.
    pub fn opts(&self) -> (r: &Opts)
        ensures
            r@ == self@.opts,
    {
        &self.opts
    }

    /// The lines read so far, trimmed.
    pub fn history(&self) -> (r: &Vec<String>)
        ensures
            strings_view(r@) == self@.history,
    {
        &self.history
    }

    /// The program expressions entered so far.
    pub fn expressions(&self) -> (r: &Vec<Lambda>)
        ensures
            lambdas_view(r@) == self@.expressions,
    {
        &self.expressions
    }

    /// Handles one line (see `repl_step`), writing what it shows to `out`.
    pub fn handle_line(&mut self, line: &str, out: &mut String, max_reductions: usize) -> (r: ReplAction)
        requires
            4 * line@.len() + 8 <= usize::MAX,
        ensures
            ({
                let (s, text, action) = repl_step(old(self)@, line@, max_reductions as nat);
                &&& final(self)@ == s
                &&& final(out)@ == old(out)@ + text
                &&& r == action
            }),
    {
        let cs = chars_of(line);
        let (a, b) = trim_window(&cs, 0, cs.len());
        assert(cs@.subrange(0, cs@.len() as int) =~= line@);
        let l = crate::text::string_from_chars(&cs, a, b);
        let ghost o = out@;
        let ghost hist = self@.history;
        self.history.push(copy_string(&l));
        assert(strings_view(self.history@) =~= hist.push(l@));
        if str_eq(l.as_str(), "/quit") {
            assert(out@ =~= o + Seq::<char>::empty());
            return ReplAction::Quit;
        }
        let lc = chars_of(l.as_str());
        if lc.len() > 0 && lc[0] == '/' {
            if !cmd_can_run(l.as_str()) {
                assert(out@ =~= o + Seq::<char>::empty());
                return ReplAction::Abort;
            }
            run_cmd(l.as_str(), out, &mut self.opts);
            return ReplAction::Continue;
        }
        proof {
            crate::text::lemma_trim(line@);
        }
        let parsed = Lambda::parse(l.as_str());
        proof {
            assert(results_view(parsed@) =~= spec_parse_program(l@));
        }
        match parsed.unwrap_expressions() {
            Err(e) => {
                let t = e.to_string();
                append_str(out, t.as_str());
                ReplAction::Continue
            },
            Ok(mut ls) => {
                let ghost before = lambdas_view(self.expressions@);
                let ghost added = lambdas_view(ls@);
                self.expressions.append(&mut ls);
                assert(lambdas_view(self.expressions@) =~= before + added);
                let program = copy_lambdas(&self.expressions);
                match interpret_partial(program, out, Some(&self.opts), max_reductions) {
                    Some(_) => ReplAction::Continue,
                    None => ReplAction::Abort,
                }
            },
        }
    }
}

/// Whether the command line `cmd` can be run (see `cmd_args_ok`).
pub fn cmd_can_run(cmd: &str) -> (r: bool)
    ensures
        r == cmd_args_ok(cmd@),
{
    match Cmd::try_from(cmd) {
        Err(_) => true,
        Ok(c) => match c.kind {
            CmdKind::Help => true,
            _ => c.args.len() >= 1,
        },
    }
}

} // verus!
