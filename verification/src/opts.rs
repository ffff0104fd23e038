//! Interpreter options. Each value is held as its JSON text, written and
//! read with `serde_json`.

use vstd::prelude::*;

use crate::text::{copy_string, string_of, strings_view};

verus! {

#[verifier::external_type_specification]
#[verifier::external_body]
pub struct ExJsonError(serde_json::Error);

/// JSON whitespace: space, line feed, tab and carriage return.
pub open spec fn is_json_ws(c: char) -> bool {
    c == ' ' || c == '\n' || c == '\t' || c == '\r'
}

/// Number of leading JSON whitespace characters of `s`.
pub open spec fn json_ws_prefix(s: Seq<char>) -> nat
    decreases s.len(),
{
    if s.len() > 0 && is_json_ws(s[0]) {
        1 + json_ws_prefix(s.drop_first())
    } else {
        0
    }
}

/// Number of trailing JSON whitespace characters of `s`.
pub open spec fn json_ws_suffix(s: Seq<char>) -> nat
    decreases s.len(),
{
    if s.len() > 0 && is_json_ws(s.last()) {
        1 + json_ws_suffix(s.drop_last())
    } else {
        0
    }
}

pub open spec fn true_text() -> Seq<char> {
    seq!['t', 'r', 'u', 'e']
}

pub open spec fn false_text() -> Seq<char> {
    seq!['f', 'a', 'l', 's', 'e']
}

/// The boolean that the JSON text `s` holds: `true` or `false` with JSON
/// whitespace around it, and nothing else.
pub open spec fn json_bool(s: Seq<char>) -> Option<bool> {
    let a = json_ws_prefix(s) as int;
    let core = if a == s.len() {
        Seq::empty()
    } else {
        s.subrange(a, s.len() - json_ws_suffix(s))
    };
    if core == true_text() {
        Some(true)
    } else if core == false_text() {
        Some(false)
    } else {
        None
    }
}

/// The JSON text of a boolean.
pub open spec fn bool_json(b: bool) -> Seq<char> {
    if b {
        true_text()
    } else {
        false_text()
    }
}

/// The JSON text of a boolean reads back as that boolean.
pub proof fn lemma_json_bool_roundtrip(b: bool)
    ensures
        json_bool(bool_json(b)) == Some(b),
{
    let s = bool_json(b);
    assert(json_ws_prefix(s) == 0);
    assert(json_ws_suffix(s) == 0);
    assert(s.subrange(0, s.len() as int) =~= s);
    assert(true_text() != false_text());
}

/// A lowercase hexadecimal digit.
pub open spec fn hex_digit(n: u32) -> char {
    if n < 10 {
        (('0' as u32) + n) as char
    } else {
        (('a' as u32) + n - 10) as char
    }
}

/// How a character is written inside a JSON string.
pub open spec fn json_escape(c: char) -> Seq<char> {
    if c == '"' {
        seq!['\\', '"']
    } else if c == '\\' {
        seq!['\\', '\\']
    } else if c == '\x08' {
        seq!['\\', 'b']
    } else if c == '\x0C' {
        seq!['\\', 'f']
    } else if c == '\n' {
        seq!['\\', 'n']
    } else if c == '\r' {
        seq!['\\', 'r']
    } else if c == '\t' {
        seq!['\\', 't']
    } else if (c as u32) < 0x20 {
        seq!['\\', 'u', '0', '0', hex_digit((c as u32) / 16), hex_digit((c as u32) % 16)]
    } else {
        seq![c]
    }
}

/// The characters of `s`, each escaped.
pub open spec fn json_escape_all(s: Seq<char>) -> Seq<char>
    decreases s.len(),
{
    if s.len() == 0 {
        Seq::empty()
    } else {
        json_escape_all(s.drop_last()) + json_escape(s.last())
    }
}

/// The JSON text of a string: the escaped characters in double quotes.
pub open spec fn string_json(s: Seq<char>) -> Seq<char> {
    seq!['"'] + json_escape_all(s) + seq!['"']
}

/// Calls `serde_json::from_str::<bool>`: it reads `true` or `false`
/// surrounded by JSON whitespace, and fails on anything else.
#[verifier::external_body]
fn bool_from_json(text: &str) -> (r: Result<bool, serde_json::Error>)
    ensures
        match r {
            Ok(b) => json_bool(text@) == Some(b),
            Err(_) => json_bool(text@) is None,
        },
{
    serde_json::from_str::<bool>(text)
}

/// Calls `serde_json::to_string` on a `bool`: `true` or `false`; writing
/// to memory does not fail.
#[verifier::external_body]
fn bool_to_json(b: bool) -> (r: Result<String, serde_json::Error>)
    ensures
        match r {
            Ok(s) => s@ == bool_json(b),
            Err(_) => false,
        },
{
    serde_json::to_string(&b)
}

/// Calls `serde_json::to_string` on a `str`: the text in double quotes
/// with `"`, `\` and the control characters escaped; writing to memory does
/// not fail.
#[verifier::external_body]
fn str_to_json(s: &str) -> (r: Result<String, serde_json::Error>)
    ensures
        match r {
            Ok(t) => t@ == string_json(s@),
            Err(_) => false,
        },
{
    serde_json::to_string(s)
}

/// The JSON text of `b`.
fn json_of_bool(b: bool) -> (r: String)
    ensures
        r@ == bool_json(b),
{
    match bool_to_json(b) {
        Ok(s) => s,
        Err(_) => {
            proof {
                assert(false);
            }
            String::new()
        },
    }
}

/// One option: its name, the values it may take, its default and its
/// current value, each as JSON text.
#[derive(Debug, Clone)]
pub struct OptEntry {
    pub(crate) name: String,
    pub(crate) valid_options: Vec<String>,
    pub(crate) default_value: String,
    pub(crate) current: String,
}

/// The content of an option.
pub struct OptEntryV {
    pub name: Seq<char>,
    pub valid_options: Seq<Seq<char>>,
    pub default_value: Seq<char>,
    pub current: Seq<char>,
}

impl View for OptEntry {
    type V = OptEntryV;

    open(crate) spec fn view(&self) -> OptEntryV {
        OptEntryV {
            name: self.name@,
            valid_options: strings_view(self.valid_options@),
            default_value: self.default_value@,
            current: self.current@,
        }
    }
}

impl OptEntry {
    /// An option named `name` with the given valid values and default; its
    /// current value is `current`, or the default when that is `None`.
    pub fn new(name: &str, valid_options: Vec<bool>, default_value: bool, current: Option<bool>) -> (r:
        Self)
        ensures
            r@.name == name@,
            r@.valid_options == valid_options@.map_values(|b: bool| bool_json(b)),
            r@.default_value == bool_json(default_value),
            r@.current == bool_json(
                match current {
                    Some(c) => c,
                    None => default_value,
                },
            ),
    {
        let d = json_of_bool(default_value);
        let mut valid: Vec<String> = Vec::new();
        let mut i: usize = 0;
        while i < valid_options.len()
            invariant
                0 <= i <= valid_options@.len(),
                strings_view(valid@) == valid_options@.take(i as int).map_values(|b: bool| bool_json(b)),
            decreases valid_options@.len() - i,
        {
            let ghost before = valid@;
            let t = json_of_bool(valid_options[i]);
            valid.push(t);
            assert(strings_view(valid@) =~= strings_view(before).push(bool_json(valid_options@[i as int])));
            assert(valid_options@.take(i + 1).map_values(|b: bool| bool_json(b)) =~= valid_options@.take(
                i as int,
            ).map_values(|b: bool| bool_json(b)).push(bool_json(valid_options@[i as int])));
            i = i + 1;
        }
        assert(valid_options@.take(i as int) =~= valid_options@);
        let cur = match current {
            Some(c) => json_of_bool(c),
            None => copy_string(&d),
        };
        OptEntry { name: string_of(name), valid_options: valid, current: cur, default_value: d }
    }

    pub fn get_name(&self) -> (r: &String)
        ensures
            r@ == self@.name,
    {
        &self.name
    }

    /// The valid values, as JSON text.
    pub fn valid_options_json(&self) -> (r: &Vec<String>)
        ensures
            strings_view(r@) == self@.valid_options,
    {
        &self.valid_options
    }

    /// The default value, as JSON text.
    pub fn default_json(&self) -> (r: &String)
        ensures
            r@ == self@.default_value,
    {
        &self.default_value
    }

    /// The current value, as JSON text.
    pub fn current_json(&self) -> (r: &String)
        ensures
            r@ == self@.current,
    {
        &self.current
    }

    /// The valid values read as booleans; an error if one is not a boolean.
    pub fn get_valid_options_as(&self) -> (r: Result<Vec<bool>, serde_json::Error>)
        ensures
            match r {
                Ok(v) => v@.len() == self@.valid_options.len() && forall|k: int|
                    0 <= k < v@.len() ==> json_bool(self@.valid_options[k]) == Some(#[trigger] v@[k]),
                Err(_) => exists|k: int|
                    0 <= k < self@.valid_options.len() && json_bool(#[trigger] self@.valid_options[k]) is None
                        && forall|j: int| 0 <= j < k ==> json_bool(#[trigger] self@.valid_options[j]) is Some,
            },
    {
        let mut out: Vec<bool> = Vec::new();
        let mut i: usize = 0;
        while i < self.valid_options.len()
            invariant
                0 <= i <= self.valid_options@.len(),
                out@.len() == i,
                forall|k: int|
                    0 <= k < i ==> json_bool(self@.valid_options[k]) == Some(#[trigger] out@[k]),
            decreases self.valid_options@.len() - i,
        {
            assert(self@.valid_options[i as int] == self.valid_options@[i as int]@);
            match bool_from_json(self.valid_options[i].as_str()) {
                Ok(b) => {
                    out.push(b);
                },
                Err(e) => {
                    assert forall|j: int| 0 <= j < i implies json_bool(
                        #[trigger] self@.valid_options[j],
                    ) is Some by {
                        assert(json_bool(self@.valid_options[j]) == Some(out@[j]));
                    }
                    assert(json_bool(self@.valid_options[i as int]) is None);
                    return Err(e);
                },
            }
            i = i + 1;
        }
        Ok(out)
    }

    /// The default value read as a boolean.
    pub fn get_default_as(&self) -> (r: Result<bool, serde_json::Error>)
        ensures
            match r {
                Ok(b) => json_bool(self@.default_value) == Some(b),
                Err(_) => json_bool(self@.default_value) is None,
            },
    {
        bool_from_json(self.default_value.as_str())
    }

    /// The current value read as a boolean.
    pub fn get_current_as(&self) -> (r: Result<bool, serde_json::Error>)
        ensures
            match r {
                Ok(b) => json_bool(self@.current) == Some(b),
                Err(_) => json_bool(self@.current) is None,
            },
    {
        bool_from_json(self.current.as_str())
    }

    /// Sets the current value to the boolean `opt`.
    pub fn set_current_bool(&mut self, opt: bool) -> (r: Result<(), serde_json::Error>)
        ensures
            r is Ok,
            final(self)@ == (OptEntryV { current: bool_json(opt), ..old(self)@ }),
    {
        self.current = json_of_bool(opt);
        Ok(())
    }

    /// Sets the current value to the string `opt` (stored as a JSON string).
    pub fn set_current(&mut self, opt: &str) -> (r: Result<(), serde_json::Error>)
        ensures
            r is Ok,
            final(self)@ == (OptEntryV { current: string_json(opt@), ..old(self)@ }),
    {
        match str_to_json(opt) {
            Ok(v) => {
                self.current = v;
                Ok(())
            },
            Err(e) => Err(e),
        }
    }
}


/// The options the interpreter knows.
#[derive(Debug, Clone, Copy, PartialEq, Eq, Structural)]
pub enum DefaultOpts {
    ShouldPrintEveryLine,
    ShouldCaptureAllChanges,
    FormatWithExtraDelimiters,
}

/// The name of an option.
pub open spec fn default_opt_name(o: DefaultOpts) -> Seq<char> {
    match o {
        DefaultOpts::ShouldPrintEveryLine => "ShouldPrintEveryLine"@,
        DefaultOpts::ShouldCaptureAllChanges => "ShouldCaptureAllChanges"@,
        DefaultOpts::FormatWithExtraDelimiters => "FormatWithExtraDelimiters"@,
    }
}

impl DefaultOpts {
    /// The name of this option.
    pub fn to_string(&self) -> (r: String)
        ensures
            r@ == default_opt_name(*self),
    {
        match self {
            DefaultOpts::ShouldPrintEveryLine => string_of("ShouldPrintEveryLine"),
            DefaultOpts::ShouldCaptureAllChanges => string_of("ShouldCaptureAllChanges"),
            DefaultOpts::FormatWithExtraDelimiters => string_of("FormatWithExtraDelimiters"),
        }
    }
}

/// The position of the option named `name` in `s`, if any.
pub open spec fn opt_index(s: Seq<OptEntryV>, name: Seq<char>) -> Option<int>
    decreases s.len(),
{
    if s.len() == 0 {
        None
    } else if s[0].name == name {
        Some(0)
    } else {
        match opt_index(s.drop_first(), name) {
            Some(i) => Some(i + 1),
            None => None,
        }
    }
}

/// The options, by name.
#[derive(Debug, Clone)]
pub struct Opts {
    pub(crate) entries: Vec<OptEntry>,
}

impl View for Opts {
    type V = Seq<OptEntryV>;

    open(crate) spec fn view(&self) -> Seq<OptEntryV> {
        self.entries@.map_values(|e: OptEntry| e@)
    }
}

/// The option named `name` in `s`, if any.
pub open spec fn opt_lookup(s: Seq<OptEntryV>, name: Seq<char>) -> Option<OptEntryV> {
    match opt_index(s, name) {
        Some(i) => Some(s[i]),
        None => None,
    }
}

/// The option `o` in `s`, if any.
pub open spec fn default_opt_lookup(s: Seq<OptEntryV>, o: DefaultOpts) -> Option<OptEntryV> {
    opt_lookup(s, default_opt_name(o))
}

impl Opts {
    /// The position of the option named `name`.
    pub fn index_of(&self, name: &str) -> (r: Option<usize>)
        ensures
            match r {
                Some(i) => opt_index(self@, name@) == Some(i as int) && i < self@.len(),
                None => opt_index(self@, name@) is None,
            },
    {
        let key = string_of(name);
        let mut i: usize = 0;
        while i < self.entries.len()
            invariant
                0 <= i <= self.entries@.len(),
                key@ == name@,
                self@.len() == self.entries@.len(),
                forall|j: int| 0 <= j < i ==> (#[trigger] self@[j]).name != name@,
            decreases self.entries@.len() - i,
        {
            assert(self@[i as int].name == self.entries@[i as int].name@);
            if self.entries[i].name == key {
                proof {
                    lemma_opt_index_exact(self@, name@, i as int);
                }
                return Some(i);
            }
            i = i + 1;
        }
        proof {
            lemma_opt_index_none(self@, name@);
        }
        None
    }

    /// The option named `name`, if any.
    pub fn get(&self, name: &str) -> (r: Option<&OptEntry>)
        ensures
            match r {
                Some(e) => opt_lookup(self@, name@) == Some(e@),
                None => opt_lookup(self@, name@) is None,
            },
    {
        match self.index_of(name) {
            Some(i) => Some(&self.entries[i]),
            None => None,
        }
    }

    /// The names of the options, in order.
    pub fn keys(&self) -> (r: Vec<String>)
        ensures
            strings_view(r@) == self@.map_values(|e: OptEntryV| e.name),
    {
        let mut out: Vec<String> = Vec::new();
        let mut i: usize = 0;
        while i < self.entries.len()
            invariant
                0 <= i <= self.entries@.len(),
                strings_view(out@) == self@.take(i as int).map_values(|e: OptEntryV| e.name),
            decreases self.entries@.len() - i,
        {
            let ghost before = out@;
            out.push(copy_string(&self.entries[i].name));
            assert(strings_view(out@) =~= strings_view(before).push(self@[i as int].name));
            assert(self@.take(i + 1).map_values(|e: OptEntryV| e.name) =~= self@.take(i as int).map_values(
                |e: OptEntryV| e.name,
            ).push(self@[i as int].name));
            i = i + 1;
        }
        assert(self@.take(i as int) =~= self@);
        out
    }

    /// Sets the option named `name` to the boolean `value`; `false` when
    /// there is no such option.
    pub fn set_current_bool(&mut self, name: &str, value: bool) -> (r: bool)
        ensures
            match opt_index(old(self)@, name@) {
                Some(i) => r && final(self)@ == old(self)@.update(
                    i,
                    OptEntryV { current: bool_json(value), ..old(self)@[i] },
                ),
                None => !r && final(self)@ == old(self)@,
            },
    {
        match self.index_of(name) {
            Some(i) => {
                let ghost before = self.entries@;
                let mut e = self.entries.remove(i);
                let _ = e.set_current_bool(value);
                self.entries.insert(i, e);
                assert(self.entries@ =~= before.update(i as int, e));
                assert(self@ =~= old(self)@.update(
                    i as int,
                    OptEntryV { current: bool_json(value), ..old(self)@[i as int] },
                ));
                true
            },
            None => false,
        }
    }

    /// Sets the option named `name` to the string `value`; `false` when
    /// there is no such option.
    pub fn set_current(&mut self, name: &str, value: &str) -> (r: bool)
        ensures
            match opt_index(old(self)@, name@) {
                Some(i) => r && final(self)@ == old(self)@.update(
                    i,
                    OptEntryV { current: string_json(value@), ..old(self)@[i] },
                ),
                None => !r && final(self)@ == old(self)@,
            },
    {
        match self.index_of(name) {
            Some(i) => {
                let ghost before = self.entries@;
                let mut e = self.entries.remove(i);
                let _ = e.set_current(value);
                self.entries.insert(i, e);
                assert(self.entries@ =~= before.update(i as int, e));
                assert(self@ =~= old(self)@.update(
                    i as int,
                    OptEntryV { current: string_json(value@), ..old(self)@[i as int] },
                ));
                true
            },
            None => false,
        }
    }
}

pub proof fn lemma_opt_index_exact(s: Seq<OptEntryV>, name: Seq<char>, i: int)
    requires
        0 <= i < s.len(),
        s[i].name == name,
        forall|j: int| 0 <= j < i ==> (#[trigger] s[j]).name != name,
    ensures
        opt_index(s, name) == Some(i),
    decreases i,
{
    if i > 0 {
        assert(s[0].name != name);
        assert forall|j: int| 0 <= j < i - 1 implies (#[trigger] s.drop_first()[j]).name != name by {
            assert(s.drop_first()[j] == s[j + 1]);
        }
        lemma_opt_index_exact(s.drop_first(), name, i - 1);
    }
}

pub proof fn lemma_opt_index_none(s: Seq<OptEntryV>, name: Seq<char>)
    requires
        forall|j: int| 0 <= j < s.len() ==> (#[trigger] s[j]).name != name,
    ensures
        opt_index(s, name) is None,
    decreases s.len(),
{
    if s.len() > 0 {
        assert(s[0].name != name);
        assert forall|j: int| 0 <= j < s.len() - 1 implies (#[trigger] s.drop_first()[j]).name != name by {
            assert(s.drop_first()[j] == s[j + 1]);
        }
        lemma_opt_index_none(s.drop_first(), name);
    }
}


/// The position of a name depends on the names alone.
proof fn lemma_opt_index_names(s: Seq<OptEntryV>, t: Seq<OptEntryV>, name: Seq<char>)
    requires
        s.len() == t.len(),
        forall|j: int| 0 <= j < s.len() ==> (#[trigger] s[j]).name == t[j].name,
    ensures
        opt_index(s, name) == opt_index(t, name),
    decreases s.len(),
{
    if s.len() > 0 {
        assert(s[0].name == t[0].name);
        assert forall|j: int| 0 <= j < s.len() - 1 implies (#[trigger] s.drop_first()[j]).name == t.drop_first()[j].name by {
            assert(s.drop_first()[j] == s[j + 1]);
            assert(t.drop_first()[j] == t[j + 1]);
        }
        lemma_opt_index_names(s.drop_first(), t.drop_first(), name);
    }
}

/// Reading an option after setting it gives what was set; the other
/// options are left as they were.
pub proof fn lemma_set_then_get(s: Seq<OptEntryV>, name: Seq<char>, value: Seq<char>, other: Seq<char>)
    requires
        opt_index(s, name) is Some,
    ensures
        ({
            let i = opt_index(s, name)->Some_0;
            let t = s.update(i, OptEntryV { current: string_json(value), ..s[i] });
            &&& opt_lookup(t, name) == Some(OptEntryV { current: string_json(value), ..s[i] })
            &&& other != name ==> opt_lookup(t, other) == opt_lookup(s, other)
        }),
{
    let i = opt_index(s, name)->Some_0;
    lemma_opt_index_bounds(s, name);
    let t = s.update(i, OptEntryV { current: string_json(value), ..s[i] });
    assert forall|j: int| 0 <= j < s.len() implies (#[trigger] s[j]).name == t[j].name by {}
    lemma_opt_index_names(s, t, name);
    lemma_opt_index_names(s, t, other);
    lemma_opt_index_bounds(s, other);
    if other != name {
        if let Some(k) = opt_index(s, other) {
            lemma_opt_index_bounds(s, other);
            assert(s[k].name == other);
            assert(k != i);
        }
    }
}

/// A found position is within bounds and holds the name.
pub proof fn lemma_opt_index_bounds(s: Seq<OptEntryV>, name: Seq<char>)
    ensures
        opt_index(s, name) matches Some(i) ==> 0 <= i < s.len() && s[i].name == name,
    decreases s.len(),
{
    if s.len() > 0 && s[0].name != name {
        lemma_opt_index_bounds(s.drop_first(), name);
    }
}

/// The options `create_default_options` makes: each takes `true` or
/// `false`; only `ShouldPrintEveryLine` is on by default.
pub open spec fn default_opts_view() -> Seq<OptEntryV> {
    seq![
        OptEntryV {
            name: default_opt_name(DefaultOpts::ShouldPrintEveryLine),
            valid_options: seq![true_text(), false_text()],
            default_value: true_text(),
            current: true_text(),
        },
        OptEntryV {
            name: default_opt_name(DefaultOpts::ShouldCaptureAllChanges),
            valid_options: seq![true_text(), false_text()],
            default_value: false_text(),
            current: false_text(),
        },
        OptEntryV {
            name: default_opt_name(DefaultOpts::FormatWithExtraDelimiters),
            valid_options: seq![true_text(), false_text()],
            default_value: false_text(),
            current: false_text(),
        },
    ]
}

/// Making the default set of options.
pub trait CreateDefaultOpts: Sized {
    fn create_default_options() -> Self;
}

fn bool_pair() -> (r: Vec<bool>)
    ensures
        r@ == seq![true, false],
{
    let mut v: Vec<bool> = Vec::new();
    v.push(true);
    v.push(false);
    v
}

impl CreateDefaultOpts for Opts {
    fn create_default_options() -> (r: Self)
        ensures
            r@ == default_opts_view(),
    {
        let a = OptEntry::new("ShouldPrintEveryLine", bool_pair(), true, None);
        let b = OptEntry::new("ShouldCaptureAllChanges", bool_pair(), false, None);
        let c = OptEntry::new("FormatWithExtraDelimiters", bool_pair(), false, None);
        assert(seq![true, false].map_values(|x: bool| bool_json(x)) =~= seq![true_text(), false_text()]);
        let mut entries: Vec<OptEntry> = Vec::new();
        entries.push(a);
        entries.push(b);
        entries.push(c);
        let r = Opts { entries };
        assert(r@ =~= default_opts_view());
        r
    }
}

/// Looking up one of the known options.
pub trait GetDefaultOpt {
    spec fn has_default_opt(&self, opt: DefaultOpts) -> bool;

    fn get_default_opt(&self, opt: &DefaultOpts) -> (r: &OptEntry)
        requires
            self.has_default_opt(*opt),
    ;

    fn get_default_opt_mut(&mut self, opt: &DefaultOpts) -> (r: &mut OptEntry)
        requires
            old(self).has_default_opt(*opt),
    ;
}

impl GetDefaultOpt for Opts {
    open spec fn has_default_opt(&self, opt: DefaultOpts) -> bool {
        default_opt_lookup(self@, opt) is Some
    }

    /// The option `opt`; it must be present.
    fn get_default_opt(&self, opt: &DefaultOpts) -> (r: &OptEntry)
        ensures
            default_opt_lookup(self@, *opt) == Some(r@),
    {
        let name = opt.to_string();
        match self.index_of(name.as_str()) {
            Some(i) => &self.entries[i],
            None => {
                proof {
                    assert(false);
                }
                &self.entries[0]
            },
        }
    }

    /// The option `opt`, to change in place; it must be present.
    fn get_default_opt_mut(&mut self, opt: &DefaultOpts) -> (r: &mut OptEntry)
        ensures
            default_opt_lookup(old(self)@, *opt) == Some(r@),
            opt_index(old(self)@, default_opt_name(*opt)) matches Some(i) && final(self)@ == old(self)@.update(
                i,
                final(r)@,
            ),
    {
        let name = opt.to_string();
        let i = match self.index_of(name.as_str()) {
            Some(i) => i,
            None => {
                proof {
                    assert(false);
                }
                0
            },
        };
        &mut self.entries[i]
    }
}

} // verus!
