//! What a program file declares for other files: the bindings its
//! assignments make and the `include!` directives it holds. Reading the
//! file is left to the caller; these work on its text.

use vstd::prelude::*;

use crate::assignments::{var_key, Assignments};
use crate::interpreter::{InterpretingError, InterpretingErrorV};
use crate::invocations::inclusion::{spec_parse_include, IncludeInvocation, IncludeV};
use crate::parsing::{
    assignment_views, assignments_of, collect_results, results_view, spec_parse_program, Lambda, UnzipExpressions,
};
use crate::text::{chars_of, find_in_window, find_seq, line_windows, lines, string_from_chars};
use crate::types::node::{NodeV, VarV};
use crate::types::ErrV;

verus! {

/// `m` with the bindings `asg` added in order.
pub open spec fn insert_all(
    m: Map<(Seq<char>, Option<Seq<char>>), NodeV>,
    asg: Seq<(VarV, NodeV)>,
) -> Map<(Seq<char>, Option<Seq<char>>), NodeV>
    decreases asg.len(),
{
    if asg.len() == 0 {
        m
    } else {
        insert_all(m, asg.drop_last()).insert(var_key(asg.last().0), asg.last().1)
    }
}

/// The directives read from the lines `ls`, those that hold `include!`,
/// up to the first that fails, and that failure.
pub open spec fn read_directives(ls: Seq<Seq<char>>) -> (Seq<IncludeV>, Option<ErrV>)
    decreases ls.len(),
{
    if ls.len() == 0 {
        (Seq::empty(), None)
    } else if find_seq(ls[0], "include!"@) is None {
        read_directives(ls.drop_first())
    } else {
        match spec_parse_include(ls[0]) {
            Err(e) => (Seq::empty(), Some(e)),
            Ok(v) => {
                let (rest, e) = read_directives(ls.drop_first());
                (seq![v] + rest, e)
            },
        }
    }
}

pub open spec fn includes_view(v: Seq<IncludeInvocation>) -> Seq<IncludeV> {
    v.map_values(|i: IncludeInvocation| i@)
}

/// What a file declares: its bindings and its directives.
pub struct ModuleTables {
    pub(crate) assignments: Assignments,
    pub(crate) inclusions: Vec<IncludeInvocation>,
}

/// The content of a `ModuleTables`.
pub struct ModuleTablesV {
    pub bindings: Map<(Seq<char>, Option<Seq<char>>), NodeV>,
    pub inclusions: Seq<IncludeV>,
}

impl View for ModuleTables {
    type V = ModuleTablesV;

    open(crate) spec fn view(&self) -> ModuleTablesV {
        ModuleTablesV { bindings: self.assignments.as_map(), inclusions: includes_view(self.inclusions@) }
    }
}

impl ModuleTables {
    /// No bindings and no directives.
    pub fn new() -> (r: Self)
        ensures
            r@.bindings == Map::<(Seq<char>, Option<Seq<char>>), NodeV>::empty(),
            r@.inclusions == Seq::<IncludeV>::empty(),
    {
        let r = ModuleTables { assignments: Assignments::new(), inclusions: Vec::new() };
        assert(r@.inclusions =~= Seq::<IncludeV>::empty());
        r
    }

    /// The bindings.
    pub fn assignments(&self) -> (r: &Assignments)
        ensures
            r.as_map() == self@.bindings,
    {
        &self.assignments
    }

    /// The directives.
    pub fn inclusions(&self) -> (r: &Vec<IncludeInvocation>)
        ensures
            includes_view(r@) == self@.inclusions,
    {
        &self.inclusions
    }

    /// Reads the program `content` and adds the bindings of its
    /// assignments, in order; on a parsing error nothing is added and the
    /// error is returned.
    pub fn generate_assignment_map(&mut self, content: &str) -> (r: Result<(), InterpretingError>)
        requires
            4 * content@.len() + 8 <= usize::MAX,
        ensures
            final(self)@.inclusions == old(self)@.inclusions,
            match collect_results(spec_parse_program(content@)) {
                Ok(ls) => r is Ok && final(self)@.bindings == insert_all(old(self)@.bindings, assignments_of(ls)),
                Err(e) => r matches Err(x) && x@ == (InterpretingErrorV { err: e, help: None })
                    && final(self)@.bindings == old(self)@.bindings,
            },
    {
        let parsed = Lambda::parse(content);
        assert(results_view(parsed@) =~= spec_parse_program(content@));
        let unzipped = match parsed.unzip_expressions() {
            Ok(u) => u,
            Err(e) => {
                return Err(InterpretingError::from_parsing_error(e));
            },
        };
        let ghost asg = assignment_views(unzipped.assignments@);
        let ghost m0 = self.assignments.as_map();
        let mut i: usize = 0;
        assert(asg.take(0) =~= Seq::<(VarV, NodeV)>::empty());
        while i < unzipped.assignments.len()
            invariant
                0 <= i <= unzipped.assignments@.len(),
                asg == assignment_views(unzipped.assignments@),
                self.assignments.as_map() == insert_all(m0, asg.take(i as int)),
                includes_view(self.inclusions@) == old(self)@.inclusions,
            decreases unzipped.assignments@.len() - i,
        {
            let a = &unzipped.assignments[i];
            self.assignments.insert(a.ident.copy(), crate::types::node::copy_node(&a.body));
            assert(asg.take(i + 1).drop_last() =~= asg.take(i as int));
            assert(asg.take(i + 1).last() == (a.ident@, a.body@));
            i = i + 1;
        }
        assert(asg.take(i as int) =~= asg);
        Ok(())
    }

    /// Reads the `include!` directive of each line of `content` that holds
    /// one, and adds it. The first directive that fails stops the reading,
    /// those before it kept, and its error is returned.
    pub fn generate_inclusion_map(&mut self, content: &str) -> (r: Result<(), InterpretingError>)
        ensures
            ({
                let (read, err) = read_directives(lines(content@));
                &&& final(self)@.inclusions == old(self)@.inclusions + read
                &&& final(self)@.bindings == old(self)@.bindings
                &&& match err {
                    None => r is Ok,
                    Some(e) => r matches Err(x) && x@ == (InterpretingErrorV { err: e, help: None }),
                }
            }),
    {
        let cs = chars_of(content);
        let ws = line_windows(&cs, 0, cs.len());
        assert(cs@.subrange(0, cs@.len() as int) =~= content@);
        let ghost ls = lines(content@);
        let pat = chars_of("include!");
        let ghost start = includes_view(self.inclusions@);
        let ghost mut added: Seq<IncludeV> = Seq::empty();
        let mut i: usize = 0;
        assert(ls.skip(0) =~= ls);
        while i < ws.len()
            invariant
                0 <= i <= ws@.len(),
                ws@.len() == ls.len(),
                ls == lines(content@),
                pat@ == "include!"@,
                forall|j: int|
                    0 <= j < ws@.len() ==> {
                        &&& 0 <= (#[trigger] ws@[j]).0 <= ws@[j].1 <= cs@.len()
                        &&& cs@.subrange(ws@[j].0 as int, ws@[j].1 as int) == ls[j]
                    },
                read_directives(ls) == (added + read_directives(ls.skip(i as int)).0, read_directives(ls.skip(i as int)).1),
                includes_view(self.inclusions@) == start + added,
                start == old(self)@.inclusions,
                self.assignments.as_map() == old(self)@.bindings,
            decreases ws@.len() - i,
        {
            let (a, b) = ws[i];
            let ghost line = ls[i as int];
            assert(ls.skip(i as int).drop_first() =~= ls.skip(i + 1));
            assert(ls.skip(i as int)[0] == line);
            assert(cs@.subrange(a as int, b as int) == line);
            let found = find_in_window(&cs, a, b, &pat);
            if found.is_some() {
                let text = string_from_chars(&cs, a, b);
                match IncludeInvocation::parse_include_statement(text.as_str()) {
                    Ok(inv) => {
                        let ghost before = includes_view(self.inclusions@);
                        let ghost v = inv@;
                        self.inclusions.push(inv);
                        assert(includes_view(self.inclusions@) =~= before.push(v));
                        let ghost rest = read_directives(ls.skip(i + 1));
                        assert(added + (seq![v] + rest.0) =~= added.push(v) + rest.0);
                        proof {
                            added = added.push(v);
                        }
                        assert(includes_view(self.inclusions@) =~= start + added);
                    },
                    Err(e) => {
                        assert(find_seq(line, "include!"@) is Some);
                        assert(spec_parse_include(line) == Err::<IncludeV, ErrV>(e@));
                        assert(read_directives(ls.skip(i as int)) == (Seq::<IncludeV>::empty(), Some(e@)));
                        assert(added + Seq::<IncludeV>::empty() =~= added);
                        return Err(InterpretingError::from_parsing_error(e));
                    },
                }
            }
            i = i + 1;
        }
        assert(ls.skip(i as int) =~= Seq::<Seq<char>>::empty());
        assert(added + Seq::<IncludeV>::empty() =~= added);
        Ok(())
    }
}

} // verus!
