//! `include!` directives: `include! a.lmda b.lmda` or
//! `include! a.lmda with x, y`.

use vstd::prelude::*;

use crate::text::{
    char_is_whitespace, chars_of, is_whitespace, lemma_split_on_len, push_char, split_on, split_window,
    str_eq, strings_view, trim, trim_window,
};
use crate::types::node::byte_len;
use crate::types::{parse_err, ErrV, ParsingError};

verus! {

/// Characters dropped from the names in a directive: whitespace and `,`.
pub open spec fn is_separator(c: char) -> bool {
    is_whitespace(c) || c == ','
}

/// A name of a directive with its separators removed.
pub open spec fn clean_name(s: Seq<char>) -> Seq<char> {
    s.filter(|c: char| !is_separator(c))
}

/// The position of the first `x` in `w`, or `w.len()` when there is none.
pub open spec fn first_index(w: Seq<Seq<char>>, x: Seq<char>) -> int
    decreases w.len(),
{
    if w.len() == 0 {
        0
    } else if w[0] == x {
        0
    } else {
        1 + first_index(w.drop_first(), x)
    }
}

pub open spec fn include_word() -> Seq<char> {
    "include!"@
}

pub open spec fn with_word() -> Seq<char> {
    "with"@
}

pub open spec fn msg_include_missing() -> Seq<char> {
    "include directive must have include!"@
}

pub open spec fn msg_include_no_file() -> Seq<char> {
    "Must specify a file to include"@
}

pub open spec fn msg_include_batch() -> Seq<char> {
    "Cannot batch include files when using with clause."@
}

/// The content of an `IncludeInvocation`.
pub struct IncludeV {
    pub items: Option<Seq<Seq<char>>>,
    pub files: Seq<Seq<char>>,
}

/// The words of a directive after `include!`.
pub open spec fn include_rest(stmt: Seq<char>) -> Seq<Seq<char>> {
    split_on(trim(stmt), ' ').drop_first()
}

/// The files a directive names: the words before the first `with`, cleaned.
pub open spec fn include_files(stmt: Seq<char>) -> Seq<Seq<char>> {
    let w = include_rest(stmt);
    w.take(first_index(w, with_word())).map_values(|p: Seq<char>| clean_name(p))
}

/// The items a directive names: the words after the first `with`, cleaned.
pub open spec fn include_items(stmt: Seq<char>) -> Seq<Seq<char>> {
    let w = include_rest(stmt);
    let k = first_index(w, with_word());
    if k < w.len() {
        w.skip(k + 1).map_values(|p: Seq<char>| clean_name(p))
    } else {
        Seq::empty()
    }
}

/// What reading the directive `stmt` gives.
pub open spec fn spec_parse_include(stmt: Seq<char>) -> Result<IncludeV, ErrV> {
    let whole = |m: Seq<char>| parse_err(stmt, m, 0, byte_len(stmt));
    if split_on(trim(stmt), ' ')[0] != include_word() {
        Err(whole(msg_include_missing()))
    } else if include_files(stmt).len() == 0 {
        Err(whole(msg_include_no_file()))
    } else if include_files(stmt).len() > 1 && include_items(stmt).len() > 0 {
        Err(whole(msg_include_batch()))
    } else {
        Ok(
            IncludeV {
                items: if include_items(stmt).len() == 0 {
                    None
                } else {
                    Some(include_items(stmt))
                },
                files: include_files(stmt),
            },
        )
    }
}

/// A directive that reads names at least one file; it names items only
/// when it names exactly one file, and then at least one item.
pub proof fn lemma_parsed_include_shape(stmt: Seq<char>)
    requires
        spec_parse_include(stmt) is Ok,
    ensures
        ({
            let v = spec_parse_include(stmt)->Ok_0;
            &&& v.files.len() >= 1
            &&& v.items is Some ==> v.files.len() == 1
            &&& v.items matches Some(i) ==> i.len() >= 1
        }),
{
}

/// A directive that brings in files, or some items of one file.
#[derive(Debug, Clone)]
pub struct IncludeInvocation {
    included_items: Option<Vec<String>>,
    included_files: Vec<String>,
}

impl View for IncludeInvocation {
    type V = IncludeV;

    closed spec fn view(&self) -> IncludeV {
        IncludeV {
            items: match self.included_items {
                Some(v) => Some(strings_view(v@)),
                None => None,
            },
            files: strings_view(self.included_files@),
        }
    }
}

/// `s` with its separators removed.
fn clean(s: &String) -> (r: String)
    ensures
        r@ == clean_name(s@),
{
    let cs = chars_of(s.as_str());
    let mut r = String::new();
    let mut i: usize = 0;
    assert(cs@.take(0) =~= Seq::<char>::empty());
    proof {
        reveal(Seq::filter);
    }
    while i < cs.len()
        invariant
            0 <= i <= cs@.len(),
            cs@ == s@,
            r@ == clean_name(cs@.take(i as int)),
        decreases cs@.len() - i,
    {
        assert(cs@.take(i + 1) =~= cs@.take(i as int).push(cs@[i as int]));
        proof {
            cs@.take(i as int).lemma_filter_push(cs@[i as int], |c: char| !is_separator(c));
        }
        let c = cs[i];
        if !(char_is_whitespace(c) || c == ',') {
            push_char(&mut r, c);
        }
        i = i + 1;
    }
    assert(cs@.take(i as int) =~= cs@);
    r
}

/// The cleaned names `w[lo..hi]`.
fn clean_all(w: &Vec<String>, lo: usize, hi: usize) -> (r: Vec<String>)
    requires
        lo <= hi <= w@.len(),
    ensures
        strings_view(r@) == strings_view(w@).subrange(lo as int, hi as int).map_values(
            |p: Seq<char>| clean_name(p),
        ),
{
    let mut r: Vec<String> = Vec::new();
    let mut i = lo;
    while i < hi
        invariant
            lo <= i <= hi <= w@.len(),
            strings_view(r@) == strings_view(w@).subrange(lo as int, i as int).map_values(
                |p: Seq<char>| clean_name(p),
            ),
        decreases hi - i,
    {
        let ghost before = strings_view(r@);
        let c = clean(&w[i]);
        r.push(c);
        assert(strings_view(r@) =~= before.push(clean_name(w@[i as int]@)));
        assert(strings_view(w@).subrange(lo as int, i + 1).map_values(|p: Seq<char>| clean_name(p))
            =~= strings_view(w@).subrange(lo as int, i as int).map_values(|p: Seq<char>| clean_name(p)).push(
            clean_name(w@[i as int]@),
        ));
        i = i + 1;
    }
    r
}

proof fn lemma_first_index(w: Seq<Seq<char>>, x: Seq<char>, k: int)
    requires
        0 <= k <= w.len(),
        forall|j: int| 0 <= j < k ==> w[j] != x,
        k < w.len() ==> w[k] == x,
    ensures
        first_index(w, x) == k,
    decreases k,
{
    if k > 0 {
        assert forall|j: int| 0 <= j < k - 1 implies w.drop_first()[j] != x by {
            assert(w.drop_first()[j] == w[j + 1]);
        }
        lemma_first_index(w.drop_first(), x, k - 1);
    }
}

impl IncludeInvocation {
    /// The files the directive names.
    pub fn included_files(&self) -> (r: &Vec<String>)
        ensures
            strings_view(r@) == self@.files,
    {
        &self.included_files
    }

    /// The items the directive brings in, when it has a `with` clause.
    pub fn included_items(&self) -> (r: &Option<Vec<String>>)
        ensures
            match r {
                Some(v) => self@.items == Some(strings_view(v@)),
                None => self@.items is None,
            },
    {
        &self.included_items
    }

    /// Reads an `include!` directive: `include!`, then the files to
    /// include separated by spaces, then optionally `with` and the items to
    /// bring in. Spaces and commas inside the names are dropped. Naming no
    /// file, or more than one file together with a `with` clause, is an
    /// error, as is a directive that does not start with `include!`.
    pub fn parse_include_statement(stmt: &str) -> (r: Result<IncludeInvocation, ParsingError>)
        ensures
            match r {
                Ok(inv) => spec_parse_include(stmt@) == Ok::<IncludeV, ErrV>(inv@),
                Err(e) => spec_parse_include(stmt@) == Err::<IncludeV, ErrV>(e@),
            },
    {
        let cs = chars_of(stmt);
        let (a, b) = trim_window(&cs, 0, cs.len());
        let words = split_window(&cs, a, b, ' ');
        let ghost all = strings_view(words@);
        proof {
            lemma_split_on_len(trim(stmt@), ' ');
            assert(cs@.subrange(0, cs@.len() as int) =~= stmt@);
        }
        assert(all == split_on(trim(stmt@), ' '));
        assert(all[0] == words@[0]@);
        if !str_eq(words[0].as_str(), "include!") {
            return Err(ParsingError::new(stmt, Some("include directive must have include!"), crate::types::Span::new(0, stmt.len()), None));
        }
        let ghost rest = include_rest(stmt@);
        assert(rest =~= all.drop_first());
        let mut k: usize = 1;
        while k < words.len() && !str_eq(words[k].as_str(), "with")
            invariant
                1 <= k <= words@.len(),
                all == strings_view(words@),
                rest == all.drop_first(),
                forall|j: int| 0 <= j < k - 1 ==> rest[j] != with_word(),
            decreases words@.len() - k,
        {
            assert(rest[k - 1] == words@[k as int]@);
            k = k + 1;
        }
        proof {
            if k < words@.len() {
                assert(rest[k - 1] == words@[k as int]@);
            }
            lemma_first_index(rest, with_word(), k - 1);
        }
        let files = clean_all(&words, 1, k);
        assert(strings_view(words@).subrange(1, k as int) =~= rest.take(k - 1));
        let items = if k < words.len() {
            let v = clean_all(&words, k + 1, words.len());
            assert(strings_view(words@).subrange(k + 1, words@.len() as int) =~= rest.skip(k as int));
            v
        } else {
            let v: Vec<String> = Vec::new();
            assert(strings_view(v@) =~= include_items(stmt@));
            v
        };
        assert(strings_view(files@) == include_files(stmt@));
        assert(strings_view(items@) == include_items(stmt@));
        if files.len() == 0 {
            return Err(ParsingError::new(stmt, Some("Must specify a file to include"), crate::types::Span::new(0, stmt.len()), None));
        }
        if files.len() > 1 && items.len() != 0 {
            return Err(
                ParsingError::new(
                    stmt,
                    Some("Cannot batch include files when using with clause."),
                    crate::types::Span::new(0, stmt.len()),
                    None,
                ),
            );
        }
        let included_items = if items.len() == 0 {
            None
        } else {
            Some(items)
        };
        Ok(IncludeInvocation { included_items, included_files: files })
    }
}

} // verus!
