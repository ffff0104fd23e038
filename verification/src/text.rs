//! Character-level helpers: the lambda source is handled as a sequence of
//! `char`s, and positions count characters.

use vstd::prelude::*;

verus! {

/// The characters of `s`, in order.
pub fn chars_of(s: &str) -> (v: Vec<char>)
    ensures
        v@ == s@,
{
    broadcast use vstd::string::group_string_axioms;

    let mut v: Vec<char> = Vec::new();
    for c in it: s.chars()
        invariant
            v@ == it.seq().take(it.index() as int),
    {
        v.push(c);
    }
    v
}

/// Appends `c` to `s` (`String::push`).
#[verifier::external_body]
pub fn push_char(s: &mut String, c: char)
    ensures
        final(s)@ == old(s)@.push(c),
{
    s.push(c);
}

/// A new `String` holding `cs[lo..hi]`.
pub fn string_from_chars(cs: &Vec<char>, lo: usize, hi: usize) -> (r: String)
    requires
        lo <= hi <= cs@.len(),
    ensures
        r@ == cs@.subrange(lo as int, hi as int),
{
    let mut r = String::new();
    let mut i = lo;
    while i < hi
        invariant
            lo <= i <= hi <= cs@.len(),
            r@ == cs@.subrange(lo as int, i as int),
        decreases hi - i,
    {
        push_char(&mut r, cs[i]);
        i = i + 1;
    }
    r
}

/// A new `String` holding the characters of `s`.
pub fn string_of(s: &str) -> (r: String)
    ensures
        r@ == s@,
{
    let cs = chars_of(s);
    string_from_chars(&cs, 0, cs.len())
}

/// A copy of `s`.
pub fn copy_string(s: &String) -> (r: String)
    ensures
        r@ == s@,
{
    s.clone()
}

/// Appends the characters of `t` to `s`.
pub fn append_str(s: &mut String, t: &str)
    ensures
        final(s)@ == old(s)@ + t@,
{
    let cs = chars_of(t);
    let mut i: usize = 0;
    while i < cs.len()
        invariant
            0 <= i <= cs@.len(),
            cs@ == t@,
            s@ == old(s)@ + cs@.subrange(0, i as int),
        decreases cs@.len() - i,
    {
        push_char(s, cs[i]);
        i = i + 1;
    }
    assert(cs@.subrange(0, cs@.len() as int) == cs@);
}

/// What `char::is_alphanumeric` returns for a character beyond ASCII.
pub uninterp spec fn alphanumeric_beyond_ascii(c: char) -> bool;

/// What `char::is_uppercase` returns for a character beyond ASCII.
pub uninterp spec fn uppercase_beyond_ascii(c: char) -> bool;

/// What `char::is_alphanumeric` returns for `c`: on ASCII, letters and
/// digits.
pub open spec fn is_alphanumeric(c: char) -> bool {
    if is_ascii_char(c) {
        is_ascii_alnum(c)
    } else {
        alphanumeric_beyond_ascii(c)
    }
}

/// What `char::is_uppercase` returns for `c`: on ASCII, `A` to `Z`.
pub open spec fn is_uppercase(c: char) -> bool {
    if is_ascii_char(c) {
        is_ascii_upper(c)
    } else {
        uppercase_beyond_ascii(c)
    }
}

/// Whether `c` is an ASCII character.
pub open spec fn is_ascii_char(c: char) -> bool {
    (c as u32) < 128
}

/// ASCII letters and digits.
pub open spec fn is_ascii_alnum(c: char) -> bool {
    ('a' <= c && c <= 'z') || ('A' <= c && c <= 'Z') || ('0' <= c && c <= '9')
}

/// ASCII uppercase letters.
pub open spec fn is_ascii_upper(c: char) -> bool {
    'A' <= c && c <= 'Z'
}

/// The characters with the Unicode White_Space property, which
/// `char::is_whitespace` reports.
pub open spec fn is_whitespace(c: char) -> bool {
    let n = c as u32;
    ||| 0x09 <= n <= 0x0D
    ||| n == 0x20
    ||| n == 0x85
    ||| n == 0xA0
    ||| n == 0x1680
    ||| 0x2000 <= n <= 0x200A
    ||| n == 0x2028
    ||| n == 0x2029
    ||| n == 0x202F
    ||| n == 0x205F
    ||| n == 0x3000
}

/// Calls `char::is_alphanumeric` (alphabetic or numeric): on ASCII a
/// letter or a digit; beyond ASCII named by `alphanumeric_beyond_ascii`.
#[verifier::external_body]
pub fn char_is_alphanumeric(c: char) -> (r: bool)
    ensures
        r == is_alphanumeric(c),
        !is_ascii_char(c) ==> r == alphanumeric_beyond_ascii(c),
{
    c.is_alphanumeric()
}

/// Calls `char::is_uppercase` (the Unicode Uppercase property): on ASCII
/// `A` to `Z`; beyond ASCII named by `uppercase_beyond_ascii`.
#[verifier::external_body]
pub fn char_is_uppercase(c: char) -> (r: bool)
    ensures
        r == is_uppercase(c),
        !is_ascii_char(c) ==> r == uppercase_beyond_ascii(c),
{
    c.is_uppercase()
}

/// Whether `c` has the White_Space property, as `char::is_whitespace`
/// reports it.
pub fn char_is_whitespace(c: char) -> (r: bool)
    ensures
        r == is_whitespace(c),
{
    let n = c as u32;
    (0x09 <= n && n <= 0x0D) || n == 0x20 || n == 0x85 || n == 0xA0 || n == 0x1680 || (0x2000 <= n && n
        <= 0x200A) || n == 0x2028 || n == 0x2029 || n == 0x202F || n == 0x205F || n == 0x3000
}

/// ASCII whitespace as `char::is_ascii_whitespace` defines it: space,
/// horizontal tab, line feed, form feed and carriage return.
pub open spec fn is_ascii_ws(c: char) -> bool {
    c == ' ' || c == '\t' || c == '\n' || c == '\x0C' || c == '\r'
}

pub fn char_is_ascii_whitespace(c: char) -> (r: bool)
    ensures
        r == is_ascii_ws(c),
{
    c == ' ' || c == '\t' || c == '\n' || c == '\x0C' || c == '\r'
}

/// Number of leading characters of `s` that are whitespace.
pub open spec fn leading_ws(s: Seq<char>) -> nat
    decreases s.len(),
{
    if s.len() > 0 && is_whitespace(s[0]) {
        1 + leading_ws(s.drop_first())
    } else {
        0
    }
}

/// Number of trailing characters of `s` that are whitespace.
pub open spec fn trailing_ws(s: Seq<char>) -> nat
    decreases s.len(),
{
    if s.len() > 0 && is_whitespace(s.last()) {
        1 + trailing_ws(s.drop_last())
    } else {
        0
    }
}

/// `s` without its leading and trailing whitespace (`str::trim`).
pub open spec fn trim(s: Seq<char>) -> Seq<char> {
    let a = leading_ws(s);
    if a == s.len() {
        Seq::empty()
    } else {
        s.subrange(a as int, s.len() - trailing_ws(s))
    }
}

proof fn lemma_leading_ws(s: Seq<char>)
    ensures
        leading_ws(s) <= s.len(),
        forall|i: int| 0 <= i < leading_ws(s) ==> is_whitespace(#[trigger] s[i]),
        leading_ws(s) < s.len() ==> !is_whitespace(s[leading_ws(s) as int]),
    decreases s.len(),
{
    if s.len() > 0 && is_whitespace(s[0]) {
        lemma_leading_ws(s.drop_first());
        assert forall|i: int| 0 <= i < leading_ws(s) implies is_whitespace(#[trigger] s[i]) by {
            if i > 0 {
                assert(s[i] == s.drop_first()[i - 1]);
            }
        }
    }
}

proof fn lemma_trailing_ws(s: Seq<char>)
    ensures
        trailing_ws(s) <= s.len(),
        forall|i: int| s.len() - trailing_ws(s) <= i < s.len() ==> is_whitespace(#[trigger] s[i]),
        trailing_ws(s) < s.len() ==> !is_whitespace(s[s.len() - trailing_ws(s) - 1]),
    decreases s.len(),
{
    if s.len() > 0 && is_whitespace(s.last()) {
        lemma_trailing_ws(s.drop_last());
        assert forall|i: int| s.len() - trailing_ws(s) <= i < s.len() implies is_whitespace(
            #[trigger] s[i],
        ) by {
            if i < s.len() - 1 {
                assert(s[i] == s.drop_last()[i]);
            }
        }
    }
}

/// Trimming keeps a part of the text, no longer than it.
pub proof fn lemma_trim(s: Seq<char>)
    ensures
        leading_ws(s) == s.len() || leading_ws(s) <= s.len() - trailing_ws(s),
        trim(s).len() <= s.len(),
{
    lemma_leading_ws(s);
    lemma_trailing_ws(s);
    let a = leading_ws(s) as int;
    let t = trailing_ws(s) as int;
    if a < s.len() && a > s.len() - t {
        assert(is_whitespace(s[a]));
    }
}

proof fn lemma_leading_ws_exact(s: Seq<char>, k: int)
    requires
        0 <= k <= s.len(),
        forall|i: int| 0 <= i < k ==> is_whitespace(#[trigger] s[i]),
        k < s.len() ==> !is_whitespace(s[k]),
    ensures
        leading_ws(s) == k,
    decreases s.len(),
{
    if k > 0 {
        assert(is_whitespace(s[0]));
        assert forall|i: int| 0 <= i < k - 1 implies is_whitespace(#[trigger] s.drop_first()[i]) by {
            assert(s.drop_first()[i] == s[i + 1]);
        }
        if k - 1 < s.len() - 1 {
            assert(s.drop_first()[k - 1] == s[k]);
        }
        lemma_leading_ws_exact(s.drop_first(), k - 1);
    }
}

proof fn lemma_trailing_ws_exact(s: Seq<char>, k: int)
    requires
        0 <= k <= s.len(),
        forall|i: int| s.len() - k <= i < s.len() ==> is_whitespace(#[trigger] s[i]),
        k < s.len() ==> !is_whitespace(s[s.len() - k - 1]),
    ensures
        trailing_ws(s) == k,
    decreases s.len(),
{
    if k > 0 {
        assert(is_whitespace(s[s.len() - 1]));
        let t = s.drop_last();
        assert forall|i: int| t.len() - (k - 1) <= i < t.len() implies is_whitespace(#[trigger] t[i]) by {
            assert(t[i] == s[i]);
        }
        if k - 1 < t.len() {
            assert(t[t.len() - (k - 1) - 1] == s[s.len() - k - 1]);
        }
        lemma_trailing_ws_exact(t, k - 1);
    }
}

/// The window of `cs[lo..hi]` that remains once leading and trailing
/// whitespace is removed.
pub fn trim_window(cs: &Vec<char>, lo: usize, hi: usize) -> (r: (usize, usize))
    requires
        lo <= hi <= cs@.len(),
    ensures
        lo <= r.0 <= r.1 <= hi,
        cs@.subrange(r.0 as int, r.1 as int) == trim(cs@.subrange(lo as int, hi as int)),
{
    let ghost s = cs@.subrange(lo as int, hi as int);
    let mut a = lo;
    while a < hi && char_is_whitespace(cs[a])
        invariant
            lo <= a <= hi <= cs@.len(),
            s == cs@.subrange(lo as int, hi as int),
            forall|i: int| 0 <= i < a - lo ==> is_whitespace(#[trigger] s[i]),
        decreases hi - a,
    {
        a = a + 1;
    }
    proof {
        lemma_leading_ws_exact(s, a - lo);
    }
    if a == hi {
        return (hi, hi);
    }
    let mut b = hi;
    while b > a && char_is_whitespace(cs[b - 1])
        invariant
            lo <= a < hi <= cs@.len(),
            a <= b <= hi,
            s == cs@.subrange(lo as int, hi as int),
            !is_whitespace(s[a - lo]),
            forall|i: int| b - lo <= i < s.len() ==> is_whitespace(#[trigger] s[i]),
        decreases b - a,
    {
        b = b - 1;
    }
    proof {
        lemma_trailing_ws_exact(s, hi - b);
        assert(cs@.subrange(a as int, b as int) == s.subrange(a - lo, s.len() - (hi - b)));
    }
    (a, b)
}

pub open spec fn strings_view(v: Seq<String>) -> Seq<Seq<char>> {
    v.map_values(|s: String| s@)
}

/// The pieces of `s` between the occurrences of `sep` (`str::split` with a
/// one-character pattern): one piece more than there are separators.
pub open spec fn split_on(s: Seq<char>, sep: char) -> Seq<Seq<char>>
    decreases s.len(),
{
    if s.len() == 0 {
        seq![Seq::empty()]
    } else {
        let r = split_on(s.drop_last(), sep);
        if s.last() == sep {
            r.push(Seq::empty())
        } else {
            r.update(r.len() - 1, r.last().push(s.last()))
        }
    }
}

pub proof fn lemma_split_on_len(s: Seq<char>, sep: char)
    ensures
        split_on(s, sep).len() >= 1,
    decreases s.len(),
{
    if s.len() > 0 {
        lemma_split_on_len(s.drop_last(), sep);
    }
}

/// The pieces of `cs[lo..hi]` between the occurrences of `sep`.
pub fn split_window(cs: &Vec<char>, lo: usize, hi: usize, sep: char) -> (r: Vec<String>)
    requires
        lo <= hi <= cs@.len(),
    ensures
        strings_view(r@) == split_on(cs@.subrange(lo as int, hi as int), sep),
{
    let mut r: Vec<String> = Vec::new();
    let mut cur = String::new();
    let mut i = lo;
    assert(cs@.subrange(lo as int, lo as int) =~= Seq::<char>::empty());
    assert(strings_view(r@).push(cur@) =~= seq![Seq::<char>::empty()]);
    while i < hi
        invariant
            lo <= i <= hi <= cs@.len(),
            strings_view(r@).push(cur@) == split_on(cs@.subrange(lo as int, i as int), sep),
        decreases hi - i,
    {
        let ghost t = cs@.subrange(lo as int, (i + 1) as int);
        assert(t.drop_last() =~= cs@.subrange(lo as int, i as int));
        assert(t.last() == cs@[i as int]);
        let ghost before = strings_view(r@);
        let ghost cur0 = cur@;
        if cs[i] == sep {
            r.push(cur);
            cur = String::new();
            assert(strings_view(r@) =~= before.push(cur0));
        } else {
            push_char(&mut cur, cs[i]);
            assert(before.push(cur0).update(before.len() as int, cur@) =~= before.push(cur@));
        }
        i = i + 1;
    }
    let ghost before = strings_view(r@);
    r.push(cur);
    assert(strings_view(r@) =~= before.push(cur@));
    r
}

/// `s` with every occurrence of `c` removed (`str::replace` with a
/// one-character pattern and an empty replacement).
pub open spec fn remove_char(s: Seq<char>, c: char) -> Seq<char> {
    s.filter(other_than(c))
}

/// The test "is not `c`".
pub open spec fn other_than(c: char) -> spec_fn(char) -> bool {
    |x: char| x != c
}

/// What `str::to_lowercase` returns for a string that holds a character
/// beyond ASCII.
pub uninterp spec fn lowercase_beyond_ascii(s: Seq<char>) -> Seq<char>;

/// What `str::to_uppercase` returns for a string that holds a character
/// beyond ASCII.
pub uninterp spec fn uppercase_beyond_ascii_text(s: Seq<char>) -> Seq<char>;

/// Whether every character of `s` is ASCII.
pub open spec fn is_ascii_text(s: Seq<char>) -> bool {
    forall|i: int| 0 <= i < s.len() ==> is_ascii_char(#[trigger] s[i])
}

/// What `str::to_lowercase` returns for a string holding `s`: on ASCII
/// text each letter lowercased.
pub open spec fn lowercase(s: Seq<char>) -> Seq<char> {
    if is_ascii_text(s) {
        s.map_values(|c: char| ascii_lower(c))
    } else {
        lowercase_beyond_ascii(s)
    }
}

/// What `str::to_uppercase` returns for a string holding `s`: on ASCII
/// text each letter uppercased.
pub open spec fn uppercase(s: Seq<char>) -> Seq<char> {
    if is_ascii_text(s) {
        s.map_values(|c: char| ascii_upper(c))
    } else {
        uppercase_beyond_ascii_text(s)
    }
}

/// The ASCII lowercase of `c` (`A` to `Z` mapped to `a` to `z`).
pub open spec fn ascii_lower(c: char) -> char {
    if 'A' <= c && c <= 'Z' {
        ((c as u32) + 32) as char
    } else {
        c
    }
}

/// The ASCII uppercase of `c` (`a` to `z` mapped to `A` to `Z`).
pub open spec fn ascii_upper(c: char) -> char {
    if 'a' <= c && c <= 'z' {
        ((c as u32) - 32) as char
    } else {
        c
    }
}

/// Calls `str::to_lowercase`: on ASCII text each letter lowercased; on
/// other text named by `lowercase_beyond_ascii`.
#[verifier::external_body]
pub fn str_to_lowercase(s: &str) -> (r: String)
    ensures
        r@ == lowercase(s@),
        !is_ascii_text(s@) ==> r@ == lowercase_beyond_ascii(s@),
{
    s.to_lowercase()
}

/// Calls `str::to_uppercase`: on ASCII text each letter uppercased; on
/// other text named by `uppercase_beyond_ascii_text`.
#[verifier::external_body]
pub fn str_to_uppercase(s: &str) -> (r: String)
    ensures
        r@ == uppercase(s@),
        !is_ascii_text(s@) ==> r@ == uppercase_beyond_ascii_text(s@),
{
    s.to_uppercase()
}

/// What the `Debug` formatting of a `str` (`format!("{:?}", s)`) gives
/// for a string holding `s`: the text in double quotes, escaped.
pub uninterp spec fn debug_text(s: Seq<char>) -> Seq<char>;

/// Formats `s` with `{:?}`; the result is named by `debug_text`.
#[verifier::external_body]
pub fn debug_str(s: &str) -> (r: String)
    ensures
        r@ == debug_text(s@),
{
    format!("{:?}", s)
}

/// Whether `a` and `b` hold the same characters.
pub fn str_eq(a: &str, b: &str) -> (r: bool)
    ensures
        r == (a@ == b@),
{
    let cs = chars_of(a);
    assert(cs@.subrange(0, cs@.len() as int) =~= cs@);
    chars_eq(&cs, 0, cs.len(), b)
}

/// Whether two character sequences are equal.
pub fn chars_eq(a: &Vec<char>, alo: usize, ahi: usize, b: &str) -> (r: bool)
    requires
        alo <= ahi <= a@.len(),
    ensures
        r == (a@.subrange(alo as int, ahi as int) == b@),
{
    let bs = chars_of(b);
    if ahi - alo != bs.len() {
        return false;
    }
    let mut i: usize = 0;
    while i < bs.len()
        invariant
            alo <= ahi <= a@.len(),
            ahi - alo == bs@.len(),
            bs@ == b@,
            0 <= i <= bs@.len(),
            forall|j: int| 0 <= j < i ==> a@[alo + j] == bs@[j],
        decreases bs@.len() - i,
    {
        if a[alo + i] != bs[i] {
            assert(a@.subrange(alo as int, ahi as int)[i as int] != b@[i as int]);
            return false;
        }
        i = i + 1;
    }
    assert(a@.subrange(alo as int, ahi as int) =~= b@);
    true
}

/// Whether `cs[lo..hi]` contains `c`.
pub fn window_contains(cs: &Vec<char>, lo: usize, hi: usize, c: char) -> (r: bool)
    requires
        lo <= hi <= cs@.len(),
    ensures
        r == cs@.subrange(lo as int, hi as int).contains(c),
{
    let mut i = lo;
    while i < hi
        invariant
            lo <= i <= hi <= cs@.len(),
            forall|j: int| lo <= j < i ==> cs@[j] != c,
        decreases hi - i,
    {
        if cs[i] == c {
            assert(cs@.subrange(lo as int, hi as int)[i - lo] == c);
            return true;
        }
        i = i + 1;
    }
    assert forall|j: int| 0 <= j < hi - lo implies cs@.subrange(lo as int, hi as int)[j] != c by {
        assert(cs@.subrange(lo as int, hi as int)[j] == cs@[lo + j]);
    }
    false
}

/// Whether `s` begins with `p`.
pub open spec fn starts_with(s: Seq<char>, p: Seq<char>) -> bool {
    p.len() <= s.len() && s.take(p.len() as int) == p
}

/// The index of the first occurrence of `p` in `s`, if any (`str::find`).
pub open spec fn find_seq(s: Seq<char>, p: Seq<char>) -> Option<int>
    decreases s.len(),
{
    if starts_with(s, p) {
        Some(0)
    } else if s.len() == 0 {
        None
    } else {
        match find_seq(s.drop_first(), p) {
            Some(i) => Some(i + 1),
            None => None,
        }
    }
}

pub proof fn lemma_find_seq(s: Seq<char>, p: Seq<char>)
    ensures
        find_seq(s, p) matches Some(i) ==> 0 <= i && i + p.len() <= s.len() && s.subrange(
            i,
            i + p.len(),
        ) == p && forall|j: int| 0 <= j < i ==> !starts_with(#[trigger] s.skip(j), p),
        find_seq(s, p) is None ==> forall|j: int|
            0 <= j <= s.len() ==> !starts_with(#[trigger] s.skip(j), p),
    decreases s.len(),
{
    if starts_with(s, p) {
        assert(s.subrange(0, p.len() as int) == s.take(p.len() as int));
    } else if s.len() == 0 {
        assert(s.skip(0) == s);
    } else {
        lemma_find_seq(s.drop_first(), p);
        assert(s.skip(0) == s);
        assert forall|j: int| 1 <= j <= s.len() implies #[trigger] s.skip(j) == s.drop_first().skip(
            j - 1,
        ) by {}
        if let Some(i) = find_seq(s.drop_first(), p) {
            assert(s.subrange(i + 1, i + 1 + p.len()) == s.drop_first().subrange(i, i + p.len()));
        }
    }
}

proof fn lemma_find_seq_exact(s: Seq<char>, p: Seq<char>, k: int)
    requires
        0 <= k <= s.len(),
        starts_with(s.skip(k), p),
        forall|j: int| 0 <= j < k ==> !starts_with(#[trigger] s.skip(j), p),
    ensures
        find_seq(s, p) == Some(k),
    decreases s.len(),
{
    assert(s.skip(0) == s);
    if k > 0 {
        assert forall|j: int| 0 <= j < k - 1 implies !starts_with(
            #[trigger] s.drop_first().skip(j),
            p,
        ) by {
            assert(s.drop_first().skip(j) == s.skip(j + 1));
        }
        assert(s.drop_first().skip(k - 1) == s.skip(k));
        lemma_find_seq_exact(s.drop_first(), p, k - 1);
    }
}

proof fn lemma_find_seq_none(s: Seq<char>, p: Seq<char>)
    requires
        forall|j: int| 0 <= j <= s.len() ==> !starts_with(#[trigger] s.skip(j), p),
    ensures
        find_seq(s, p) is None,
    decreases s.len(),
{
    assert(s.skip(0) == s);
    if s.len() > 0 {
        assert forall|j: int| 0 <= j <= s.drop_first().len() implies !starts_with(
            #[trigger] s.drop_first().skip(j),
            p,
        ) by {
            assert(s.drop_first().skip(j) == s.skip(j + 1));
        }
        lemma_find_seq_none(s.drop_first(), p);
    }
}

/// Whether `cs[i..hi]` begins with `p`.
fn window_starts_with(cs: &Vec<char>, i: usize, hi: usize, p: &Vec<char>) -> (r: bool)
    requires
        i <= hi <= cs@.len(),
    ensures
        r == starts_with(cs@.subrange(i as int, hi as int), p@),
{
    if p.len() > hi - i {
        return false;
    }
    let mut j: usize = 0;
    while j < p.len()
        invariant
            i <= hi <= cs@.len(),
            p@.len() <= hi - i,
            0 <= j <= p@.len(),
            forall|k: int| 0 <= k < j ==> cs@[i + k] == p@[k],
        decreases p@.len() - j,
    {
        if cs[i + j] != p[j] {
            assert(cs@.subrange(i as int, hi as int).take(p@.len() as int)[j as int] != p@[j as int]);
            return false;
        }
        j = j + 1;
    }
    assert(cs@.subrange(i as int, hi as int).take(p@.len() as int) =~= p@);
    true
}

/// The index, relative to `lo`, of the first occurrence of `p` in
/// `cs[lo..hi]`.
pub fn find_in_window(cs: &Vec<char>, lo: usize, hi: usize, p: &Vec<char>) -> (r: Option<usize>)
    requires
        lo <= hi <= cs@.len(),
    ensures
        r matches Some(i) ==> find_seq(cs@.subrange(lo as int, hi as int), p@) == Some(i as int),
        r is None ==> find_seq(cs@.subrange(lo as int, hi as int), p@) is None,
{
    let ghost s = cs@.subrange(lo as int, hi as int);
    let mut i = lo;
    while i <= hi
        invariant
            lo <= i <= hi + 1,
            hi <= cs@.len(),
            s == cs@.subrange(lo as int, hi as int),
            forall|j: int| 0 <= j < i - lo ==> !starts_with(#[trigger] s.skip(j), p@),
        decreases hi + 1 - i,
    {
        assert(s.skip(i - lo) == cs@.subrange(i as int, hi as int));
        if window_starts_with(cs, i, hi, p) {
            proof {
                lemma_find_seq_exact(s, p@, i - lo);
            }
            return Some(i - lo);
        }
        if i == hi {
            proof {
                lemma_find_seq_none(s, p@);
            }
            return None;
        }
        i = i + 1;
    }
    proof {
        lemma_find_seq_none(s, p@);
    }
    None
}


/// The lines of `s` as `str::lines` gives them: split at each `\n`, a
/// `\r` just before it dropped, no empty line after a final `\n`.
pub open spec fn lines(s: Seq<char>) -> Seq<Seq<char>>
    decreases s.len(),
{
    if s.len() == 0 {
        Seq::empty()
    } else {
        match find_seq(s, seq!['\n']) {
            None => seq![s],
            Some(i) => {
                proof {
                    lemma_find_seq(s, seq!['\n']);
                }
                if 0 <= i < s.len() {
                    let line = s.take(i);
                    let line = if line.len() > 0 && line.last() == '\r' {
                        line.drop_last()
                    } else {
                        line
                    };
                    seq![line] + lines(s.skip(i + 1))
                } else {
                    seq![s]
                }
            },
        }
    }
}

/// The windows of `cs[lo..hi]` that hold its lines.
pub fn line_windows(cs: &Vec<char>, lo: usize, hi: usize) -> (r: Vec<(usize, usize)>)
    requires
        lo <= hi <= cs@.len(),
    ensures
        r@.len() == lines(cs@.subrange(lo as int, hi as int)).len(),
        forall|j: int|
            0 <= j < r@.len() ==> {
                &&& lo <= (#[trigger] r@[j]).0 <= r@[j].1 <= hi
                &&& cs@.subrange(r@[j].0 as int, r@[j].1 as int) == lines(
                    cs@.subrange(lo as int, hi as int),
                )[j]
            },
{
    let mut r: Vec<(usize, usize)> = Vec::new();
    let mut a = lo;
    let nl = vec!['\n'];
    assert(nl@ == seq!['\n']);
    while a < hi
        invariant
            lo <= a <= hi <= cs@.len(),
            nl@ == seq!['\n'],
            lines(cs@.subrange(lo as int, hi as int)) == r@.map_values(
                |w: (usize, usize)| cs@.subrange(w.0 as int, w.1 as int),
            ) + lines(cs@.subrange(a as int, hi as int)),
            forall|j: int| 0 <= j < r@.len() ==> lo <= (#[trigger] r@[j]).0 <= r@[j].1 <= hi,
        decreases hi - a,
    {
        let ghost s = cs@.subrange(a as int, hi as int);
        let ghost old_r = r@;
        proof {
            lemma_find_seq(s, seq!['\n']);
        }
        match find_in_window(cs, a, hi, &nl) {
            None => {
                r.push((a, hi));
                assert(lines(s) == seq![s]);
                assert(lines(cs@.subrange(hi as int, hi as int)) =~= Seq::<Seq<char>>::empty());
                a = hi;
                assert(r@.map_values(|w: (usize, usize)| cs@.subrange(w.0 as int, w.1 as int))
                    =~= old_r.map_values(|w: (usize, usize)| cs@.subrange(w.0 as int, w.1 as int)) + seq![s]);
            },
            Some(i) => {
                let e = if i > 0 && cs[a + i - 1] == '\r' {
                    a + i - 1
                } else {
                    a + i
                };
                let ghost line = s.take(i as int);
                proof {
                    if i > 0 {
                        assert(line.last() == cs@[a + i - 1]);
                    }
                    assert(cs@.subrange(a as int, e as int) == (if line.len() > 0 && line.last() == '\r' {
                        line.drop_last()
                    } else {
                        line
                    }));
                    assert(cs@.subrange(a + i + 1, hi as int) == s.skip(i + 1));
                }
                r.push((a, e));
                a = a + i + 1;
                assert(r@.map_values(|w: (usize, usize)| cs@.subrange(w.0 as int, w.1 as int))
                    =~= old_r.map_values(|w: (usize, usize)| cs@.subrange(w.0 as int, w.1 as int)) + seq![cs@.subrange(r@.last().0 as int, r@.last().1 as int)]);
            },
        }
    }
    assert(lines(cs@.subrange(hi as int, hi as int)) =~= Seq::<Seq<char>>::empty());
    assert forall|j: int| 0 <= j < r@.len() implies cs@.subrange(
        (#[trigger] r@[j]).0 as int,
        r@[j].1 as int,
    ) == lines(cs@.subrange(lo as int, hi as int))[j] by {
        assert(r@.map_values(|w: (usize, usize)| cs@.subrange(w.0 as int, w.1 as int))[j] == cs@.subrange(r@[j].0 as int, r@[j].1 as int));
    }
    r
}

} // verus!
