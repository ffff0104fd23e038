use vstd::prelude::*;

use crate::text::chars_of;

verus! {

/// The scan of `find_closing_delim` from position `i`, with `count` the
/// number of opening characters seen so far minus the number of closing
/// ones, and `first` the position of the first opening character (or -1).
pub open spec fn delim_scan(
    s: Seq<char>,
    opening: Seq<char>,
    closing: char,
    i: int,
    count: int,
    first: int,
) -> Result<(int, int), int>
    decreases s.len() - i,
{
    if i < 0 || i >= s.len() {
        Err(count)
    } else if opening.contains(s[i]) {
        delim_scan(s, opening, closing, i + 1, count + 1, if first == -1 { i } else { first })
    } else {
        let next = if s[i] == closing { count - 1 } else { count };
        if next == 0 {
            if first != -1 {
                Ok((first, i))
            } else {
                Err(0)
            }
        } else {
            delim_scan(s, opening, closing, i + 1, next, first)
        }
    }
}

/// What `find_closing_delim` gives for the characters `s`: `Ok((a, b))`
/// where `a` is the first opening character and `b` the first position,
/// not itself an opening character, after which as many closing as opening
/// characters have been seen; `Err(n)` where no such position follows an
/// opening character, `n` being that balance at the point the scan stopped.
pub open spec fn closing_delim(s: Seq<char>, opening: Seq<char>, closing: char) -> Result<
    (int, int),
    int,
> {
    delim_scan(s, opening, closing, 0, 0, -1)
}

/// A successful scan ends after the opening character it reports.
pub proof fn lemma_delim_scan_bounds(
    s: Seq<char>,
    opening: Seq<char>,
    closing: char,
    i: int,
    count: int,
    first: int,
)
    requires
        0 <= i,
        first == -1 || 0 <= first < i,
    ensures
        delim_scan(s, opening, closing, i, count, first) matches Ok((a, e)) ==> 0 <= a < e < s.len(),
    decreases s.len() - i,
{
    if i < s.len() {
        if opening.contains(s[i]) {
            lemma_delim_scan_bounds(
                s,
                opening,
                closing,
                i + 1,
                count + 1,
                if first == -1 {
                    i
                } else {
                    first
                },
            );
        } else {
            let next = if s[i] == closing {
                count - 1
            } else {
                count
            };
            if next != 0 {
                lemma_delim_scan_bounds(s, opening, closing, i + 1, next, first);
            }
        }
    }
}

/// `closing_delim` reports positions inside `s`, the first before the
/// second.
pub proof fn lemma_closing_delim_bounds(s: Seq<char>, opening: Seq<char>, closing: char)
    ensures
        closing_delim(s, opening, closing) matches Ok((a, e)) ==> 0 <= a < e < s.len(),
{
    lemma_delim_scan_bounds(s, opening, closing, 0, 0, -1);
}

/// Net nesting depth of `s[0..k]`: opening characters count one up, closing
/// characters that are not opening ones count one down.
pub open spec fn depth(s: Seq<char>, opening: Seq<char>, closing: char, k: int) -> int
    decreases k,
{
    if k <= 0 {
        0
    } else if opening.contains(s[k - 1]) {
        depth(s, opening, closing, k - 1) + 1
    } else if s[k - 1] == closing {
        depth(s, opening, closing, k - 1) - 1
    } else {
        depth(s, opening, closing, k - 1)
    }
}

/// What a found range means: it starts at the first opening character, and
/// ends at the first later position, not itself an opening character,
/// where as many closing as opening characters have been seen.
pub proof fn lemma_closing_delim_balanced(s: Seq<char>, opening: Seq<char>, closing: char)
    ensures
        closing_delim(s, opening, closing) matches Ok((a, e)) ==> {
            &&& 0 <= a < e < s.len()
            &&& opening.contains(s[a])
            &&& forall|j: int| 0 <= j < a ==> !opening.contains(#[trigger] s[j])
            &&& !opening.contains(s[e])
            &&& depth(s, opening, closing, e + 1) == 0
            &&& forall|k: int|
                a <= k < e && !opening.contains(#[trigger] s[k]) ==> depth(s, opening, closing, k + 1) != 0
        },
{
    lemma_scan_balanced(s, opening, closing, 0, 0, -1);
    lemma_closing_delim_bounds(s, opening, closing);
}

proof fn lemma_scan_balanced(s: Seq<char>, opening: Seq<char>, closing: char, i: int, count: int, first: int)
    requires
        0 <= i <= s.len(),
        count == depth(s, opening, closing, i),
        first == -1 ==> forall|j: int| 0 <= j < i ==> !opening.contains(#[trigger] s[j]),
        first != -1 ==> 0 <= first < i && opening.contains(s[first]) && forall|j: int|
            0 <= j < first ==> !opening.contains(#[trigger] s[j]),
        forall|k: int| 0 <= k < i && !opening.contains(#[trigger] s[k]) ==> depth(s, opening, closing, k + 1) != 0,
    ensures
        delim_scan(s, opening, closing, i, count, first) matches Ok((a, e)) ==> {
            &&& opening.contains(s[a])
            &&& 0 <= a < e < s.len()
            &&& forall|j: int| 0 <= j < a ==> !opening.contains(#[trigger] s[j])
            &&& !opening.contains(s[e])
            &&& depth(s, opening, closing, e + 1) == 0
            &&& forall|k: int|
                a <= k < e && !opening.contains(#[trigger] s[k]) ==> depth(s, opening, closing, k + 1) != 0
        },
    decreases s.len() - i,
{
    if i < s.len() {
        if opening.contains(s[i]) {
            let nf = if first == -1 { i } else { first };
            lemma_scan_balanced(s, opening, closing, i + 1, count + 1, nf);
        } else {
            let next = if s[i] == closing { count - 1 } else { count };
            assert(next == depth(s, opening, closing, i + 1));
            if next != 0 {
                lemma_scan_balanced(s, opening, closing, i + 1, next, first);
            }
        }
    }
}

fn contains_char(cs: &[char], c: char) -> (r: bool)
    ensures
        r == cs@.contains(c),
{
    let mut i: usize = 0;
    while i < cs.len()
        invariant
            0 <= i <= cs@.len(),
            forall|j: int| 0 <= j < i ==> cs@[j] != c,
        decreases cs@.len() - i,
    {
        if cs[i] == c {
            assert(cs@[i as int] == c);
            return true;
        }
        i = i + 1;
    }
    false
}

/// `find_closing_delim` on the window `cs[lo..hi]`; positions are relative
/// to `lo`.
pub fn closing_delim_window(cs: &Vec<char>, lo: usize, hi: usize, opening: &[char], closing: char) -> (r:
    Result<(usize, usize), isize>)
    requires
        lo <= hi <= cs@.len(),
        hi - lo <= isize::MAX,
    ensures
        match r {
            Ok((a, b)) => closing_delim(cs@.subrange(lo as int, hi as int), opening@, closing) == Ok::<
                (int, int),
                int,
            >((a as int, b as int)),
            Err(n) => closing_delim(cs@.subrange(lo as int, hi as int), opening@, closing) == Err::<
                (int, int),
                int,
            >(n as int),
        },
        r matches Ok((a, b)) ==> a < b < hi - lo,
{
    let ghost s = cs@.subrange(lo as int, hi as int);
    let mut count: isize = 0;
    let mut first: isize = -1;
    let mut i = lo;
    while i < hi
        invariant
            lo <= i <= hi <= cs@.len(),
            hi - lo <= isize::MAX,
            s == cs@.subrange(lo as int, hi as int),
            -(i - lo) <= count <= i - lo,
            -1 <= first < i - lo,
            first == -1 ==> count <= 0,
            first != -1 ==> first < i - lo,
            closing_delim(s, opening@, closing) == delim_scan(
                s,
                opening@,
                closing,
                i - lo,
                count as int,
                first as int,
            ),
        decreases hi - i,
    {
        let c = cs[i];
        if contains_char(opening, c) {
            if first == -1 {
                first = (i - lo) as isize;
            }
            count = count + 1;
            i = i + 1;
            continue;
        }
        if c == closing {
            count = count - 1;
        }
        if count == 0 {
            if first != -1 {
                return Ok((first as usize, i - lo));
            }
            return Err(count);
        }
        i = i + 1;
    }
    Err(count)
}

/// Finds the span from the first opening character of `input` to the
/// character that closes it. The range runs from the opening character to
/// the closing one (both positions counted in characters); on failure the
/// balance of opening over closing characters is returned.
pub fn find_closing_delim<const N: usize>(input: &str, opening: [char; N], closing: char) -> (r:
    Result<std::ops::Range<usize>, isize>)
    requires
        input@.len() <= isize::MAX,
    ensures
        match r {
            Ok(range) => closing_delim(input@, opening@, closing) == Ok::<(int, int), int>(
                (range.start as int, range.end as int),
            ),
            Err(n) => closing_delim(input@, opening@, closing) == Err::<(int, int), int>(n as int),
        },
{
    let cs = chars_of(input);
    assert(cs@.subrange(0, cs@.len() as int) == cs@);
    match closing_delim_window(&cs, 0, cs.len(), opening.as_slice(), closing) {
        Ok((a, b)) => Ok(a..b),
        Err(n) => Err(n),
    }
}

} // verus!
