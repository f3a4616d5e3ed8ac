//! Character-level helpers shared by the whole crate.
//!
//! All textual logic in this crate works on `Vec<char>` values whose views
//! are `Seq<char>`, so that contracts can speak directly about character
//! sequences.  The two bridges between `String`/`&str` and `Vec<char>` live
//! here as well.

use vstd::prelude::*;
use vstd::std_specs::iter::IteratorSpec;

verus! {

broadcast use vstd::string::next_postcondition, vstd::string::axiom_spec_iter;

/// Relies on `String::push`: appends a single character to the string.
#[verifier::external_body]
pub(crate) fn push_char(s: &mut String, c: char)
    ensures
        final(s)@ == old(s)@.push(c),
{
    s.push(c)
}

/// Collects the characters of a string slice into a vector.
pub fn to_chars(s: &str) -> (r: Vec<char>)
    ensures
        r@ == s@,
{
    let mut it = s.chars();
    let mut r: Vec<char> = Vec::new();
    loop
        invariant
            r@ + it.remaining() == s@,
            it.obeys_prophetic_iter_laws(),
            it.decrease() is Some,
        ensures
            r@ == s@,
        decreases it.decrease()->0,
    {
        match it.next() {
            Some(c) => {
                r.push(c);
            },
            None => {
                proof {
                    assert(r@ =~= s@);
                }
                break ;
            },
        }
    }
    r
}

/// Whitespace characters recognised by the line-oriented config parser:
/// blanks and the line terminators that can surround a key or a value.
pub open spec fn is_ws(c: char) -> bool {
    c == ' ' || c == '\t' || c == '\r' || c == '\n'
}

/// Index of the first occurrence of `ch` in `c` within `[i, e)`, or `e` if
/// there is none.
pub open spec fn find_char_in(c: Seq<char>, i: int, e: int, ch: char) -> int
    decreases e - i,
{
    if i < 0 || i >= e {
        e
    } else if c[i] == ch {
        i
    } else {
        find_char_in(c, i + 1, e, ch)
    }
}

pub proof fn lemma_find_char_in(c: Seq<char>, i: int, e: int, ch: char)
    requires
        0 <= i <= e <= c.len(),
    ensures
        i <= find_char_in(c, i, e, ch) <= e,
        forall|k: int| i <= k < find_char_in(c, i, e, ch) ==> c[k] != ch,
        find_char_in(c, i, e, ch) < e ==> c[find_char_in(c, i, e, ch)] == ch,
    decreases e - i,
{
    if i < e && c[i] != ch {
        lemma_find_char_in(c, i + 1, e, ch);
    }
}

/// Index of the first non-whitespace character in `[i, e)`, or `e`.
pub open spec fn first_non_ws(c: Seq<char>, i: int, e: int) -> int
    decreases e - i,
{
    if i < 0 || i >= e {
        e
    } else if !is_ws(c[i]) {
        i
    } else {
        first_non_ws(c, i + 1, e)
    }
}

pub proof fn lemma_first_non_ws(c: Seq<char>, i: int, e: int)
    requires
        0 <= i <= e <= c.len(),
    ensures
        i <= first_non_ws(c, i, e) <= e,
        forall|k: int| i <= k < first_non_ws(c, i, e) ==> is_ws(c[k]),
        first_non_ws(c, i, e) < e ==> !is_ws(c[first_non_ws(c, i, e)]),
    decreases e - i,
{
    if i < e && is_ws(c[i]) {
        lemma_first_non_ws(c, i + 1, e);
    }
}

/// End index of the last non-whitespace character in `[lo, e)`, or `lo` if
/// the whole range is whitespace.
pub open spec fn last_non_ws(c: Seq<char>, lo: int, e: int) -> int
    decreases e - lo,
{
    if e <= lo {
        lo
    } else if !is_ws(c[e - 1]) {
        e
    } else {
        last_non_ws(c, lo, e - 1)
    }
}

pub proof fn lemma_last_non_ws(c: Seq<char>, lo: int, e: int)
    requires
        0 <= lo <= e <= c.len(),
    ensures
        lo <= last_non_ws(c, lo, e) <= e,
        forall|k: int| last_non_ws(c, lo, e) <= k < e ==> is_ws(c[k]),
        last_non_ws(c, lo, e) > lo ==> !is_ws(c[last_non_ws(c, lo, e) - 1]),
    decreases e - lo,
{
    if e > lo && is_ws(c[e - 1]) {
        lemma_last_non_ws(c, lo, e - 1);
    }
}

/// The pattern `pat` occurs in `c` starting exactly at index `at`.
pub open spec fn eq_at(c: Seq<char>, at: int, pat: Seq<char>) -> bool {
    &&& 0 <= at
    &&& at + pat.len() <= c.len()
    &&& c.subrange(at, at + pat.len() as int) == pat
}

/// Scans `[from, end)` of `v` for the first occurrence of `ch`.
pub(crate) fn find_char_from(v: &Vec<char>, from: usize, end: usize, ch: char) -> (r: usize)
    requires
        from <= end <= v@.len(),
    ensures
        r == find_char_in(v@, from as int, end as int, ch),
{
    let mut i: usize = from;
    while i < end
        invariant
            from <= i <= end <= v@.len(),
            find_char_in(v@, from as int, end as int, ch) == find_char_in(
                v@,
                i as int,
                end as int,
                ch,
            ),
        decreases end - i,
    {
        if v[i] == ch {
            return i;
        }
        i = i + 1;
    }
    i
}

/// Scans `[from, end)` of `v` for the first non-whitespace character.
pub(crate) fn skip_ws(v: &Vec<char>, from: usize, end: usize) -> (r: usize)
    requires
        from <= end <= v@.len(),
    ensures
        r == first_non_ws(v@, from as int, end as int),
{
    let mut i: usize = from;
    while i < end
        invariant
            from <= i <= end <= v@.len(),
            first_non_ws(v@, from as int, end as int) == first_non_ws(v@, i as int, end as int),
        decreases end - i,
    {
        let c = v[i];
        if !(c == ' ' || c == '\t' || c == '\r' || c == '\n') {
            return i;
        }
        i = i + 1;
    }
    i
}

/// Scans `[lo, end)` of `v` backwards for the end of its last
/// non-whitespace character.
pub(crate) fn rskip_ws(v: &Vec<char>, lo: usize, end: usize) -> (r: usize)
    requires
        lo <= end <= v@.len(),
    ensures
        r == last_non_ws(v@, lo as int, end as int),
{
    let mut e: usize = end;
    while e > lo
        invariant
            lo <= e <= end <= v@.len(),
            last_non_ws(v@, lo as int, end as int) == last_non_ws(v@, lo as int, e as int),
        decreases e,
    {
        let c = v[e - 1];
        if !(c == ' ' || c == '\t' || c == '\r' || c == '\n') {
            return e;
        }
        e = e - 1;
    }
    e
}

/// Tests whether `pat` occurs in `v` starting exactly at index `at`.
pub(crate) fn range_eq(v: &Vec<char>, at: usize, pat: &Vec<char>) -> (r: bool)
    requires
        at <= v@.len(),
    ensures
        r == eq_at(v@, at as int, pat@),
{
    let n: usize = v.len();
    if n - at < pat.len() {
        return false;
    }
    let mut i: usize = 0;
    while i < pat.len()
        invariant
            i <= pat@.len(),
            at + pat@.len() <= n == v@.len(),
            forall|k: int| 0 <= k < i ==> v@[at + k] == pat@[k],
        decreases pat@.len() - i,
    {
        if v[at + i] != pat[i] {
            proof {
                assert(v@.subrange(at as int, at + pat@.len() as int)[i as int] == v@[at + i]);
            }
            return false;
        }
        i = i + 1;
    }
    proof {
        assert(v@.subrange(at as int, at + pat@.len() as int) =~= pat@);
    }
    true
}

/// Copies the characters of `v` in `[a, b)` into a fresh vector.
pub(crate) fn copy_range(v: &Vec<char>, a: usize, b: usize) -> (r: Vec<char>)
    requires
        a <= b <= v@.len(),
    ensures
        r@ == v@.subrange(a as int, b as int),
{
    let mut r: Vec<char> = Vec::new();
    let mut i: usize = a;
    while i < b
        invariant
            a <= i <= b <= v@.len(),
            r@ == v@.subrange(a as int, i as int),
        decreases b - i,
    {
        r.push(v[i]);
        i = i + 1;
        proof {
            assert(v@.subrange(a as int, i as int) =~= v@.subrange(a as int, i - 1).push(
                v@[i - 1],
            ));
        }
    }
    r
}

/// Appends the characters of `v` in `[a, b)` onto `out`.
pub(crate) fn append_range(out: &mut Vec<char>, v: &Vec<char>, a: usize, b: usize)
    requires
        a <= b <= v@.len(),
    ensures
        final(out)@ == old(out)@ + v@.subrange(a as int, b as int),
{
    let mut i: usize = a;
    while i < b
        invariant
            a <= i <= b <= v@.len(),
            out@ == old(out)@ + v@.subrange(a as int, i as int),
        decreases b - i,
    {
        out.push(v[i]);
        i = i + 1;
        proof {
            assert(old(out)@ + v@.subrange(a as int, i as int) =~= (old(out)@ + v@.subrange(
                a as int,
                i - 1,
            )).push(v@[i - 1]));
        }
    }
    proof {
        assert(out@ =~= old(out)@ + v@.subrange(a as int, b as int));
    }
}

/// Appends the characters of the string slice `s` onto `out`.
pub(crate) fn app_str(out: &mut Vec<char>, s: &str)
    ensures
        final(out)@ == old(out)@ + s@,
{
    let v = to_chars(s);
    append_range(out, &v, 0, v.len());
    proof {
        assert(v@.subrange(0, v@.len() as int) =~= v@);
    }
}

/// Compares two character vectors for equality.
pub(crate) fn chars_eq(x: &Vec<char>, y: &Vec<char>) -> (r: bool)
    ensures
        r == (x@ == y@),
{
    if x.len() != y.len() {
        return false;
    }
    let mut i: usize = 0;
    while i < x.len()
        invariant
            i <= x@.len(),
            x@.len() == y@.len(),
            forall|k: int| 0 <= k < i ==> x@[k] == y@[k],
        decreases x@.len() - i,
    {
        if x[i] != y[i] {
            return false;
        }
        i = i + 1;
    }
    proof {
        assert(x@ =~= y@);
    }
    true
}

/// Builds a `String` from a vector of characters.
pub fn from_chars(v: &Vec<char>) -> (r: String)
    ensures
        r@ == v@,
{
    let mut r = String::new();
    let mut i: usize = 0;
    while i < v.len()
        invariant
            i <= v.len(),
            r@ == v@.take(i as int),
        decreases v.len() - i,
    {
        push_char(&mut r, v[i]);
        i = i + 1;
        proof {
            assert(v@.take(i as int) =~= v@.take(i as int - 1).push(v@[i as int - 1]));
        }
    }
    proof {
        assert(v@.take(v@.len() as int) =~= v@);
    }
    r
}

} // verus!
