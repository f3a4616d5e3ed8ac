//! Merging of the baseline package list into a raw debootstrap option
//! string.
//!
//! The option string may already carry a `--include=` flag with a
//! comma-separated value list.  Parsing splices the baseline entries into
//! that list, without duplicates, the user's own values first; when the
//! flag is absent it is appended with the baseline entries alone.

use vstd::prelude::*;

use crate::cfg::dedup_strings;
use crate::cfg::push_string_clone;
use crate::cfg::spec_dedup;
use crate::text::append_range;
use crate::text::copy_range;
use crate::text::eq_at;
use crate::text::find_char_from;
use crate::text::find_char_in;
use crate::text::from_chars;
use crate::text::lemma_find_char_in;
use crate::text::range_eq;
use crate::text::to_chars;

verus! {

/// The flag whose value list carries the packages debootstrap installs.
pub open spec fn opt_flag() -> Seq<char> {
    seq!['-', '-', 'i', 'n', 'c', 'l', 'u', 'd', 'e', '=']
}

/// The characters of the flag, for the running code.
fn flag_chars() -> (r: Vec<char>)
    ensures
        r@ == opt_flag(),
{
    let mut r: Vec<char> = Vec::new();
    r.push('-');
    r.push('-');
    r.push('i');
    r.push('n');
    r.push('c');
    r.push('l');
    r.push('u');
    r.push('d');
    r.push('e');
    r.push('=');
    proof {
        assert(r@ =~= opt_flag());
    }
    r
}

/// Index of the first occurrence of `pat` in `c` at position `i` or
/// later, if any.
pub open spec fn find_sub_from(c: Seq<char>, pat: Seq<char>, i: int) -> Option<int>
    decreases c.len() - i,
    when i >= 0
    via find_sub_from_decreases
{
    if i + pat.len() > c.len() {
        None
    } else if eq_at(c, i, pat) {
        Some(i)
    } else {
        find_sub_from(c, pat, i + 1)
    }
}

#[via_fn]
proof fn find_sub_from_decreases(c: Seq<char>, pat: Seq<char>, i: int) {
    if i >= 0 && i + pat.len() <= c.len() && !eq_at(c, i, pat) && pat.len() == 0 {
        assert(c.subrange(i, i + pat.len() as int) =~= pat);
    }
}

pub proof fn lemma_find_sub_from(c: Seq<char>, pat: Seq<char>, i: int)
    requires
        0 <= i,
    ensures
        find_sub_from(c, pat, i) matches Some(j) ==> i <= j && j + pat.len() <= c.len() && eq_at(
            c,
            j,
            pat,
        ),
    decreases c.len() - i,
{
    if i + pat.len() <= c.len() && !eq_at(c, i, pat) {
        assert(pat.len() > 0) by {
            if pat.len() == 0 {
                assert(c.subrange(i, i + pat.len() as int) =~= pat);
            }
        }
        lemma_find_sub_from(c, pat, i + 1);
    }
}

/// The comma-separated pieces of `s[i..]`; an empty range is one empty
/// piece, as a split on commas gives.
pub open spec fn split_commas_from(s: Seq<char>, i: int) -> Seq<Seq<char>>
    decreases s.len() - i,
    when 0 <= i <= s.len()
    via split_commas_from_decreases
{
    let j = find_char_in(s, i, s.len() as int, ',');
    if j >= s.len() {
        seq![s.subrange(i, s.len() as int)]
    } else {
        seq![s.subrange(i, j)] + split_commas_from(s, j + 1)
    }
}

#[via_fn]
proof fn split_commas_from_decreases(s: Seq<char>, i: int) {
    if 0 <= i <= s.len() {
        lemma_find_char_in(s, i, s.len() as int, ',');
    }
}

/// The comma-separated pieces of the whole of `s`.
pub open spec fn split_commas(s: Seq<char>) -> Seq<Seq<char>> {
    split_commas_from(s, 0)
}

/// The items joined with commas.
pub open spec fn join_commas(items: Seq<Seq<char>>) -> Seq<char>
    decreases items.len(),
{
    if items.len() == 0 {
        Seq::<char>::empty()
    } else if items.len() == 1 {
        items[0]
    } else {
        join_commas(items.drop_last()) + seq![','] + items.last()
    }
}

/// What `parse` returns: the option string with the baseline entries
/// merged into its `--include=` value list, without duplicates, the
/// string's own values first; or, when the flag is absent, the string
/// with the flag and the deduplicated baseline entries appended.
pub open spec fn spec_parse(cmd: Seq<char>, extras: Seq<Seq<char>>) -> Seq<char> {
    match find_sub_from(cmd, opt_flag(), 0) {
        None => cmd + seq![' '] + opt_flag() + join_commas(spec_dedup(extras)),
        Some(s) => {
            let vend = find_char_in(cmd, s, cmd.len() as int, ' ');
            let existing = cmd.subrange(s + opt_flag().len(), vend);
            cmd.subrange(0, s) + opt_flag() + join_commas(
                spec_dedup(split_commas(existing) + extras),
            ) + cmd.subrange(vend, cmd.len() as int)
        },
    }
}

/// Finds the first occurrence of `pat` in `v`.
fn find_sub(v: &Vec<char>, pat: &Vec<char>) -> (r: Option<usize>)
    ensures
        match r {
            Some(s) => find_sub_from(v@, pat@, 0) == Some(s as int),
            None => find_sub_from(v@, pat@, 0) is None,
        },
{
    let n: usize = v.len();
    let mut i: usize = 0;
    if pat.len() > n {
        return None;
    }
    if pat.len() == 0 {
        proof {
            assert(v@.subrange(0, 0) =~= pat@);
        }
        return Some(0);
    }
    let m: usize = n - pat.len();
    while i <= m
        invariant
            i <= m + 1,
            m + pat@.len() == n,
            pat@.len() >= 1,
            n == v@.len(),
            find_sub_from(v@, pat@, 0) == find_sub_from(v@, pat@, i as int),
        decreases m + 1 - i,
    {
        if range_eq(v, i, pat) {
            return Some(i);
        }
        i = i + 1;
    }
    None
}

/// Splits `s` on commas.
fn split_commas_x(s: &String) -> (r: Vec<String>)
    ensures
        r.deep_view() == split_commas(s@),
{
    let cc = to_chars(s.as_str());
    let n: usize = cc.len();
    let mut out: Vec<String> = Vec::new();
    let mut i: usize = 0;
    loop
        invariant_except_break
            split_commas(s@) == out.deep_view() + split_commas_from(s@, i as int),
        invariant
            i <= n,
            cc@ == s@,
            n == cc@.len(),
        ensures
            out.deep_view() == split_commas(s@),
        decreases n - i,
    {
        proof {
            lemma_find_char_in(cc@, i as int, n as int, ',');
        }
        let j = find_char_from(&cc, i, n, ',');
        let piece = from_chars(&copy_range(&cc, i, j));
        push_string_clone(&mut out, &piece);
        if j >= n {
            proof {
                assert(out.deep_view() =~= split_commas(s@));
            }
            break ;
        }
        proof {
            assert(out.deep_view() + split_commas_from(s@, j + 1) =~= split_commas(s@));
        }
        i = j + 1;
    }
    out
}

/// Joins the items with commas.
fn join_commas_x(items: &Vec<String>) -> (r: String)
    ensures
        r@ == join_commas(items.deep_view()),
{
    let mut out: Vec<char> = Vec::new();
    let mut i: usize = 0;
    while i < items.len()
        invariant
            i <= items@.len(),
            out@ == join_commas(items.deep_view().take(i as int)),
        decreases items@.len() - i,
    {
        proof {
            assert(items.deep_view()[i as int] == items@[i as int]@);
        }
        if i > 0 {
            out.push(',');
        }
        let ic = to_chars(items[i].as_str());
        append_range(&mut out, &ic, 0, ic.len());
        i = i + 1;
        proof {
            let dv = items.deep_view();
            assert(ic@.subrange(0, ic@.len() as int) =~= ic@);
            assert(dv.take(i as int).drop_last() =~= dv.take(i - 1));
            assert(dv.take(i as int).last() == dv[i - 1]);
            assert(out@ =~= join_commas(dv.take(i as int)));
        }
    }
    proof {
        assert(items.deep_view().take(items@.len() as int) =~= items.deep_view());
    }
    from_chars(&out)
}

/// Merges the baseline entries of `extra_values` into the `--include=`
/// list of the raw debootstrap option string `command`: the string's own
/// values keep their order, each baseline entry is appended once unless
/// already present, and the rest of the string is left as it stands.
pub fn parse(command: &String, extra_values: Vec<String>) -> (r: String)
    ensures
        r@ == spec_parse(command@, extra_values.deep_view()),
{
    let cc = to_chars(command.as_str());
    let n: usize = cc.len();
    let flag = flag_chars();
    match find_sub(&cc, &flag) {
        None => {
            let deduped = dedup_strings(&extra_values);
            let joined = join_commas_x(&deduped);
            let mut out = to_chars(command.as_str());
            out.push(' ');
            append_range(&mut out, &flag, 0, flag.len());
            let jc = to_chars(joined.as_str());
            append_range(&mut out, &jc, 0, jc.len());
            proof {
                assert(flag@.subrange(0, flag@.len() as int) =~= flag@);
                assert(jc@.subrange(0, jc@.len() as int) =~= jc@);
                assert(out@ =~= spec_parse(command@, extra_values.deep_view()));
            }
            from_chars(&out)
        },
        Some(s) => {
            proof {
                lemma_find_sub_from(cc@, flag@, 0);
                assert(s + flag@.len() <= n);
                lemma_find_char_in(cc@, s as int, n as int, ' ');
                let vend = find_char_in(cc@, s as int, n as int, ' ');
                assert(vend >= s + flag@.len()) by {
                    if vend < s + flag@.len() {
                        assert(cc@.subrange(s as int, s + flag@.len() as int) == flag@);
                        assert(cc@.subrange(s as int, s + flag@.len() as int)[vend - s]
                            == cc@[vend as int]);
                        assert(flag@[vend - s] == ' ');
                    }
                }
            }
            let vend = find_char_from(&cc, s, n, ' ');
            let existing = from_chars(&copy_range(&cc, s + 10, vend));
            let mut all = split_commas_x(&existing);
            let mut i: usize = 0;
            while i < extra_values.len()
                invariant
                    i <= extra_values@.len(),
                    all.deep_view() == split_commas(existing@) + extra_values.deep_view().take(
                        i as int,
                    ),
                decreases extra_values@.len() - i,
            {
                proof {
                    assert(extra_values.deep_view()[i as int] == extra_values@[i as int]@);
                }
                push_string_clone(&mut all, &extra_values[i]);
                i = i + 1;
                proof {
                    assert(all.deep_view() =~= split_commas(existing@)
                        + extra_values.deep_view().take(i as int));
                }
            }
            proof {
                assert(extra_values.deep_view().take(extra_values@.len() as int)
                    =~= extra_values.deep_view());
            }
            let deduped = dedup_strings(&all);
            let joined = join_commas_x(&deduped);
            let mut out = copy_range(&cc, 0, s);
            append_range(&mut out, &flag, 0, flag.len());
            let jc = to_chars(joined.as_str());
            append_range(&mut out, &jc, 0, jc.len());
            append_range(&mut out, &cc, vend, n);
            proof {
                assert(flag@.subrange(0, flag@.len() as int) =~= flag@);
                assert(jc@.subrange(0, jc@.len() as int) =~= jc@);
                assert(out@ =~= spec_parse(command@, extra_values.deep_view()));
            }
            from_chars(&out)
        },
    }
}

} // verus!
