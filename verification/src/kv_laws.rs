//! The laws of the key-value store: setting then reading a key gives the
//! value back, repeating a mutation changes nothing, and stripping a line
//! removes every occurrence.

use vstd::prelude::*;

use crate::kv::assignment;
use crate::kv::chomp_end;
use crate::kv::is_comment_at;
use crate::kv::line_end;
use crate::kv::line_eq_at;
use crate::kv::matches_at;
use crate::kv::spec_add;
use crate::kv::spec_get;
use crate::kv::spec_get_at;
use crate::kv::spec_has_line;
use crate::kv::spec_has_line_at;
use crate::kv::spec_set;
use crate::kv::spec_strip;
use crate::kv::spec_strip_at;
use crate::kv::lemma_spec_get_at_bounds;
use crate::kv::value_at;
use crate::text::eq_at;
use crate::text::find_char_in;
use crate::text::first_non_ws;
use crate::text::is_ws;
use crate::text::last_non_ws;
use crate::text::lemma_find_char_in;
use crate::text::lemma_first_non_ws;
use crate::text::lemma_last_non_ws;

verus! {

/// A key fit for an assignment line: non-empty, free of newlines and of
/// `=`, not opening like a comment, not starting or ending in blanks.
pub open spec fn valid_key(key: Seq<char>) -> bool {
    &&& key.len() > 0
    &&& forall|i: int| 0 <= i < key.len() ==> key[i] != '\n' && key[i] != '='
    &&& !is_ws(key[0])
    &&& key[0] != '#'
    &&& !is_ws(key[key.len() - 1])
}

/// A value fit for an assignment line: free of newlines.
pub open spec fn valid_value(value: Seq<char>) -> bool {
    forall|i: int| 0 <= i < value.len() ==> value[i] != '\n'
}

/// A line fit for `add`: free of newlines, not ending in a carriage
/// return.
pub open spec fn valid_line(l: Seq<char>) -> bool {
    &&& forall|i: int| 0 <= i < l.len() ==> l[i] != '\n'
    &&& l.len() > 0 ==> l[l.len() - 1] != '\r'
}

/// `find_char_in` is determined by its characteristic properties.
proof fn lemma_find_char_val(c: Seq<char>, i: int, e: int, ch: char, j: int)
    requires
        0 <= i <= e <= c.len(),
        i <= j <= e,
        forall|k: int| i <= k < j ==> c[k] != ch,
        j < e ==> c[j] == ch,
    ensures
        find_char_in(c, i, e, ch) == j,
    decreases j - i,
{
    if i < j {
        lemma_find_char_val(c, i + 1, e, ch, j);
    }
}

/// `first_non_ws` is determined by its characteristic properties.
proof fn lemma_first_non_ws_val(c: Seq<char>, i: int, e: int, k: int)
    requires
        0 <= i <= e <= c.len(),
        i <= k <= e,
        forall|x: int| i <= x < k ==> is_ws(c[x]),
        k < e ==> !is_ws(c[k]),
    ensures
        first_non_ws(c, i, e) == k,
    decreases k - i,
{
    if i < k {
        lemma_first_non_ws_val(c, i + 1, e, k);
    }
}

/// `last_non_ws` is determined by its characteristic properties.
proof fn lemma_last_non_ws_val(c: Seq<char>, lo: int, e: int, t: int)
    requires
        0 <= lo <= e <= c.len(),
        lo <= t <= e,
        forall|x: int| t <= x < e ==> is_ws(c[x]),
        t > lo ==> !is_ws(c[t - 1]),
    ensures
        last_non_ws(c, lo, e) == t,
    decreases e - t,
{
    if t < e {
        lemma_last_non_ws_val(c, lo, e - 1, t);
    }
}

/// On a complete line (ending in its newline) whose characters two
/// contents share, both contents make the same comment and key-match
/// decisions.
proof fn lemma_line_decisions_agree(key: Seq<char>, c: Seq<char>, c1: Seq<char>, i: int, e: int)
    requires
        valid_key(key),
        0 <= i < e,
        e <= c.len(),
        e <= c1.len(),
        forall|k: int| i <= k < e ==> c1[k] == c[k],
        line_end(c, i) == e,
        line_end(c1, i) == e,
        c[e - 1] == '\n',
    ensures
        is_comment_at(c1, i) == is_comment_at(c, i),
        matches_at(key, c1, i) == matches_at(key, c, i),
{
    lemma_find_char_in(c, i, c.len() as int, '\n');
    let k0 = first_non_ws(c, i, e);
    lemma_first_non_ws(c, i, e);
    lemma_first_non_ws_val(c1, i, e, k0);
    let q = find_char_in(c, i, e, '=');
    lemma_find_char_in(c, i, e, '=');
    lemma_find_char_val(c1, i, e, '=', q);
    let ts = first_non_ws(c, i, q);
    lemma_first_non_ws(c, i, q);
    lemma_first_non_ws_val(c1, i, q, ts);
    let te = last_non_ws(c, ts, q);
    lemma_last_non_ws(c, ts, q);
    lemma_last_non_ws_val(c1, ts, q, te);
    assert(eq_at(c1, i, key) == eq_at(c, i, key)) by {
        lemma_eq_at_agree(key, c, c1, i, e);
    }
    if te - ts == key.len() {
        assert(eq_at(c1, ts, key) == eq_at(c, ts, key)) by {
            if ts < e {
                lemma_eq_at_agree(key, c, c1, ts, e);
            }
        }
    }
}

/// Whether `key` occurs at position `i` of a line that ends with a
/// newline at `e - 1` is the same in two contents that agree on the
/// line: a key cannot reach past the newline, for it holds none.
proof fn lemma_eq_at_agree(key: Seq<char>, c: Seq<char>, c1: Seq<char>, i: int, e: int)
    requires
        valid_key(key),
        0 <= i < e,
        e <= c.len(),
        e <= c1.len(),
        forall|k: int| i <= k < e ==> c1[k] == c[k],
        c[e - 1] == '\n',
    ensures
        eq_at(c1, i, key) == eq_at(c, i, key),
{
    if i + key.len() <= e - 1 {
        assert(c.subrange(i, i + key.len() as int) =~= c1.subrange(i, i + key.len() as int));
    } else {
        // The key would cover the newline at e - 1, which no key can.
        assert(!eq_at(c, i, key)) by {
            if eq_at(c, i, key) {
                assert(c.subrange(i, i + key.len() as int)[e - 1 - i] == c[e - 1]);
            }
        }
        assert(!eq_at(c1, i, key)) by {
            if eq_at(c1, i, key) {
                assert(c1.subrange(i, i + key.len() as int)[e - 1 - i] == c1[e - 1]);
                assert(key[e - 1 - i] == '\n');
            }
        }
    }
}

/// At a position carrying the full assignment text, followed by a
/// newline or the end of the content, the scan matches `key` and reads
/// back exactly `value`.
proof fn lemma_assignment_line(key: Seq<char>, value: Seq<char>, c1: Seq<char>, p: int)
    requires
        valid_key(key),
        valid_value(value),
        0 <= p,
        p + assignment(key, value).len() <= c1.len(),
        c1.subrange(p, p + assignment(key, value).len() as int) == assignment(key, value),
        p + assignment(key, value).len() == c1.len() || c1[p + assignment(key, value).len()]
            == '\n',
    ensures
        line_end(c1, p) == (if p + assignment(key, value).len() < c1.len() {
            p + assignment(key, value).len() + 1
        } else {
            c1.len() as int
        }),
        !is_comment_at(c1, p),
        matches_at(key, c1, p),
        value_at(c1, p) == value,
{
    let a = assignment(key, value);
    let alen = a.len() as int;
    let kl = key.len() as int;
    let vl = value.len() as int;
    let m = c1.len() as int;
    assert forall|k: int| p <= k < p + alen implies c1[k] == a[k - p] by {
        assert(c1.subrange(p, p + alen)[k - p] == c1[k]);
    }
    assert(a[kl] == '=');
    assert(a[kl + 1] == '"');
    assert(a[alen - 1] == '"');
    assert forall|x: int| 0 <= x < kl implies a[x] == key[x] by {}
    assert forall|x: int| 0 <= x < vl implies a[kl + 2 + x] == value[x] by {}
    assert forall|k: int| p <= k < p + alen implies c1[k] != '\n' by {
        assert(c1[k] == a[k - p]);
        if k - p < kl {
            assert(a[k - p] == key[k - p]);
        } else if kl + 2 <= k - p < kl + 2 + vl {
            assert(a[k - p] == value[k - p - kl - 2]);
        }
    }
    assert forall|k: int| p <= k < p + kl implies c1[k] != '=' by {
        assert(c1[k] == a[k - p]);
        assert(a[k - p] == key[k - p]);
    }
    assert forall|k: int| p <= k < p + kl implies c1[k] == key[k - p] by {
        assert(c1[k] == a[k - p]);
    }
    let e = if p + alen < m {
        p + alen + 1
    } else {
        m
    };
    // The line runs to the newline after the assignment, or to the end.
    assert(line_end(c1, p) == e) by {
        if p + alen < m {
            lemma_find_char_val(c1, p, m, '\n', p + alen);
        } else {
            lemma_find_char_val(c1, p, m, '\n', m);
        }
    }
    // Not a comment: the first character is the key's, which is not `#`.
    assert(!is_comment_at(c1, p)) by {
        lemma_first_non_ws_val(c1, p, e, p);
    }
    // The key part before the first `=` is exactly the key.
    let q = p + kl;
    lemma_find_char_val(c1, p, e, '=', q);
    lemma_first_non_ws_val(c1, p, q, p);
    lemma_last_non_ws_val(c1, p, q, q);
    assert(matches_at(key, c1, p)) by {
        assert(c1.subrange(p, p + kl) =~= key);
    }
    // The raw value, trimmed, keeps its two quotes; unquoting gives the
    // value back.
    let ts = q + 1;
    let te = p + alen;
    lemma_first_non_ws_val(c1, q + 1, e, ts);
    lemma_last_non_ws_val(c1, ts, e, te);
    assert(c1[ts] == '"');
    assert(c1[te - 1] == '"');
    assert(value_at(c1, p) == value) by {
        assert(c1.subrange(ts + 1, te - 1) =~= value);
    }
}

/// Extending a content that ends in an unterminated line with a newline
/// and more text turns that line into a complete one without changing
/// what the scan decides about it.
proof fn lemma_incomplete_line_extend(key: Seq<char>, c: Seq<char>, rest: Seq<char>, i: int)
    requires
        valid_key(key),
        0 <= i < c.len(),
        line_end(c, i) == c.len(),
        find_char_in(c, i, c.len() as int, '\n') == c.len(),
    ensures
        line_end(c + seq!['\n'] + rest, i) == c.len() + 1,
        is_comment_at(c + seq!['\n'] + rest, i) == is_comment_at(c, i),
        matches_at(key, c + seq!['\n'] + rest, i) == matches_at(key, c, i),
{
    let c1 = c + seq!['\n'] + rest;
    let n = c.len() as int;
    let m = c1.len() as int;
    assert(c1[n] == '\n');
    assert forall|k: int| 0 <= k < n implies c1[k] == c[k] by {}
    lemma_find_char_in(c, i, n, '\n');
    assert(line_end(c1, i) == n + 1) by {
        lemma_find_char_val(c1, i, m, '\n', n);
    }
    // Comment decision: the first non-blank position is shared, or both
    // lines are all blanks and neither is a comment.
    let k0 = first_non_ws(c, i, n);
    lemma_first_non_ws(c, i, n);
    if k0 < n {
        lemma_first_non_ws_val(c1, i, n + 1, k0);
    } else {
        lemma_first_non_ws_val(c1, i, n + 1, n + 1);
    }
    // Key occurrence at the line start: a key never holds a newline, so
    // it cannot use the appended one.
    assert(eq_at(c1, i, key) == eq_at(c, i, key)) by {
        if i + key.len() <= n {
            assert(c.subrange(i, i + key.len() as int) =~= c1.subrange(i, i + key.len() as int));
        } else {
            assert(!eq_at(c, i, key));
            if eq_at(c1, i, key) {
                assert(c1.subrange(i, i + key.len() as int)[n - i] == c1[n]);
                assert(key[n - i] == '\n');
            }
        }
    }
    // The `=` search, and the trim of the key part, agree as well.
    let q = find_char_in(c, i, n, '=');
    lemma_find_char_in(c, i, n, '=');
    if q < n {
        lemma_find_char_val(c1, i, n + 1, '=', q);
        let ts = first_non_ws(c, i, q);
        lemma_first_non_ws(c, i, q);
        lemma_first_non_ws_val(c1, i, q, ts);
        let te = last_non_ws(c, ts, q);
        lemma_last_non_ws(c, ts, q);
        lemma_last_non_ws_val(c1, ts, q, te);
        if te - ts == key.len() && ts < n {
            assert(eq_at(c1, ts, key) == eq_at(c, ts, key)) by {
                if ts + key.len() <= n {
                    assert(c.subrange(ts, ts + key.len() as int) =~= c1.subrange(
                        ts,
                        ts + key.len() as int,
                    ));
                } else {
                    assert(!eq_at(c, ts, key));
                    if eq_at(c1, ts, key) {
                        assert(c1.subrange(ts, ts + key.len() as int)[n - ts] == c1[n]);
                        assert(key[n - ts] == '\n');
                    }
                }
            }
        }
    } else {
        lemma_find_char_val(c1, i, n + 1, '=', n + 1);
        let ts = first_non_ws(c, i, n);
        lemma_first_non_ws(c, i, n);
        if ts < n {
            lemma_first_non_ws_val(c1, i, n + 1, ts);
            let te = last_non_ws(c, ts, n);
            lemma_last_non_ws(c, ts, n);
            lemma_last_non_ws_val(c1, ts, n + 1, te);
            if te - ts == key.len() {
                assert(te <= n);
                assert(eq_at(c1, ts, key) == eq_at(c, ts, key)) by {
                    assert(c.subrange(ts, ts + key.len() as int) =~= c1.subrange(
                        ts,
                        ts + key.len() as int,
                    ));
                }
            }
        } else {
            lemma_first_non_ws_val(c1, i, n + 1, n + 1);
            lemma_last_non_ws_val(c1, n + 1, n + 1, n + 1);
            assert(last_non_ws(c, n, n) == n);
        }
    }
}

/// Appending a fresh assignment line to a content in which the key never
/// matched makes the scan find exactly that line.
proof fn lemma_get_at_append(key: Seq<char>, value: Seq<char>, c: Seq<char>, i: int)
    requires
        valid_key(key),
        valid_value(value),
        0 <= i <= c.len(),
        spec_get_at(key, c, i) is None,
    ensures
        spec_get_at(key, c + seq!['\n'] + assignment(key, value), i) == Some(
            (value, c.len() + 1 as int, (c + seq!['\n'] + assignment(key, value)).len() as int),
        ),
    decreases c.len() - i,
{
    let c1 = c + seq!['\n'] + assignment(key, value);
    let n = c.len() as int;
    let m = c1.len() as int;
    let a = assignment(key, value);
    if i == n {
        // The next line of the extended content is the lone newline,
        // which neither comments nor matches; then comes the assignment.
        assert(c1[n] == '\n');
        assert(line_end(c1, n) == n + 1) by {
            lemma_find_char_val(c1, n, m, '\n', n);
        }
        assert(!is_comment_at(c1, n)) by {
            lemma_first_non_ws(c1, n, n + 1);
            assert(is_ws(c1[n]));
        }
        assert(!matches_at(key, c1, n)) by {
            if eq_at(c1, n, key) {
                assert(c1.subrange(n, n + key.len() as int)[0] == c1[n]);
                assert(key[0] == '\n');
            }
        }
        assert(c1.subrange(n + 1, n + 1 + a.len() as int) =~= a);
        lemma_assignment_line(key, value, c1, n + 1);
        assert(spec_get_at(key, c1, n + 1) == Some((value, n + 1, m)));
    } else {
        let e = line_end(c, i);
        lemma_find_char_in(c, i, n, '\n');
        let j = find_char_in(c, i, n, '\n');
        if j < n {
            // A complete line: same bytes, same decisions, scan on.
            assert(c[e - 1] == '\n');
            assert(line_end(c1, i) == e) by {
                lemma_find_char_val(c1, i, m, '\n', j);
            }
            lemma_line_decisions_agree(key, c, c1, i, e);
            lemma_get_at_append(key, value, c, e);
        } else {
            // The unterminated final line: completed by the appended
            // newline, deciding as before; then the assignment follows.
            lemma_incomplete_line_extend(key, c, a, i);
            assert(spec_get_at(key, c1, i) == spec_get_at(key, c1, n + 1));
            assert(c1.subrange(n + 1, n + 1 + a.len() as int) =~= a);
            lemma_assignment_line(key, value, c1, n + 1);
            assert(spec_get_at(key, c1, n + 1) == Some((value, n + 1, m)));
        }
    }
}

/// Replacing the line the scan found with a fresh assignment line makes
/// the scan find exactly the replacement, in the same place.
proof fn lemma_get_at_splice(key: Seq<char>, value: Seq<char>, c: Seq<char>, i: int, s: int, e: int)
    requires
        valid_key(key),
        valid_value(value),
        0 <= i <= c.len(),
        spec_get_at(key, c, i) matches Some(t) && t.1 == s && t.2 == e,
    ensures
        spec_get_at(
            key,
            c.subrange(0, s) + assignment(key, value) + seq!['\n'] + c.subrange(e, c.len() as int),
            i,
        ) == Some((value, s, s + assignment(key, value).len() + 1)),
    decreases c.len() - i,
{
    let c1 = c.subrange(0, s) + assignment(key, value) + seq!['\n'] + c.subrange(
        e,
        c.len() as int,
    );
    let a = assignment(key, value);
    let alen = a.len() as int;
    let n = c.len() as int;
    let m = c1.len() as int;
    lemma_spec_get_at_bounds(key, c, i);
    assert forall|k: int| 0 <= k < s implies c1[k] == c[k] by {}
    assert forall|k: int| 0 <= k < alen implies c1[s + k] == a[k] by {}
    assert(c1[s + alen] == '\n');
    if i == s {
        assert(c1.subrange(s, s + alen) =~= a);
        lemma_assignment_line(key, value, c1, s);
        assert(spec_get_at(key, c1, s) == Some((value, s, s + alen + 1)));
    } else {
        // A line before the match: complete, within the shared prefix,
        // deciding as before.
        let ei = line_end(c, i);
        lemma_find_char_in(c, i, n, '\n');
        let j = find_char_in(c, i, n, '\n');
        lemma_spec_get_at_bounds(key, c, ei);
        assert(spec_get_at(key, c, ei) == spec_get_at(key, c, i));
        assert(ei <= s);
        assert(j < n) by {
            if j == n {
                assert(ei == n);
                assert(spec_get_at(key, c, ei) is None);
            }
        }
        assert(c[ei - 1] == '\n');
        assert(line_end(c1, i) == ei) by {
            lemma_find_char_val(c1, i, m, '\n', j);
        }
        lemma_line_decisions_agree(key, c, c1, i, ei);
        lemma_get_at_splice(key, value, c, ei, s, e);
    }
}

/// Setting a key and then reading it gives the value back: the law of
/// the patcher's round trip.
pub proof fn lemma_set_then_get(key: Seq<char>, value: Seq<char>, c: Seq<char>)
    requires
        valid_key(key),
        valid_value(value),
    ensures
        spec_get(key, spec_set(key, value, c)) matches Some(t) && t.0 == value,
{
    match spec_get(key, c) {
        None => {
            lemma_get_at_append(key, value, c, 0);
        },
        Some(t) => {
            if t.0 == value {
            } else {
                lemma_spec_get_at_bounds(key, c, 0);
                lemma_get_at_splice(key, value, c, 0, t.1, t.2);
            }
        },
    }
}

/// Setting the same key to the same value twice leaves the content of
/// the first set untouched: the patch is idempotent.
pub proof fn lemma_set_idempotent(key: Seq<char>, value: Seq<char>, c: Seq<char>)
    requires
        valid_key(key),
        valid_value(value),
    ensures
        spec_set(key, value, spec_set(key, value, c)) == spec_set(key, value, c),
{
    lemma_set_then_get(key, value, c);
}

/// How many lines at position `i` or later equal `l`.
pub open spec fn spec_count_line_at(l: Seq<char>, c: Seq<char>, i: int) -> nat
    decreases c.len() - i,
    when i >= 0
    via spec_count_line_at_decreases
{
    if i >= c.len() {
        0
    } else {
        (if line_eq_at(l, c, i) {
            1nat
        } else {
            0nat
        }) + spec_count_line_at(l, c, line_end(c, i))
    }
}

#[via_fn]
proof fn spec_count_line_at_decreases(l: Seq<char>, c: Seq<char>, i: int) {
    if 0 <= i < c.len() {
        crate::kv::lemma_line_end(c, i);
    }
}

/// How many lines of `c` equal `l`.
pub open spec fn spec_count_line(l: Seq<char>, c: Seq<char>) -> nat {
    spec_count_line_at(l, c, 0)
}

/// A line occurs somewhere exactly when it is counted at least once.
pub proof fn lemma_count_has_line(l: Seq<char>, c: Seq<char>, i: int)
    requires
        0 <= i <= c.len(),
    ensures
        (spec_count_line_at(l, c, i) == 0) <==> !spec_has_line_at(l, c, i),
    decreases c.len() - i,
{
    if i < c.len() {
        crate::kv::lemma_line_end(c, i);
        lemma_count_has_line(l, c, line_end(c, i));
    }
}

/// The freshly appended line of an `add`: at the position right after
/// the separating newline, the extended content carries exactly `l` as a
/// line.
proof fn lemma_target_line(l: Seq<char>, base: Seq<char>)
    requires
        valid_line(l),
    ensures
        spec_has_line_at(l, base + seq!['\n'] + l + seq!['\n'], base.len() + 1 as int),
        spec_count_line_at(l, base + seq!['\n'] + l + seq!['\n'], base.len() + 1 as int) == 1,
{
    let c1 = base + seq!['\n'] + l + seq!['\n'];
    let n = base.len() as int;
    let m = c1.len() as int;
    let ll = l.len() as int;
    assert forall|k: int| 0 <= k < ll implies c1[n + 1 + k] == l[k] by {}
    assert(c1[m - 1] == '\n');
    assert(line_end(c1, n + 1) == m) by {
        lemma_find_char_val(c1, n + 1, m, '\n', m - 1);
    }
    assert(chomp_end(c1, n + 1, m) == m - 1);
    assert(line_eq_at(l, c1, n + 1)) by {
        assert(c1.subrange(n + 1, n + 1 + ll) =~= l);
    }
    assert(spec_count_line_at(l, c1, m) == 0);
}

/// Scanning the extension of a content by a fresh line visits the old
/// lines with their old identities, then the fresh line.
proof fn lemma_add_scan(l: Seq<char>, base: Seq<char>, i: int)
    requires
        valid_line(l),
        0 <= i <= base.len(),
    ensures
        spec_has_line_at(l, base + seq!['\n'] + l + seq!['\n'], i),
        l.len() > 0 ==> spec_count_line_at(l, base + seq!['\n'] + l + seq!['\n'], i)
            == spec_count_line_at(l, base, i) + 1,
    decreases base.len() - i,
{
    let c1 = base + seq!['\n'] + l + seq!['\n'];
    let n = base.len() as int;
    let m = c1.len() as int;
    lemma_target_line(l, base);
    lemma_count_has_line(l, c1, n + 1);
    if i == n {
        // The separating newline is an empty line; the fresh line comes
        // right after it.
        assert(c1[n] == '\n');
        assert(line_end(c1, n) == n + 1) by {
            lemma_find_char_val(c1, n, m, '\n', n);
        }
        assert(chomp_end(c1, n, n + 1) == n);
        if l.len() > 0 {
            assert(!line_eq_at(l, c1, n));
            assert(spec_count_line_at(l, base, n) == 0);
        }
    } else {
        lemma_find_char_in(base, i, n, '\n');
        let j = find_char_in(base, i, n, '\n');
        let e = line_end(base, i);
        assert forall|k: int| 0 <= k < n implies c1[k] == base[k] by {}
        if j < n {
            // A complete line of the old content: same extent, same
            // chomped text, on both sides.
            assert(line_end(c1, i) == e) by {
                lemma_find_char_val(c1, i, m, '\n', j);
            }
            assert(chomp_end(c1, i, e) == chomp_end(base, i, e));
            let e2 = chomp_end(base, i, e);
            assert(line_eq_at(l, c1, i) == line_eq_at(l, base, i)) by {
                if e2 - i == l.len() {
                    assert(base.subrange(i, i + l.len() as int) =~= c1.subrange(
                        i,
                        i + l.len() as int,
                    ));
                }
            }
            lemma_add_scan(l, base, e);
        } else {
            // The unterminated final line: the appended newline
            // terminates it without changing its chomped text.
            assert(e == n);
            assert(line_end(c1, i) == n + 1) by {
                lemma_find_char_val(c1, i, m, '\n', n);
            }
            assert(base[n - 1] != '\n');
            assert(chomp_end(c1, i, n + 1) == chomp_end(base, i, n));
            let e2 = chomp_end(base, i, n);
            assert(line_eq_at(l, c1, i) == line_eq_at(l, base, i)) by {
                if e2 - i == l.len() {
                    assert(base.subrange(i, i + l.len() as int) =~= c1.subrange(
                        i,
                        i + l.len() as int,
                    ));
                }
            }
            assert(spec_count_line_at(l, base, n) == 0);
        }
    }
}

/// Adding a line twice is adding it once: the second `add` finds the
/// line the first one ensured and leaves the content untouched.
pub proof fn lemma_add_idempotent(l: Seq<char>, c: Option<Seq<char>>)
    requires
        valid_line(l),
    ensures
        spec_add(l, Some(spec_add(l, c))) == spec_add(l, c),
{
    if !(c is Some && spec_has_line(l, c->0)) {
        let base = if c is Some {
            c->0
        } else {
            Seq::<char>::empty()
        };
        lemma_add_scan(l, base, 0);
        assert(spec_add(l, c) == base + seq!['\n'] + l + seq!['\n']);
    }
}

/// Adding a line that does not yet occur yields exactly one occurrence,
/// and repeating the `add` keeps it at exactly one.
pub proof fn lemma_add_single_occurrence(l: Seq<char>, c: Option<Seq<char>>)
    requires
        valid_line(l),
        l.len() > 0,
        c matches Some(x) ==> !spec_has_line(l, x),
    ensures
        spec_count_line(l, spec_add(l, c)) == 1,
        spec_count_line(l, spec_add(l, Some(spec_add(l, c)))) == 1,
{
    let base = if c is Some {
        c->0
    } else {
        Seq::<char>::empty()
    };
    lemma_add_scan(l, base, 0);
    if c is Some {
        lemma_count_has_line(l, base, 0);
    }
    lemma_add_idempotent(l, c);
}

/// Counting lines is invariant under shifting past a fixed prefix.
proof fn lemma_count_shift(l: Seq<char>, p: Seq<char>, t: Seq<char>, i: int)
    requires
        0 <= i <= t.len(),
    ensures
        spec_count_line_at(l, p + t, p.len() + i) == spec_count_line_at(l, t, i),
    decreases t.len() - i,
{
    let c2 = p + t;
    let off = p.len() as int;
    let n = t.len() as int;
    assert forall|k: int| 0 <= k < n implies c2[off + k] == t[k] by {}
    if i < n {
        lemma_find_char_in(t, i, n, '\n');
        let j = find_char_in(t, i, n, '\n');
        assert(find_char_in(c2, off + i, off + n, '\n') == off + j) by {
            assert forall|k: int| off + i <= k < off + j implies c2[k] != '\n' by {
                assert(c2[k] == t[k - off]);
            }
            lemma_find_char_val(c2, off + i, off + n, '\n', off + j);
        }
        let e = line_end(t, i);
        assert(line_end(c2, off + i) == off + e);
        assert(chomp_end(c2, off + i, off + e) == off + chomp_end(t, i, e));
        let e2 = chomp_end(t, i, e);
        assert(line_eq_at(l, c2, off + i) == line_eq_at(l, t, i)) by {
            if i + l.len() <= n {
                assert(t.subrange(i, i + l.len() as int) =~= c2.subrange(
                    off + i,
                    off + i + l.len() as int,
                ));
            } else {
                assert(!eq_at(t, i, l));
                assert(!eq_at(c2, off + i, l));
            }
        }
        crate::kv::lemma_line_end(t, i);
        lemma_count_shift(l, p, t, e);
    }
}

/// Prefixing a content with one complete line adds that line's identity
/// to the count and nothing else.
proof fn lemma_count_prepend_line(l: Seq<char>, k: Seq<char>, t: Seq<char>)
    requires
        forall|x: int| 0 <= x < k.len() ==> k[x] != '\n',
        k.len() > 0 ==> k[k.len() - 1] != '\r',
    ensures
        spec_count_line_at(l, k + seq!['\n'] + t, 0) == (if k == l {
            1nat
        } else {
            0nat
        }) + spec_count_line_at(l, t, 0),
{
    let c2 = k + seq!['\n'] + t;
    let kl = k.len() as int;
    let m = c2.len() as int;
    assert forall|x: int| 0 <= x < kl implies c2[x] == k[x] by {}
    assert(c2[kl] == '\n');
    assert(line_end(c2, 0) == kl + 1) by {
        lemma_find_char_val(c2, 0, m, '\n', kl);
    }
    assert(chomp_end(c2, 0, kl + 1) == kl);
    assert(line_eq_at(l, c2, 0) == (k == l)) by {
        assert(c2.subrange(0, kl) =~= k);
        if k == l {
            assert(eq_at(c2, 0, l));
        } else {
            if eq_at(c2, 0, l) && kl == l.len() {
                assert(c2.subrange(0, kl) == l);
            }
        }
    }
    assert(c2 =~= (k + seq!['\n']) + t);
    lemma_count_shift(l, k + seq!['\n'], t, 0);
    assert(spec_count_line_at(l, (k + seq!['\n']) + t, kl + 1) == spec_count_line_at(l, t, 0));
}

/// What `strip` leaves holds no line equal to the stripped one, for
/// content free of carriage returns.
proof fn lemma_strip_scan(l: Seq<char>, c: Seq<char>, i: int)
    requires
        0 <= i <= c.len(),
        forall|k: int| 0 <= k < c.len() ==> c[k] != '\r',
    ensures
        spec_count_line_at(l, spec_strip_at(l, c, i), 0) == 0,
    decreases c.len() - i,
{
    if i < c.len() {
        crate::kv::lemma_line_end(c, i);
        let e = line_end(c, i);
        let e2 = chomp_end(c, i, e);
        let piece = c.subrange(i, e2);
        lemma_find_char_in(c, i, c.len() as int, '\n');
        assert(e2 <= e);
        assert forall|x: int| 0 <= x < piece.len() implies piece[x] != '\n' by {
            assert(piece[x] == c[i + x]);
        }
        assert(piece.len() > 0 ==> piece[piece.len() - 1] != '\r') by {
            if piece.len() > 0 {
                assert(piece[piece.len() - 1] == c[e2 - 1]);
            }
        }
        lemma_strip_scan(l, c, e);
        if piece == l {
            assert(spec_strip_at(l, c, i) =~= spec_strip_at(l, c, e));
        } else {
            assert(spec_strip_at(l, c, i) =~= (piece + seq!['\n']) + spec_strip_at(l, c, e));
            lemma_count_prepend_line(l, piece, spec_strip_at(l, c, e));
            assert(spec_count_line_at(l, piece + seq!['\n'] + spec_strip_at(l, c, e), 0) == 0);
            assert(piece + seq!['\n'] + spec_strip_at(l, c, e) =~= spec_strip_at(l, c, i));
        }
    }
}

/// Stripping removes every occurrence of the line: no line of the
/// result equals it, for content free of carriage returns.
pub proof fn lemma_strip_removes(l: Seq<char>, c: Seq<char>)
    requires
        forall|k: int| 0 <= k < c.len() ==> c[k] != '\r',
    ensures
        spec_count_line(l, spec_strip(l, c)) == 0,
        !spec_has_line(l, spec_strip(l, c)),
{
    lemma_strip_scan(l, c, 0);
    lemma_count_has_line(l, spec_strip(l, c), 0);
}

} // verus!
