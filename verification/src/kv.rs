//! Idempotent key-value patching of line-oriented configuration text.
//!
//! The functions here work on the textual content of a configuration file
//! made of `#`-comment lines and `KEY="value"` assignment lines.  Reading
//! the file and writing the result back is the caller's business; every
//! function takes the current content (or `None` for a file that does not
//! exist) and returns the new content.

use vstd::prelude::*;

use crate::text::copy_range;
use crate::text::append_range;
use crate::text::eq_at;
use crate::text::find_char_from;
use crate::text::find_char_in;
use crate::text::first_non_ws;
use crate::text::from_chars;
use crate::text::last_non_ws;
use crate::text::lemma_find_char_in;
use crate::text::lemma_first_non_ws;
use crate::text::lemma_last_non_ws;
use crate::text::range_eq;
use crate::text::rskip_ws;
use crate::text::skip_ws;
use crate::text::to_chars;

verus! {

/// Index just past the line that starts at `i`: one past its newline, or
/// the end of the content for an unterminated final line.
pub open spec fn line_end(c: Seq<char>, i: int) -> int {
    let j = find_char_in(c, i, c.len() as int, '\n');
    if j < c.len() {
        j + 1
    } else {
        c.len() as int
    }
}

pub proof fn lemma_line_end(c: Seq<char>, i: int)
    requires
        0 <= i <= c.len(),
    ensures
        i < c.len() ==> i < line_end(c, i) <= c.len(),
        i == c.len() ==> line_end(c, i) == c.len(),
{
    lemma_find_char_in(c, i, c.len() as int, '\n');
}

/// The line starting at `i` is a comment: its first non-blank character is
/// `#`.
pub open spec fn is_comment_at(c: Seq<char>, i: int) -> bool {
    let e = line_end(c, i);
    let k = first_non_ws(c, i, e);
    k < e && c[k] == '#'
}

/// The line starting at `i` is an assignment whose key part (the text before
/// the first `=`, trimmed) equals `key`, and the raw line also begins with
/// `key` itself.
pub open spec fn matches_at(key: Seq<char>, c: Seq<char>, i: int) -> bool {
    let e = line_end(c, i);
    let q = find_char_in(c, i, e, '=');
    let ts = first_non_ws(c, i, q);
    let te = last_non_ws(c, ts, q);
    &&& eq_at(c, i, key)
    &&& te - ts == key.len()
    &&& eq_at(c, ts, key)
}

/// The value carried by the assignment line starting at `i`: the text after
/// the first `=`, trimmed of surrounding blanks, with one pair of enclosing
/// double quotes removed if present.
pub open spec fn value_at(c: Seq<char>, i: int) -> Seq<char> {
    let e = line_end(c, i);
    let q = find_char_in(c, i, e, '=');
    if q >= e {
        Seq::<char>::empty()
    } else {
        let ts = first_non_ws(c, q + 1, e);
        let te = last_non_ws(c, ts, e);
        if te - ts >= 2 && c[ts] == '"' && c[te - 1] == '"' {
            c.subrange(ts + 1, te - 1)
        } else {
            c.subrange(ts, te)
        }
    }
}

/// Result of a successful lookup: the parsed value and the extent of the
/// whole matched line within the content.
pub struct KeyValuePosition {
    pub value: String,
    pub start_pos: usize,
    pub end_pos: usize,
}

/// Scans the content from position `i` for the first non-comment line whose
/// key equals `key`; yields the parsed value and the line's extent.
pub open spec fn spec_get_at(key: Seq<char>, c: Seq<char>, i: int) -> Option<(Seq<char>, int, int)>
    decreases c.len() - i,
    when i >= 0
    via spec_get_at_decreases
{
    if i >= c.len() {
        None
    } else {
        let e = line_end(c, i);
        if is_comment_at(c, i) {
            spec_get_at(key, c, e)
        } else if matches_at(key, c, i) {
            Some((value_at(c, i), i, e))
        } else {
            spec_get_at(key, c, e)
        }
    }
}

#[via_fn]
proof fn spec_get_at_decreases(key: Seq<char>, c: Seq<char>, i: int) {
    if 0 <= i < c.len() {
        lemma_line_end(c, i);
    }
}

/// What `get` returns on content `c`.
pub open spec fn spec_get(key: Seq<char>, c: Seq<char>) -> Option<(Seq<char>, int, int)> {
    spec_get_at(key, c, 0)
}

pub proof fn lemma_spec_get_at_bounds(key: Seq<char>, c: Seq<char>, i: int)
    requires
        0 <= i <= c.len(),
    ensures
        spec_get_at(key, c, i) matches Some(t) ==> i <= t.1 < t.2 <= c.len() && t.2 == line_end(
            c,
            t.1,
        ) && matches_at(key, c, t.1) && t.0 == value_at(c, t.1),
    decreases c.len() - i,
{
    if i < c.len() {
        lemma_line_end(c, i);
        let e = line_end(c, i);
        if is_comment_at(c, i) || !matches_at(key, c, i) {
            lemma_spec_get_at_bounds(key, c, e);
        }
    }
}

/// The assignment text `KEY="value"` that `set` writes.
pub open spec fn assignment(key: Seq<char>, value: Seq<char>) -> Seq<char> {
    key + seq!['=', '"'] + value + seq!['"']
}

/// What `set` returns on content `c`: the matched line is spliced out and
/// replaced when its value differs, left alone when it is already `value`,
/// and a fresh assignment is appended when the key is absent.
pub open spec fn spec_set(key: Seq<char>, value: Seq<char>, c: Seq<char>) -> Seq<char> {
    match spec_get(key, c) {
        Some(t) => {
            if t.0 == value {
                c
            } else {
                c.subrange(0, t.1) + assignment(key, value) + seq!['\n'] + c.subrange(
                    t.2,
                    c.len() as int,
                )
            }
        },
        None => c + seq!['\n'] + assignment(key, value),
    }
}

/// End of the line starting at `i` once a trailing newline and a trailing
/// carriage return before it are dropped.
pub open spec fn chomp_end(c: Seq<char>, i: int, e: int) -> int {
    let e1 = if e > i && c[e - 1] == '\n' {
        e - 1
    } else {
        e
    };
    if e1 > i && c[e1 - 1] == '\r' {
        e1 - 1
    } else {
        e1
    }
}

/// The line starting at `i`, with its line terminator dropped, is exactly
/// `l`.
pub open spec fn line_eq_at(l: Seq<char>, c: Seq<char>, i: int) -> bool {
    let e2 = chomp_end(c, i, line_end(c, i));
    e2 - i == l.len() && eq_at(c, i, l)
}

/// Some line at position `i` or later equals `l`.
pub open spec fn spec_has_line_at(l: Seq<char>, c: Seq<char>, i: int) -> bool
    decreases c.len() - i,
    when i >= 0
    via spec_has_line_at_decreases
{
    if i >= c.len() {
        false
    } else {
        line_eq_at(l, c, i) || spec_has_line_at(l, c, line_end(c, i))
    }
}

#[via_fn]
proof fn spec_has_line_at_decreases(l: Seq<char>, c: Seq<char>, i: int) {
    if 0 <= i < c.len() {
        lemma_line_end(c, i);
    }
}

/// Some line of `c` equals `l`.
pub open spec fn spec_has_line(l: Seq<char>, c: Seq<char>) -> bool {
    spec_has_line_at(l, c, 0)
}

/// What `add` returns: the content unchanged when a line equal to `l`
/// already exists, else the content with `l` appended as a fresh line.
pub open spec fn spec_add(l: Seq<char>, c: Option<Seq<char>>) -> Seq<char> {
    let base = if c is Some {
        c->0
    } else {
        Seq::<char>::empty()
    };
    if c is Some && spec_has_line(l, c->0) {
        base
    } else {
        base + seq!['\n'] + l + seq!['\n']
    }
}

/// What `strip` leaves of the content from position `i` on: every line not
/// equal to `l`, rewritten with a plain newline terminator.
pub open spec fn spec_strip_at(l: Seq<char>, c: Seq<char>, i: int) -> Seq<char>
    decreases c.len() - i,
    when i >= 0
    via spec_strip_at_decreases
{
    if i >= c.len() {
        Seq::<char>::empty()
    } else {
        let e = line_end(c, i);
        let e2 = chomp_end(c, i, e);
        (if c.subrange(i, e2) == l {
            Seq::<char>::empty()
        } else {
            c.subrange(i, e2) + seq!['\n']
        }) + spec_strip_at(l, c, e)
    }
}

#[via_fn]
proof fn spec_strip_at_decreases(l: Seq<char>, c: Seq<char>, i: int) {
    if 0 <= i < c.len() {
        lemma_line_end(c, i);
    }
}

/// What `strip` returns on existing content `c`.
pub open spec fn spec_strip(l: Seq<char>, c: Seq<char>) -> Seq<char> {
    spec_strip_at(l, c, 0)
}

/// Looks `key` up in `content`.  Scans non-comment lines top to bottom and
/// returns the first whose key part equals `key` exactly, together with the
/// extent of that line, or `None` when no line matches.
pub fn get(key: &str, content: &str) -> (r: Option<KeyValuePosition>)
    ensures
        r is Some <==> spec_get(key@, content@) is Some,
        r matches Some(p) ==> spec_get(key@, content@) == Some(
            (p.value@, p.start_pos as int, p.end_pos as int),
        ),
{
    let kc = to_chars(key);
    let cc = to_chars(content);
    let n: usize = cc.len();
    let mut i: usize = 0;
    while i < n
        invariant
            kc@ == key@,
            cc@ == content@,
            n == cc@.len(),
            0 <= i <= n,
            spec_get(key@, content@) == spec_get_at(key@, content@, i as int),
        decreases n - i,
    {
        proof {
            lemma_find_char_in(cc@, i as int, n as int, '\n');
        }
        let j = find_char_from(&cc, i, n, '\n');
        let e: usize = if j < n {
            j + 1
        } else {
            n
        };
        proof {
            assert(e == line_end(cc@, i as int));
            assert(i < e <= n);
        }
        let k = skip_ws(&cc, i, e);
        proof {
            lemma_first_non_ws(cc@, i as int, e as int);
        }
        if k < e && cc[k] == '#' {
            proof {
                assert(is_comment_at(cc@, i as int));
            }
            i = e;
        } else {
            proof {
                assert(!is_comment_at(cc@, i as int));
            }
            let q = find_char_from(&cc, i, e, '=');
            proof {
                lemma_find_char_in(cc@, i as int, e as int, '=');
            }
            let ts = skip_ws(&cc, i, q);
            proof {
                lemma_first_non_ws(cc@, i as int, q as int);
            }
            let te = rskip_ws(&cc, ts, q);
            proof {
                lemma_last_non_ws(cc@, ts as int, q as int);
            }
            let prefix_ok = range_eq(&cc, i, &kc);
            let trim_ok = te - ts == kc.len() && range_eq(&cc, ts, &kc);
            if prefix_ok && trim_ok {
                proof {
                    assert(matches_at(key@, cc@, i as int));
                }
                let value_chars: Vec<char>;
                if q >= e {
                    value_chars = Vec::new();
                    proof {
                        assert(value_chars@ =~= value_at(cc@, i as int));
                    }
                } else {
                    let vs = skip_ws(&cc, q + 1, e);
                    proof {
                        lemma_first_non_ws(cc@, q + 1, e as int);
                    }
                    let ve = rskip_ws(&cc, vs, e);
                    proof {
                        lemma_last_non_ws(cc@, vs as int, e as int);
                    }
                    if ve - vs >= 2 && cc[vs] == '"' && cc[ve - 1] == '"' {
                        value_chars = copy_range(&cc, vs + 1, ve - 1);
                    } else {
                        value_chars = copy_range(&cc, vs, ve);
                    }
                    proof {
                        assert(value_chars@ == value_at(cc@, i as int));
                    }
                }
                let value = from_chars(&value_chars);
                return Some(KeyValuePosition { value, start_pos: i, end_pos: e });
            } else {
                proof {
                    assert(!matches_at(key@, cc@, i as int));
                }
                i = e;
            }
        }
    }
    None
}

/// Sets `key` to `value` in `content`.  When the key is present with a
/// different value, exactly that line is replaced by `KEY="value"` and a
/// newline; when it is present with the same value, the content is returned
/// unchanged; when it is absent, a fresh assignment line is appended.
pub fn set(key: &str, value: &str, content: &str) -> (r: String)
    ensures
        r@ == spec_set(key@, value@, content@),
{
    proof {
        lemma_spec_get_at_bounds(key@, content@, 0);
    }
    match get(key, content) {
        Some(p) => {
            let value_owned = value.to_owned();
            if p.value == value_owned {
                content.to_owned()
            } else {
                let cc = to_chars(content);
                let kc = to_chars(key);
                let vc = to_chars(value);
                let mut out: Vec<char> = Vec::new();
                append_range(&mut out, &cc, 0, p.start_pos);
                append_range(&mut out, &kc, 0, kc.len());
                out.push('=');
                out.push('"');
                append_range(&mut out, &vc, 0, vc.len());
                out.push('"');
                out.push('\n');
                append_range(&mut out, &cc, p.end_pos, cc.len());
                proof {
                    assert(kc@.subrange(0, kc@.len() as int) =~= kc@);
                    assert(vc@.subrange(0, vc@.len() as int) =~= vc@);
                    assert(out@ =~= spec_set(key@, value@, content@));
                }
                from_chars(&out)
            }
        },
        None => {
            let kc = to_chars(key);
            let vc = to_chars(value);
            let mut out = to_chars(content);
            out.push('\n');
            append_range(&mut out, &kc, 0, kc.len());
            out.push('=');
            out.push('"');
            append_range(&mut out, &vc, 0, vc.len());
            out.push('"');
            proof {
                assert(kc@.subrange(0, kc@.len() as int) =~= kc@);
                assert(vc@.subrange(0, vc@.len() as int) =~= vc@);
                assert(out@ =~= spec_set(key@, value@, content@));
            }
            from_chars(&out)
        },
    }
}

/// Appends `line` as a new line of the content unless some existing line
/// already equals it.  `None` stands for a file that does not exist, which
/// is treated as empty content to be created.
pub fn add(line: &str, content: Option<&str>) -> (r: String)
    ensures
        content is None ==> r@ == spec_add(line@, None),
        content matches Some(c) ==> r@ == spec_add(line@, Some(c@)),
{
    let lc = to_chars(line);
    match content {
        Some(ctext) => {
            let cc = to_chars(ctext);
            let n: usize = cc.len();
            let mut i: usize = 0;
            while i < n
                invariant
                    content == Some(ctext),
                    lc@ == line@,
                    cc@ == ctext@,
                    n == cc@.len(),
                    0 <= i <= n,
                    spec_has_line(line@, ctext@) == spec_has_line_at(line@, ctext@, i as int),
                decreases n - i,
            {
                proof {
                    lemma_find_char_in(cc@, i as int, n as int, '\n');
                }
                let j = find_char_from(&cc, i, n, '\n');
                let e: usize = if j < n {
                    j + 1
                } else {
                    n
                };
                proof {
                    assert(e == line_end(cc@, i as int));
                    assert(i < e <= n);
                }
                let mut e2: usize = e;
                if e2 > i && cc[e2 - 1] == '\n' {
                    e2 = e2 - 1;
                }
                if e2 > i && cc[e2 - 1] == '\r' {
                    e2 = e2 - 1;
                }
                proof {
                    assert(e2 == chomp_end(cc@, i as int, e as int));
                }
                let matched = e2 - i == lc.len() && range_eq(&cc, i, &lc);
                if matched {
                    proof {
                        assert(line_eq_at(line@, cc@, i as int));
                        assert(spec_has_line(line@, ctext@));
                    }
                    return ctext.to_owned();
                }
                proof {
                    assert(!line_eq_at(line@, cc@, i as int));
                }
                i = e;
            }
            let mut out = cc;
            out.push('\n');
            append_range(&mut out, &lc, 0, lc.len());
            out.push('\n');
            proof {
                assert(lc@.subrange(0, lc@.len() as int) =~= lc@);
                assert(out@ =~= ctext@ + seq!['\n'] + line@ + seq!['\n']);
            }
            from_chars(&out)
        },
        None => {
            let mut out: Vec<char> = Vec::new();
            out.push('\n');
            append_range(&mut out, &lc, 0, lc.len());
            out.push('\n');
            proof {
                assert(lc@.subrange(0, lc@.len() as int) =~= lc@);
                assert(out@ =~= Seq::<char>::empty() + seq!['\n'] + line@ + seq!['\n']);
            }
            from_chars(&out)
        },
    }
}

/// Removes every line of the content that equals `line` exactly; the
/// remaining lines are rewritten each with a plain newline terminator.
/// A missing file (`None`) is left missing.
pub fn strip(line: &str, content: Option<&str>) -> (r: Option<String>)
    ensures
        content is None ==> r is None,
        content matches Some(c) ==> r matches Some(s) && s@ == spec_strip(line@, c@),
{
    let lc = to_chars(line);
    match content {
        Some(ctext) => {
            let cc = to_chars(ctext);
            let n: usize = cc.len();
            let mut out: Vec<char> = Vec::new();
            let mut i: usize = 0;
            while i < n
                invariant
                    lc@ == line@,
                    cc@ == ctext@,
                    n == cc@.len(),
                    0 <= i <= n,
                    spec_strip(line@, ctext@) == out@ + spec_strip_at(line@, ctext@, i as int),
                decreases n - i,
            {
                proof {
                    lemma_find_char_in(cc@, i as int, n as int, '\n');
                }
                let j = find_char_from(&cc, i, n, '\n');
                let e: usize = if j < n {
                    j + 1
                } else {
                    n
                };
                proof {
                    assert(e == line_end(cc@, i as int));
                    assert(i < e <= n);
                }
                let mut e2: usize = e;
                if e2 > i && cc[e2 - 1] == '\n' {
                    e2 = e2 - 1;
                }
                if e2 > i && cc[e2 - 1] == '\r' {
                    e2 = e2 - 1;
                }
                proof {
                    assert(e2 == chomp_end(cc@, i as int, e as int));
                }
                let matched = e2 - i == lc.len() && range_eq(&cc, i, &lc);
                let ghost out_before = out@;
                if !matched {
                    append_range(&mut out, &cc, i, e2);
                    out.push('\n');
                    proof {
                        assert(cc@.subrange(i as int, e2 as int) != line@);
                        assert(out@ =~= out_before + (cc@.subrange(i as int, e2 as int) + seq![
                            '\n',
                        ]));
                    }
                } else {
                    proof {
                        assert(cc@.subrange(i as int, e2 as int) == line@);
                    }
                }
                i = e;
            }
            proof {
                assert(spec_strip(line@, ctext@) =~= out@);
            }
            Some(from_chars(&out))
        },
        None => None,
    }
}

} // verus!
