//! Decisions of the keyring agent: which keyring entries are fit to
//! fetch, where each fetched key lands, and when a failed fetch is
//! retried.
//!
//! The agent itself runs a network loop around these functions; they take
//! the parsed keyring map and hand back plain values, so every decision
//! is checked here while the network work stays outside.

use vstd::prelude::*;

use crate::pipeline::Setting;
use crate::text::app_str;
use crate::text::from_chars;
use crate::text::range_eq;
use crate::text::to_chars;

verus! {

/// The URL names the scheme the fetcher accepts: it begins with
/// `https://`.
pub open spec fn spec_is_https(url: Seq<char>) -> bool {
    url.len() >= 8 && url.subrange(0, 8) == "https://"@
}

/// Tests whether a key URL is an HTTPS URL; only such URLs are fetched.
pub fn is_https_url(url: &str) -> (r: bool)
    ensures
        r == spec_is_https(url@),
{
    let uc = to_chars(url);
    let pat = to_chars("https://");
    proof {
        reveal_strlit("https://");
    }
    range_eq(&uc, 0, &pat)
}

/// One keyring to update: the name of its keyring file, the URL of its
/// key, and whether that URL may be fetched at all.
#[derive(Debug)]
pub struct KeyJob {
    pub name: String,
    pub url: String,
    pub dest_file: String,
    pub https_ok: bool,
}

/// Mathematical model of a `KeyJob`.
pub struct KeyJobV {
    pub name: Seq<char>,
    pub url: Seq<char>,
    pub dest_file: Seq<char>,
    pub https_ok: bool,
}

impl DeepView for KeyJob {
    type V = KeyJobV;

    open spec fn deep_view(&self) -> KeyJobV {
        KeyJobV {
            name: self.name@,
            url: self.url@,
            dest_file: self.dest_file@,
            https_ok: self.https_ok,
        }
    }
}

/// The job one keyring entry comes to: the key lands in a `.gpg` file
/// under the entry's name, and only an HTTPS URL is fetched.
pub open spec fn spec_key_job(name: Seq<char>, url: Seq<char>) -> KeyJobV {
    KeyJobV { name, url, dest_file: name + ".gpg"@, https_ok: spec_is_https(url) }
}

/// The jobs of a whole keyring map, in its order.
pub open spec fn spec_key_jobs(entries: Seq<(Seq<char>, Seq<char>)>) -> Seq<KeyJobV> {
    Seq::new(entries.len(), |i: int| spec_key_job(entries[i].0, entries[i].1))
}

/// Appends a key job to `out`.
fn push_job(out: &mut Vec<KeyJob>, j: KeyJob)
    ensures
        final(out).deep_view() == old(out).deep_view().push(j.deep_view()),
{
    out.push(j);
    proof {
        assert forall|k: int| 0 <= k < out@.len() implies out.deep_view()[k] == old(
            out,
        ).deep_view().push(j.deep_view())[k] by {
            if k < out@.len() - 1 {
                assert(out@[k] == old(out)@[k]);
            }
        }
        assert(out.deep_view() =~= old(out).deep_view().push(j.deep_view()));
    }
}

/// Turns the keyring map into the list of fetch jobs: each entry's key
/// goes to `<name>.gpg`, and an entry whose URL is not HTTPS is marked
/// unfit, to be skipped with a report.
pub fn keyring_jobs(keyrings: &Vec<Setting>) -> (r: Vec<KeyJob>)
    ensures
        r.deep_view() == spec_key_jobs(keyrings.deep_view()),
{
    let mut out: Vec<KeyJob> = Vec::new();
    let mut i: usize = 0;
    while i < keyrings.len()
        invariant
            i <= keyrings@.len(),
            out.deep_view() == spec_key_jobs(keyrings.deep_view()).take(i as int),
        decreases keyrings@.len() - i,
    {
        proof {
            assert(keyrings.deep_view()[i as int] == keyrings@[i as int].deep_view());
        }
        let entry = &keyrings[i];
        let mut dest: Vec<char> = Vec::new();
        app_str(&mut dest, entry.key.as_str());
        app_str(&mut dest, ".gpg");
        let job = KeyJob {
            name: entry.key.clone(),
            url: entry.value.clone(),
            dest_file: from_chars(&dest),
            https_ok: is_https_url(entry.value.as_str()),
        };
        push_job(&mut out, job);
        i = i + 1;
        proof {
            assert(out.deep_view() =~= spec_key_jobs(keyrings.deep_view()).take(i as int));
        }
    }
    proof {
        assert(spec_key_jobs(keyrings.deep_view()).take(keyrings@.len() as int) =~= spec_key_jobs(
            keyrings.deep_view(),
        ));
    }
    out
}

/// Whether a failed fetch is tried again: up to three attempts are made
/// for each keyring before the agent gives it up.
pub fn should_retry(attempts_made: u64) -> (r: bool)
    ensures
        r == (attempts_made < 3),
{
    attempts_made < 3
}

/// One entry of the raw keyring map as parsed from its file: a value
/// that was not a plain string is already gone, leaving `None`.
#[derive(Debug)]
pub struct RawEntry {
    pub name: String,
    pub value: Option<String>,
}

/// Mathematical model of a `RawEntry`.
pub struct RawEntryV {
    pub name: Seq<char>,
    pub value: Option<Seq<char>>,
}

impl DeepView for RawEntry {
    type V = RawEntryV;

    open spec fn deep_view(&self) -> RawEntryV {
        RawEntryV { name: self.name@, value: self.value.deep_view() }
    }
}

/// The well-formed entries of the raw map, in order.
pub open spec fn spec_valid_entries(es: Seq<RawEntryV>) -> Seq<(Seq<char>, Seq<char>)>
    decreases es.len(),
{
    if es.len() == 0 {
        Seq::<(Seq<char>, Seq<char>)>::empty()
    } else {
        spec_valid_entries(es.drop_last()) + (if es.last().value is Some {
            seq![(es.last().name, es.last().value->0)]
        } else {
            Seq::<(Seq<char>, Seq<char>)>::empty()
        })
    }
}

/// The names whose values were not plain strings, in order.
pub open spec fn spec_invalid_names(es: Seq<RawEntryV>) -> Seq<Seq<char>>
    decreases es.len(),
{
    if es.len() == 0 {
        Seq::<Seq<char>>::empty()
    } else {
        spec_invalid_names(es.drop_last()) + (if es.last().value is Some {
            Seq::<Seq<char>>::empty()
        } else {
            seq![es.last().name]
        })
    }
}

/// Splits the raw keyring map into the usable name-to-URL entries and
/// the names whose values were malformed and must be reported.
pub fn partition_keyring_entries(entries: &Vec<RawEntry>) -> (r: (Vec<Setting>, Vec<String>))
    ensures
        r.0.deep_view() == spec_valid_entries(entries.deep_view()),
        r.1.deep_view() == spec_invalid_names(entries.deep_view()),
{
    let mut good: Vec<Setting> = Vec::new();
    let mut bad: Vec<String> = Vec::new();
    let mut i: usize = 0;
    while i < entries.len()
        invariant
            i <= entries@.len(),
            good.deep_view() == spec_valid_entries(entries.deep_view().take(i as int)),
            bad.deep_view() == spec_invalid_names(entries.deep_view().take(i as int)),
        decreases entries@.len() - i,
    {
        proof {
            let dv = entries.deep_view();
            assert(dv[i as int] == entries@[i as int].deep_view());
            assert(dv.take(i + 1).drop_last() =~= dv.take(i as int));
            assert(dv.take(i + 1).last() == dv[i as int]);
        }
        let entry = &entries[i];
        match &entry.value {
            Some(url) => {
                crate::pipeline::push_setting(
                    &mut good,
                    Setting { key: entry.name.clone(), value: url.clone() },
                );
                proof {
                    assert(good.deep_view() =~= spec_valid_entries(
                        entries.deep_view().take(i + 1),
                    ));
                    assert(bad.deep_view() =~= spec_invalid_names(entries.deep_view().take(i + 1)));
                }
            },
            None => {
                crate::cfg::push_string_clone(&mut bad, &entry.name);
                proof {
                    assert(good.deep_view() =~= spec_valid_entries(
                        entries.deep_view().take(i + 1),
                    ));
                    assert(bad.deep_view() =~= spec_invalid_names(entries.deep_view().take(i + 1)));
                }
            },
        }
        i = i + 1;
    }
    proof {
        assert(entries.deep_view().take(entries@.len() as int) =~= entries.deep_view());
    }
    (good, bad)
}

} // verus!
