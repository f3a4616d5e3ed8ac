//! Selection of the downloaded snap artifacts.
//!
//! The snap downloader drops an assertion file and a snap file into the
//! cache directory, under names that start with the package name and an
//! underscore.  From a directory listing, these functions pick the files
//! to keep and the fixed names to rename them to; the download itself and
//! the renames stay with the caller.

use vstd::prelude::*;

use crate::text::app_str;
use crate::text::eq_at;
use crate::text::from_chars;
use crate::text::range_eq;
use crate::text::to_chars;

verus! {

/// The file name starts with the package name and an underscore.
pub open spec fn has_snap_prefix(f: Seq<char>, pkg: Seq<char>) -> bool {
    eq_at(f, 0, pkg + seq!['_'])
}

/// The file name ends with `suffix`.
pub open spec fn has_suffix(f: Seq<char>, suffix: Seq<char>) -> bool {
    f.len() >= suffix.len() && eq_at(f, f.len() - suffix.len(), suffix)
}

/// The file is the package's downloaded assertion file.
pub open spec fn is_assert_artifact(f: Seq<char>, pkg: Seq<char>) -> bool {
    has_snap_prefix(f, pkg) && has_suffix(f, ".assert"@)
}

/// The file is the package's downloaded snap file.
pub open spec fn is_snap_artifact(f: Seq<char>, pkg: Seq<char>) -> bool {
    has_snap_prefix(f, pkg) && has_suffix(f, ".snap"@)
}

/// The last listed assertion file of the package, if any.
pub open spec fn last_assert_artifact(files: Seq<Seq<char>>, pkg: Seq<char>) -> Option<Seq<char>>
    decreases files.len(),
{
    if files.len() == 0 {
        None
    } else if is_assert_artifact(files.last(), pkg) {
        Some(files.last())
    } else {
        last_assert_artifact(files.drop_last(), pkg)
    }
}

/// The last listed snap file of the package, if any.
pub open spec fn last_snap_artifact(files: Seq<Seq<char>>, pkg: Seq<char>) -> Option<Seq<char>>
    decreases files.len(),
{
    if files.len() == 0 {
        None
    } else if is_snap_artifact(files.last(), pkg) {
        Some(files.last())
    } else {
        last_snap_artifact(files.drop_last(), pkg)
    }
}

/// Picks, from a directory listing, the package's downloaded assertion
/// and snap files: the names that start with the package name and an
/// underscore and end in `.assert` and `.snap`, the last listed one of
/// each kind.
pub fn snap_artifact_names(files: &Vec<String>, package: &str) -> (r: (
    Option<String>,
    Option<String>,
))
    ensures
        r.0 is Some <==> last_assert_artifact(files.deep_view(), package@) is Some,
        r.0 matches Some(a) ==> last_assert_artifact(files.deep_view(), package@) == Some(a@),
        r.1 is Some <==> last_snap_artifact(files.deep_view(), package@) is Some,
        r.1 matches Some(sn) ==> last_snap_artifact(files.deep_view(), package@) == Some(sn@),
{
    let mut prefix = to_chars(package);
    prefix.push('_');
    let assert_suffix = to_chars(".assert");
    let snap_suffix = to_chars(".snap");
    let mut found_assert: Option<String> = None;
    let mut found_snap: Option<String> = None;
    let mut i: usize = 0;
    while i < files.len()
        invariant
            i <= files@.len(),
            prefix@ == package@ + seq!['_'],
            assert_suffix@ == ".assert"@,
            snap_suffix@ == ".snap"@,
            found_assert is Some <==> last_assert_artifact(
                files.deep_view().take(i as int),
                package@,
            ) is Some,
            found_assert matches Some(a) ==> last_assert_artifact(
                files.deep_view().take(i as int),
                package@,
            ) == Some(a@),
            found_snap is Some <==> last_snap_artifact(
                files.deep_view().take(i as int),
                package@,
            ) is Some,
            found_snap matches Some(sn) ==> last_snap_artifact(
                files.deep_view().take(i as int),
                package@,
            ) == Some(sn@),
        decreases files@.len() - i,
    {
        proof {
            let dv = files.deep_view();
            assert(dv[i as int] == files@[i as int]@);
            assert(dv.take(i + 1).drop_last() =~= dv.take(i as int));
            assert(dv.take(i + 1).last() == dv[i as int]);
        }
        let fc = to_chars(files[i].as_str());
        let prefix_ok = range_eq(&fc, 0, &prefix);
        if prefix_ok && fc.len() >= assert_suffix.len() && range_eq(
            &fc,
            fc.len() - assert_suffix.len(),
            &assert_suffix,
        ) {
            found_assert = Some(files[i].clone());
        }
        if prefix_ok && fc.len() >= snap_suffix.len() && range_eq(
            &fc,
            fc.len() - snap_suffix.len(),
            &snap_suffix,
        ) {
            found_snap = Some(files[i].clone());
        }
        i = i + 1;
    }
    proof {
        assert(files.deep_view().take(files@.len() as int) =~= files.deep_view());
    }
    (found_assert, found_snap)
}

/// The fixed names the downloaded artifacts are renamed to: the
/// package's own name with the `.snap` and `.assert` endings.
pub fn snap_target_names(package: &str) -> (r: (String, String))
    ensures
        r.0@ == package@ + ".snap"@,
        r.1@ == package@ + ".assert"@,
{
    let mut sn: Vec<char> = Vec::new();
    app_str(&mut sn, package);
    app_str(&mut sn, ".snap");
    let mut an: Vec<char> = Vec::new();
    app_str(&mut an, package);
    app_str(&mut an, ".assert");
    (from_chars(&sn), from_chars(&an))
}

} // verus!
