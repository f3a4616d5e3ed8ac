//! Deterministic synthesis of the shell hooks that run inside the build
//! chroot or at first boot.
//!
//! Every function here is a pure text generator: it takes the names it is
//! given, in the order it is given them, and returns the exact script text
//! its contract states.  Writing a script to its hook path is the caller's
//! business.

use vstd::prelude::*;

use crate::text::app_str;
use crate::text::from_chars;
use crate::text::to_chars;

verus! {

/// The common preamble of chroot hooks: shebang, announce line, fail-fast.
pub open spec fn def_script() -> Seq<char> {
    "#!/bin/bash\necho \"I: running $0\"\n\nset -e\n"@
}

/// The preamble of hooks that continue past tool failures: shebang and
/// announce line only.
pub open spec fn plain_header() -> Seq<char> {
    "#!/bin/bash\necho \"I: running $0\"\n\n"@
}

/// `s` with every double quote preceded by a backslash.
pub open spec fn spec_escape(s: Seq<char>) -> Seq<char>
    decreases s.len(),
{
    if s.len() == 0 {
        Seq::<char>::empty()
    } else {
        spec_escape(s.drop_last()) + (if s.last() == '"' {
            seq!['\\', '"']
        } else {
            seq![s.last()]
        })
    }
}

/// `s`, escaped and wrapped in double quotes.
pub open spec fn spec_quote(s: Seq<char>) -> Seq<char> {
    seq!['"'] + spec_escape(s) + seq!['"']
}

/// The items, each quoted and escaped, joined with single blanks.
pub open spec fn spec_escape_to_list(items: Seq<Seq<char>>) -> Seq<char>
    decreases items.len(),
{
    if items.len() == 0 {
        Seq::<char>::empty()
    } else if items.len() == 1 {
        spec_quote(items[0])
    } else {
        spec_escape_to_list(items.drop_last()) + seq![' '] + spec_quote(items.last())
    }
}

/// `s` with every double quote removed.
pub open spec fn spec_strip_quotes(s: Seq<char>) -> Seq<char>
    decreases s.len(),
{
    if s.len() == 0 {
        Seq::<char>::empty()
    } else {
        spec_strip_quotes(s.drop_last()) + (if s.last() == '"' {
            Seq::<char>::empty()
        } else {
            seq![s.last()]
        })
    }
}

/// Appends `s`, escaped, onto `out`.
fn escape_into(out: &mut Vec<char>, s: &str)
    ensures
        final(out)@ == old(out)@ + spec_escape(s@),
{
    let sc = to_chars(s);
    proof {
        assert(out@ =~= out@ + spec_escape(s@.take(0)));
    }
    let mut i: usize = 0;
    while i < sc.len()
        invariant
            i <= sc@.len(),
            sc@ == s@,
            out@ == old(out)@ + spec_escape(s@.take(i as int)),
        decreases sc@.len() - i,
    {
        let c = sc[i];
        if c == '"' {
            out.push('\\');
            out.push('"');
        } else {
            out.push(c);
        }
        i = i + 1;
        proof {
            assert(s@.take(i as int).drop_last() =~= s@.take(i - 1));
            assert(s@.take(i as int).last() == s@[i - 1]);
            assert(out@ =~= old(out)@ + spec_escape(s@.take(i as int)));
        }
    }
    proof {
        assert(s@.take(s@.len() as int) =~= s@);
    }
}

/// Quotes each name, escaping double quotes inside it, and joins the
/// quoted names with blanks, in the order given.
pub fn escape_to_list(set: &Vec<String>) -> (r: String)
    ensures
        r@ == spec_escape_to_list(set.deep_view()),
{
    let mut out: Vec<char> = Vec::new();
    let mut i: usize = 0;
    while i < set.len()
        invariant
            i <= set@.len(),
            out@ == spec_escape_to_list(set.deep_view().take(i as int)),
        decreases set@.len() - i,
    {
        proof {
            assert(set.deep_view()[i as int] == set@[i as int]@);
        }
        if i > 0 {
            out.push(' ');
        }
        out.push('"');
        escape_into(&mut out, set[i].as_str());
        out.push('"');
        i = i + 1;
        proof {
            let dv = set.deep_view();
            assert(dv.take(i as int).drop_last() =~= dv.take(i - 1));
            assert(dv.take(i as int).last() == dv[i - 1]);
            assert(out@ =~= spec_escape_to_list(dv.take(i as int)));
        }
    }
    proof {
        assert(set.deep_view().take(set@.len() as int) =~= set.deep_view());
    }
    from_chars(&out)
}

/// One best-effort loop over service units: announce, disable or enable,
/// stop or start, each step tolerating failure.
pub open spec fn spec_service_loop(svcs: Seq<Seq<char>>, disabling: bool) -> Seq<char> {
    "for service in "@ + spec_escape_to_list(svcs) + "; do\n"@ + "    echo \""@ + (if disabling {
        "Disabling"@
    } else {
        "Enabling"@
    }) + " $service\"\n"@ + "    systemctl "@ + (if disabling {
        "disable"@
    } else {
        "enable"@
    }) + " \"$service\" || true\n"@ + "    systemctl "@ + (if disabling {
        "stop"@
    } else {
        "start"@
    }) + " \"$service\" || true\n"@ + "done\n"@
}

/// The body shared by both services hooks: the disable block first, then
/// the enable block, a blank line between them when both are present.
pub open spec fn spec_services_tail(e: Seq<Seq<char>>, d: Seq<Seq<char>>) -> Seq<char> {
    (if d.len() > 0 {
        spec_service_loop(d, true)
    } else {
        Seq::<char>::empty()
    }) + (if d.len() > 0 && e.len() > 0 {
        "\n"@
    } else {
        Seq::<char>::empty()
    }) + (if e.len() > 0 {
        spec_service_loop(e, false)
    } else {
        Seq::<char>::empty()
    })
}

/// The services hook with the fail-fast preamble.
pub open spec fn spec_services_hook(e: Seq<Seq<char>>, d: Seq<Seq<char>>) -> Seq<char> {
    def_script() + spec_services_tail(e, d)
}

/// Appends one service loop onto `out`.
fn service_loop_into(out: &mut Vec<char>, svcs: &Vec<String>, disabling: bool)
    ensures
        final(out)@ == old(out)@ + spec_service_loop(svcs.deep_view(), disabling),
{
    app_str(out, "for service in ");
    let lst = escape_to_list(svcs);
    app_str(out, lst.as_str());
    app_str(out, "; do\n");
    app_str(out, "    echo \"");
    if disabling {
        app_str(out, "Disabling");
    } else {
        app_str(out, "Enabling");
    }
    app_str(out, " $service\"\n");
    app_str(out, "    systemctl ");
    if disabling {
        app_str(out, "disable");
    } else {
        app_str(out, "enable");
    }
    app_str(out, " \"$service\" || true\n");
    app_str(out, "    systemctl ");
    if disabling {
        app_str(out, "stop");
    } else {
        app_str(out, "start");
    }
    app_str(out, " \"$service\" || true\n");
    app_str(out, "done\n");
    proof {
        assert(out@ =~= old(out)@ + spec_service_loop(svcs.deep_view(), disabling));
    }
}

/// Appends the shared services-hook body onto `out`.
fn services_tail_into(out: &mut Vec<char>, e_service: &Vec<String>, d_service: &Vec<String>)
    ensures
        final(out)@ == old(out)@ + spec_services_tail(e_service.deep_view(), d_service.deep_view()),
{
    let d_empty = d_service.len() == 0;
    let e_empty = e_service.len() == 0;
    if !d_empty {
        service_loop_into(out, d_service, true);
    }
    if !d_empty && !e_empty {
        app_str(out, "\n");
    }
    if !e_empty {
        service_loop_into(out, e_service, false);
    }
    proof {
        assert(out@ =~= old(out)@ + spec_services_tail(
            e_service.deep_view(),
            d_service.deep_view(),
        ));
    }
}

/// Synthesizes the hook that disables, then enables, the named service
/// units: a best-effort disable-and-stop loop for every name of
/// `d_service`, then a best-effort enable-and-start loop for every name of
/// `e_service`, each block present only when its set is.
pub fn services(e_service: &Vec<String>, d_service: &Vec<String>) -> (r: String)
    ensures
        r@ == spec_services_hook(e_service.deep_view(), d_service.deep_view()),
{
    let mut out: Vec<char> = Vec::new();
    app_str(&mut out, "#!/bin/bash\necho \"I: running $0\"\n\nset -e\n");
    services_tail_into(&mut out, e_service, d_service);
    proof {
        assert(out@ =~= spec_services_hook(e_service.deep_view(), d_service.deep_view()));
    }
    from_chars(&out)
}

/// The services hook variant with the plain preamble, as the apply
/// pipeline writes it.
pub open spec fn spec_gen_services_hook(e: Seq<Seq<char>>, d: Seq<Seq<char>>) -> Seq<char> {
    plain_header() + spec_services_tail(e, d)
}

/// Synthesizes the services hook written by the apply pipeline: the same
/// disable-then-enable blocks under a preamble without fail-fast.
pub fn gen_services_hook(e_service: &Vec<String>, d_service: &Vec<String>) -> (r: String)
    ensures
        r@ == spec_gen_services_hook(e_service.deep_view(), d_service.deep_view()),
{
    let mut out: Vec<char> = Vec::new();
    app_str(&mut out, "#!/bin/bash\necho \"I: running $0\"\n\n");
    services_tail_into(&mut out, e_service, d_service);
    proof {
        assert(out@ =~= spec_gen_services_hook(e_service.deep_view(), d_service.deep_view()));
    }
    from_chars(&out)
}

/// In a services hook over nonempty sets, the disable block stands
/// strictly before the enable block: the hook is exactly the preamble,
/// the disable loop, a blank line, then the enable loop, so the range the
/// disable loop occupies ends before the range of the enable loop starts.
pub proof fn lemma_services_hook_order(e: Seq<Seq<char>>, d: Seq<Seq<char>>)
    requires
        e.len() > 0,
        d.len() > 0,
    ensures
        spec_services_hook(e, d) == def_script() + spec_service_loop(d, true) + "\n"@
            + spec_service_loop(e, false),
        spec_services_hook(e, d).subrange(
            def_script().len() as int,
            def_script().len() + spec_service_loop(d, true).len() as int,
        ) == spec_service_loop(d, true),
        spec_services_hook(e, d).subrange(
            spec_services_hook(e, d).len() - spec_service_loop(e, false).len() as int,
            spec_services_hook(e, d).len() as int,
        ) == spec_service_loop(e, false),
        def_script().len() + spec_service_loop(d, true).len() < spec_services_hook(e, d).len()
            - spec_service_loop(e, false).len(),
{
    let h = spec_services_hook(e, d);
    let db = spec_service_loop(d, true);
    let eb = spec_service_loop(e, false);
    assert(h =~= def_script() + db + "\n"@ + eb);
    assert(h.subrange(def_script().len() as int, def_script().len() + db.len() as int) =~= db);
    assert(h.subrange(h.len() - eb.len() as int, h.len() as int) =~= eb);
    reveal_strlit("\n");
}

/// The apt-install hook: relocates the staged keyrings, refreshes the
/// index, then installs the packages non-interactively, without
/// recommended packages unless the package manager is aptitude.
pub open spec fn spec_apt_install_hook(p: Seq<Seq<char>>, apt: Seq<char>) -> Seq<char> {
    def_script() + "mv /tmp/apt-keyrings-cache-debr/*.gpg /etc/apt/keyrings/\n"@
        + "rm -rf /tmp/apt-keyrings-cache-debr/\n"@ + apt + " update\n\n"@
        + "echo \"Installing packages: "@ + spec_strip_quotes(spec_escape_to_list(p)) + "\"\n"@
        + "DEBIAN_FRONTEND=noninteractive "@ + apt + " install -y"@ + (if apt == "aptitude"@ {
        Seq::<char>::empty()
    } else {
        " --no-install-recommends"@
    }) + " "@ + spec_escape_to_list(p) + "\n"@ + "\n"@
        + "echo \"Packages installed successfully.\"\n"@
}

/// Removes every double quote of `s`.
fn strip_quotes_string(s: &String) -> (r: String)
    ensures
        r@ == spec_strip_quotes(s@),
{
    let sc = to_chars(s.as_str());
    let mut out: Vec<char> = Vec::new();
    proof {
        assert(out@ =~= spec_strip_quotes(s@.take(0)));
    }
    let mut i: usize = 0;
    while i < sc.len()
        invariant
            i <= sc@.len(),
            sc@ == s@,
            out@ == spec_strip_quotes(s@.take(i as int)),
        decreases sc@.len() - i,
    {
        let c = sc[i];
        if c != '"' {
            out.push(c);
        }
        i = i + 1;
        proof {
            assert(s@.take(i as int).drop_last() =~= s@.take(i - 1));
            assert(s@.take(i as int).last() == s@[i - 1]);
            assert(out@ =~= spec_strip_quotes(s@.take(i as int)));
        }
    }
    proof {
        assert(s@.take(s@.len() as int) =~= s@);
    }
    from_chars(&out)
}

/// Synthesizes the hook that moves the staged keyrings into the live
/// keyring directory, refreshes the package index with the named package
/// manager, and installs the packages non-interactively.  The
/// no-recommends flag is passed unless the manager is aptitude, whose
/// variant implies recommends are wanted.
pub fn apt_install(packages: &Vec<String>, apt: &str) -> (r: String)
    ensures
        r@ == spec_apt_install_hook(packages.deep_view(), apt@),
{
    let mut out: Vec<char> = Vec::new();
    app_str(&mut out, "#!/bin/bash\necho \"I: running $0\"\n\nset -e\n");
    app_str(&mut out, "mv /tmp/apt-keyrings-cache-debr/*.gpg /etc/apt/keyrings/\n");
    app_str(&mut out, "rm -rf /tmp/apt-keyrings-cache-debr/\n");
    app_str(&mut out, apt);
    app_str(&mut out, " update\n\n");
    let pkgs = escape_to_list(packages);
    let stripped = strip_quotes_string(&pkgs);
    app_str(&mut out, "echo \"Installing packages: ");
    app_str(&mut out, stripped.as_str());
    app_str(&mut out, "\"\n");
    app_str(&mut out, "DEBIAN_FRONTEND=noninteractive ");
    app_str(&mut out, apt);
    app_str(&mut out, " install -y");
    let apt_chars = to_chars(apt);
    let aptitude_chars = to_chars("aptitude");
    if !crate::text::chars_eq(&apt_chars, &aptitude_chars) {
        app_str(&mut out, " --no-install-recommends");
    }
    app_str(&mut out, " ");
    app_str(&mut out, pkgs.as_str());
    app_str(&mut out, "\n");
    app_str(&mut out, "\n");
    app_str(&mut out, "echo \"Packages installed successfully.\"\n");
    proof {
        assert(out@ =~= spec_apt_install_hook(packages.deep_view(), apt@));
    }
    from_chars(&out)
}

/// The apt-install hook variant written by the apply pipeline: plain
/// preamble with an explicit fail-fast line, fixed `apt`/`apt-get`
/// commands, recommends always off.
pub open spec fn spec_gen_apt_install_hook(p: Seq<Seq<char>>) -> Seq<char> {
    plain_header() + "set -e  # Exit immediately if a command exits with a non-zero status\n"@
        + "mv /tmp/apt-keyrings-cache-debr/*.gpg /etc/apt/keyrings/\n"@
        + "rm -rf /tmp/apt-keyrings-cache-debr/\n"@ + "apt update\n\n"@
        + "echo \"Installing packages: "@ + spec_strip_quotes(spec_escape_to_list(p)) + "\"\n"@
        + "DEBIAN_FRONTEND=noninteractive apt-get install -y --no-install-recommends "@
        + spec_escape_to_list(p) + "\n"@ + "\n"@ + "echo \"Packages installed successfully.\"\n"@
}

/// Synthesizes the apt-install hook as the apply pipeline writes it.
pub fn gen_apt_install_hook(packages: &Vec<String>) -> (r: String)
    ensures
        r@ == spec_gen_apt_install_hook(packages.deep_view()),
{
    let mut out: Vec<char> = Vec::new();
    app_str(&mut out, "#!/bin/bash\necho \"I: running $0\"\n\n");
    app_str(&mut out, "set -e  # Exit immediately if a command exits with a non-zero status\n");
    app_str(&mut out, "mv /tmp/apt-keyrings-cache-debr/*.gpg /etc/apt/keyrings/\n");
    app_str(&mut out, "rm -rf /tmp/apt-keyrings-cache-debr/\n");
    app_str(&mut out, "apt update\n\n");
    let pkgs = escape_to_list(packages);
    let stripped = strip_quotes_string(&pkgs);
    app_str(&mut out, "echo \"Installing packages: ");
    app_str(&mut out, stripped.as_str());
    app_str(&mut out, "\"\n");
    app_str(&mut out, "DEBIAN_FRONTEND=noninteractive apt-get install -y --no-install-recommends ");
    app_str(&mut out, pkgs.as_str());
    app_str(&mut out, "\n");
    app_str(&mut out, "\n");
    app_str(&mut out, "echo \"Packages installed successfully.\"\n");
    proof {
        assert(out@ =~= spec_gen_apt_install_hook(packages.deep_view()));
    }
    from_chars(&out)
}

/// The apt-purge hook: purges each package in turn, treating exit code
/// 100 as already-absent, any other failure as fatal.
pub open spec fn spec_apt_purge_hook(p: Seq<Seq<char>>) -> Seq<char> {
    def_script() + "for package in "@ + spec_escape_to_list(p) + "; do\n"@ + "    set +e\n"@
        + "    apt purge --autoremove -y \"$package\"\n"@ + "    exit_code=$?\n"@
        + "    set -e\n"@ + "    if [ $exit_code -eq 100 ]; then\n"@ + "        continue\n"@
        + "    elif [ $exit_code -ne 0 ]; then\n"@
        + "        echo \"Error: apt purge failed with exit code $exit_code\"\n"@
        + "        exit $exit_code\n"@ + "    fi\n"@ + "done\n"@ + "echo \"Purge complete\"\n"@
}

/// Synthesizes the hook that purges the named packages one by one,
/// tolerating packages that are already absent.
pub fn apt_purge(packages: &Vec<String>) -> (r: String)
    ensures
        r@ == spec_apt_purge_hook(packages.deep_view()),
{
    let mut out: Vec<char> = Vec::new();
    app_str(&mut out, "#!/bin/bash\necho \"I: running $0\"\n\nset -e\n");
    app_str(&mut out, "for package in ");
    let pkgs = escape_to_list(packages);
    app_str(&mut out, pkgs.as_str());
    app_str(&mut out, "; do\n");
    app_str(&mut out, "    set +e\n");
    app_str(&mut out, "    apt purge --autoremove -y \"$package\"\n");
    app_str(&mut out, "    exit_code=$?\n");
    app_str(&mut out, "    set -e\n");
    app_str(&mut out, "    if [ $exit_code -eq 100 ]; then\n");
    app_str(&mut out, "        continue\n");
    app_str(&mut out, "    elif [ $exit_code -ne 0 ]; then\n");
    app_str(&mut out, "        echo \"Error: apt purge failed with exit code $exit_code\"\n");
    app_str(&mut out, "        exit $exit_code\n");
    app_str(&mut out, "    fi\n");
    app_str(&mut out, "done\n");
    app_str(&mut out, "echo \"Purge complete\"\n");
    proof {
        assert(out@ =~= spec_apt_purge_hook(packages.deep_view()));
    }
    from_chars(&out)
}

/// The helper defining `as-user`, which runs a command as the interactive
/// session user with its display and session bus.
pub open spec fn as_user_header() -> Seq<char> {
    "#!/bin/bash\n\nfunction as-user() {\n        _display_id=\":$(find /tmp/.X11-unix/* | sed 's#/tmp/.X11-unix/X##' | head -n 1)\"\n        _username=\"user\"\n        _user_id=$(id -u \"$_username\")\n        _environment=(\"DISPLAY=$_display_id\" \"DBUS_SESSION_BUS_ADDRESS=unix:path=/run/user/$_user_id/bus\")\n        sudo -Hu \"$_username\" \"${_environment[@]}\" \"$@\"\n    }\n"@
}

/// The first-boot theming hook: as the session user, select the dark
/// color scheme and theme, set the window-button layout and the pinned
/// favorites, then remove its own one-shot trigger.
pub open spec fn spec_gnome_dark_hook() -> Seq<char> {
    as_user_header() + "set +e\n\n"@ + "sleep 1\n"@
        + "as-user  gsettings set org.gnome.desktop.interface color-scheme 'prefer-dark'\n"@
        + "as-user  gsettings set org.gnome.desktop.interface gtk-theme 'Adwaita-dark'\n"@
        + "as-user  gsettings set org.gnome.desktop.wm.preferences button-layout ':minimize,maximize,close'\n"@
        + "as-user  gsettings set org.gnome.shell favorite-apps \"['code_code.desktop', 'google-chrome.desktop', 'org.gnome.Terminal.desktop']\"\n"@
        + "set -e\n"@ + "rm /etc/systemd/system/apply_gnome_settings.service\n"@
        + "rm /lib/debr_util_scripts/apply_gnome_settings.sh"@
        + "systemctl disable \"apply_gnome_settings.service\""@
}

/// Synthesizes the first-boot hook that applies the dark desktop
/// preferences as the session user and removes its one-shot trigger.
pub fn gnome_set_dark() -> (r: String)
    ensures
        r@ == spec_gnome_dark_hook(),
{
    let mut out: Vec<char> = Vec::new();
    app_str(
        &mut out,
        "#!/bin/bash\n\nfunction as-user() {\n        _display_id=\":$(find /tmp/.X11-unix/* | sed 's#/tmp/.X11-unix/X##' | head -n 1)\"\n        _username=\"user\"\n        _user_id=$(id -u \"$_username\")\n        _environment=(\"DISPLAY=$_display_id\" \"DBUS_SESSION_BUS_ADDRESS=unix:path=/run/user/$_user_id/bus\")\n        sudo -Hu \"$_username\" \"${_environment[@]}\" \"$@\"\n    }\n",
    );
    app_str(&mut out, "set +e\n\n");
    app_str(&mut out, "sleep 1\n");
    app_str(&mut out, "as-user  gsettings set org.gnome.desktop.interface color-scheme 'prefer-dark'\n");
    app_str(&mut out, "as-user  gsettings set org.gnome.desktop.interface gtk-theme 'Adwaita-dark'\n");
    app_str(
        &mut out,
        "as-user  gsettings set org.gnome.desktop.wm.preferences button-layout ':minimize,maximize,close'\n",
    );
    app_str(
        &mut out,
        "as-user  gsettings set org.gnome.shell favorite-apps \"['code_code.desktop', 'google-chrome.desktop', 'org.gnome.Terminal.desktop']\"\n",
    );
    app_str(&mut out, "set -e\n");
    app_str(&mut out, "rm /etc/systemd/system/apply_gnome_settings.service\n");
    app_str(&mut out, "rm /lib/debr_util_scripts/apply_gnome_settings.sh");
    app_str(&mut out, "systemctl disable \"apply_gnome_settings.service\"");
    proof {
        assert(out@ =~= spec_gnome_dark_hook());
    }
    from_chars(&out)
}

/// Declares ordermap's insertion-ordered set, so that the snap hook can
/// take one; its contents are visible only through `oset_elems`.
#[verifier::external_type_specification]
#[verifier::external_body]
#[verifier::reject_recursive_types(T)]
#[verifier::reject_recursive_types(S)]
pub struct ExOrderSet<T, S>(ordermap::OrderSet<T, S>);

/// The elements an insertion-ordered set of names holds, in its order.
pub uninterp spec fn oset_elems(s: &ordermap::OrderSet<String>) -> Seq<Seq<char>>;

/// Relies on ordermap's `OrderSet::iter`: it yields each element of the
/// set exactly once, in the set's own (insertion) order.
#[verifier::external_body]
fn oset_items(s: &ordermap::OrderSet<String>) -> (r: Vec<String>)
    ensures
        r.deep_view() == oset_elems(s),
{
    s.iter().cloned().collect()
}

/// The one-shot snap-install hook: per package, acknowledge its assertion
/// and install its snap from the cache, tolerating failure, then delete
/// both files; afterwards remove the cache and the installer unit itself.
pub open spec fn spec_snap_install_hook(p: Seq<Seq<char>>, cache: Seq<char>) -> Seq<char> {
    def_script() + "sleep 1\n"@ + "snap_cache=\""@ + cache + "\"\n"@ + "for package in "@
        + spec_escape_to_list(p) + "; do\n"@ + "    set +e"@
        + "    echo \"Attempting to ack $package\"\n"@
        + "    snap ack \"$snap_cache/$package.assert\"\n"@
        + "    echo \"Attempting to install $package\"\n"@
        + "    snap install --classic \"$snap_cache/$package.snap\"\n"@ + "    set -e"@
        + "    rm -f \"$snap_cache/$package.snap\"\n"@
        + "    rm -f \"$snap_cache/$package.assert\"\n"@ + "done\n"@ + "rm -rf \"$snap_cache\"\n"@
        + "rm /etc/systemd/system/snapd_installer.service\n"@
        + "systemctl disable \"snapd_installer.service\""@
}

/// Synthesizes the one-shot hook that installs the cached snap packages
/// from `temp_path`, in the set's own order, and disables itself at the
/// end.
pub fn snap_install_from(packages: &ordermap::OrderSet<String>, temp_path: &str) -> (r: String)
    ensures
        r@ == spec_snap_install_hook(oset_elems(packages), temp_path@),
{
    let items = oset_items(packages);
    snap_install_text(&items, temp_path)
}

/// Synthesizes the snap-install hook from an already ordered package
/// list.
pub(crate) fn snap_install_text(items: &Vec<String>, temp_path: &str) -> (r: String)
    ensures
        r@ == spec_snap_install_hook(items.deep_view(), temp_path@),
{
    let mut out: Vec<char> = Vec::new();
    app_str(&mut out, "#!/bin/bash\necho \"I: running $0\"\n\nset -e\n");
    app_str(&mut out, "sleep 1\n");
    app_str(&mut out, "snap_cache=\"");
    app_str(&mut out, temp_path);
    app_str(&mut out, "\"\n");
    app_str(&mut out, "for package in ");
    let pkgs = escape_to_list(items);
    app_str(&mut out, pkgs.as_str());
    app_str(&mut out, "; do\n");
    app_str(&mut out, "    set +e");
    app_str(&mut out, "    echo \"Attempting to ack $package\"\n");
    app_str(&mut out, "    snap ack \"$snap_cache/$package.assert\"\n");
    app_str(&mut out, "    echo \"Attempting to install $package\"\n");
    app_str(&mut out, "    snap install --classic \"$snap_cache/$package.snap\"\n");
    app_str(&mut out, "    set -e");
    app_str(&mut out, "    rm -f \"$snap_cache/$package.snap\"\n");
    app_str(&mut out, "    rm -f \"$snap_cache/$package.assert\"\n");
    app_str(&mut out, "done\n");
    app_str(&mut out, "rm -rf \"$snap_cache\"\n");
    app_str(&mut out, "rm /etc/systemd/system/snapd_installer.service\n");
    app_str(&mut out, "systemctl disable \"snapd_installer.service\"");
    proof {
        assert(out@ =~= spec_snap_install_hook(items.deep_view(), temp_path@));
    }
    from_chars(&out)
}

/// A first-boot script wrapped to log everything it prints: fail-fast,
/// all output appended to a fixed log file, a final success line.
pub open spec fn spec_logger_wrap(script: Seq<char>) -> Seq<char> {
    "#!/bin/bash\n"@ + "LOG_FILE=/tmp/debr_boot_script.log\n"@ + "set -e \n"@
        + "exec &>> $LOG_FILE\n"@ + "echo \"I: running $0\"\n\n"@ + script + "\n"@
        + "echo \"Script completed successfully.\" >> $LOG_FILE\n"@
}

/// Wraps a script so that everything it prints lands in the boot log.
pub fn logger_wrap(script: &str) -> (r: String)
    ensures
        r@ == spec_logger_wrap(script@),
{
    let mut out: Vec<char> = Vec::new();
    app_str(&mut out, "#!/bin/bash\n");
    app_str(&mut out, "LOG_FILE=/tmp/debr_boot_script.log\n");
    app_str(&mut out, "set -e \n");
    app_str(&mut out, "exec &>> $LOG_FILE\n");
    app_str(&mut out, "echo \"I: running $0\"\n\n");
    app_str(&mut out, script);
    app_str(&mut out, "\n");
    app_str(&mut out, "echo \"Script completed successfully.\" >> $LOG_FILE\n");
    proof {
        assert(out@ =~= spec_logger_wrap(script@));
    }
    from_chars(&out)
}

} // verus!
