//! Depth-first resolution of a specification and the modules it requires.
//!
//! A module is a named, reusable partial specification.  Resolution merges,
//! into the root specification, every module its `requires` set names, each
//! module itself fully resolved first.  A name with no module behind it is
//! reported as not found; a module that requires itself, directly or
//! through others, is reported as a cycle.  The path stack of the running
//! resolution makes both checks precise.

use vstd::prelude::*;

use crate::cfg::clone_config;
use crate::cfg::clone_string_vec;
use crate::cfg::contains_string;
use crate::cfg::spec_add_cfg;
use crate::cfg::Config;
use crate::cfg::ConfigErrV;
use crate::cfg::ConfigError;
use crate::cfg::ConfigV;

verus! {

/// A named module of the module table.
#[derive(Debug)]
pub struct Module {
    pub name: String,
    pub config: Config,
}

/// Mathematical model of a module.
pub struct ModuleV {
    pub name: Seq<char>,
    pub config: ConfigV,
}

impl View for Module {
    type V = ModuleV;

    open spec fn view(&self) -> ModuleV {
        ModuleV { name: self.name@, config: self.config@ }
    }
}

/// The models of all modules of a table.
pub open spec fn mods_view(ms: &Vec<Module>) -> Seq<ModuleV> {
    Seq::new(ms@.len(), |i: int| ms@[i]@)
}

/// The names of all modules of a table.
pub open spec fn module_names(ms: Seq<ModuleV>) -> Seq<Seq<char>> {
    ms.map_values(|m: ModuleV| m.name)
}

/// Index of the first module named `name` at position `i` or later.
pub open spec fn find_module_from(ms: Seq<ModuleV>, name: Seq<char>, i: int) -> Option<int>
    decreases ms.len() - i,
{
    if i < 0 || i >= ms.len() {
        None
    } else if ms[i].name == name {
        Some(i)
    } else {
        find_module_from(ms, name, i + 1)
    }
}

pub proof fn lemma_find_module_from(ms: Seq<ModuleV>, name: Seq<char>, i: int)
    requires
        0 <= i <= ms.len(),
    ensures
        find_module_from(ms, name, i) matches Some(j) ==> i <= j < ms.len() && ms[j].name == name,
        find_module_from(ms, name, i) is None ==> forall|k: int|
            i <= k < ms.len() ==> ms[k].name != name,
    decreases ms.len() - i,
{
    if i < ms.len() && ms[i].name != name {
        lemma_find_module_from(ms, name, i + 1);
    }
}

/// The `requires` set of a specification, or nothing.
pub open spec fn req_names(c: ConfigV) -> Seq<Seq<char>> {
    if c.requires is Some {
        c.requires->0
    } else {
        Seq::<Seq<char>>::empty()
    }
}

/// The path stack is fit for resolution against this table: no repeated
/// entry, every entry the name of some module.
pub open spec fn stack_ok(ms: Seq<ModuleV>, stack: Seq<Seq<char>>) -> bool {
    &&& stack.no_duplicates()
    &&& forall|k: int| 0 <= k < stack.len() ==> module_names(ms).contains(#[trigger] stack[k])
}

pub proof fn lemma_stack_bound(ms: Seq<ModuleV>, stack: Seq<Seq<char>>)
    requires
        stack_ok(ms, stack),
    ensures
        stack.len() <= ms.len(),
{
    broadcast use vstd::seq_lib::seq_to_set_is_finite;
    broadcast use vstd::set::group_set_axioms;

    stack.unique_seq_to_set();
    assert(stack.to_set() <= module_names(ms).to_set()) by {
        assert forall|x: Seq<char>| stack.to_set().contains(x) implies module_names(
            ms,
        ).to_set().contains(x) by {
            assert(stack.contains(x));
            let k = choose|k: int| 0 <= k < stack.len() && stack[k] == x;
            assert(module_names(ms).contains(stack[k]));
        }
    }
    vstd::set_lib::lemma_len_subset(stack.to_set(), module_names(ms).to_set());
    module_names(ms).lemma_cardinality_of_set();
}

/// Resolution of the module called `name`: the module's own specification
/// with all its required modules merged in, or the first error met.
pub open spec fn spec_resolve_one(ms: Seq<ModuleV>, name: Seq<char>, stack: Seq<Seq<char>>) -> Result<
    ConfigV,
    ConfigErrV,
>
    decreases ms.len() - stack.len(), 0int, 0int,
    when stack_ok(ms, stack)
    via spec_resolve_one_decreases
{
    match find_module_from(ms, name, 0) {
        None => Err(ConfigErrV::NotFound { module: name }),
        Some(idx) => {
            if stack.contains(name) {
                Err(ConfigErrV::Cycle { module: name })
            } else {
                spec_resolve_list(
                    ms,
                    ms[idx].config,
                    req_names(ms[idx].config),
                    0,
                    stack.push(name),
                )
            }
        },
    }
}

#[via_fn]
proof fn spec_resolve_one_decreases(ms: Seq<ModuleV>, name: Seq<char>, stack: Seq<Seq<char>>) {
    lemma_find_module_from(ms, name, 0);
    if find_module_from(ms, name, 0) is Some && !stack.contains(name) {
        let idx = find_module_from(ms, name, 0)->0;
        assert(module_names(ms)[idx] == ms[idx].name);
        assert(module_names(ms).contains(name));
        assert(stack_ok(ms, stack.push(name))) by {
            assert(forall|k: int|
                0 <= k < stack.len() ==> stack.push(name)[k] == #[trigger] stack[k]);
            assert(stack.push(name)[stack.len() as int] == name);
        }
        lemma_stack_bound(ms, stack.push(name));
    }
}

/// Resolution of the tail `names[k..]` of a `requires` list into the
/// accumulator `acc`: each name is resolved depth-first and merged in
/// turn; a conflict is blamed on the module that brought it in.
pub open spec fn spec_resolve_list(
    ms: Seq<ModuleV>,
    acc: ConfigV,
    names: Seq<Seq<char>>,
    k: int,
    stack: Seq<Seq<char>>,
) -> Result<ConfigV, ConfigErrV>
    decreases ms.len() - stack.len(), 1int, names.len() - k,
    when stack_ok(ms, stack) && k >= 0
    via spec_resolve_list_decreases
{
    if k >= names.len() {
        Ok(acc)
    } else {
        match spec_resolve_one(ms, names[k], stack) {
            Err(e) => Err(e),
            Ok(sub) => match spec_add_cfg(acc, names[k], sub) {
                Err(e) => Err(e),
                Ok(merged) => spec_resolve_list(ms, merged, names, k + 1, stack),
            },
        }
    }
}

#[via_fn]
proof fn spec_resolve_list_decreases(
    ms: Seq<ModuleV>,
    acc: ConfigV,
    names: Seq<Seq<char>>,
    k: int,
    stack: Seq<Seq<char>>,
) {
    lemma_stack_bound(ms, stack);
}

/// Resolution of a root specification against a module table: every name
/// of the root's `requires` set resolved and merged into the root.
pub open spec fn spec_resolve(ms: Seq<ModuleV>, root: ConfigV) -> Result<ConfigV, ConfigErrV> {
    spec_resolve_list(ms, root, req_names(root), 0, Seq::<Seq<char>>::empty())
}

/// Looks a module up by name.
fn find_module(modules: &Vec<Module>, name: &String) -> (r: Option<usize>)
    ensures
        match r {
            Some(j) => find_module_from(mods_view(modules), name@, 0) == Some(j as int),
            None => find_module_from(mods_view(modules), name@, 0) is None,
        },
{
    let n: usize = modules.len();
    let mut i: usize = 0;
    while i < n
        invariant
            i <= n == modules@.len(),
            find_module_from(mods_view(modules), name@, 0) == find_module_from(
                mods_view(modules),
                name@,
                i as int,
            ),
        decreases n - i,
    {
        if modules[i].name == *name {
            proof {
                assert(mods_view(modules)[i as int].name == name@);
            }
            return Some(i);
        }
        proof {
            assert(mods_view(modules)[i as int].name == modules@[i as int].name@);
        }
        i = i + 1;
    }
    None
}

/// Resolves the module called `name`, with `stack` the names on the
/// current resolution path.
fn resolve_one(modules: &Vec<Module>, name: &String, stack: &Vec<String>) -> (r: Result<
    Config,
    ConfigError,
>)
    requires
        stack_ok(mods_view(modules), stack.deep_view()),
    ensures
        r matches Ok(c) ==> spec_resolve_one(mods_view(modules), name@, stack.deep_view())
            matches Ok(cv) && c@ == cv,
        r matches Err(e) ==> spec_resolve_one(mods_view(modules), name@, stack.deep_view())
            matches Err(ev) && e@ == ev,
    decreases modules@.len() - stack@.len(), 0int, 0int,
{
    proof {
        assert(stack.deep_view().len() == stack@.len());
        lemma_stack_bound(mods_view(modules), stack.deep_view());
    }
    match find_module(modules, name) {
        None => Err(ConfigError::NotFound { module: name.clone() }),
        Some(idx) => {
            if contains_string(stack, name) {
                proof {
                    assert(stack.deep_view().contains(name@));
                }
                Err(ConfigError::Cycle { module: name.clone() })
            } else {
                proof {
                    assert(!stack.deep_view().contains(name@)) by {
                        assert(forall|k: int|
                            0 <= k < stack.deep_view().len() ==> stack.deep_view()[k]
                                != name@);
                    }
                    lemma_find_module_from(mods_view(modules), name@, 0);
                    assert(mods_view(modules)[idx as int].config == modules@[idx as int].config@);
                }
                let m = &modules[idx];
                let cfg0 = clone_config(&m.config);
                let req: Vec<String> = match &m.config.requires {
                    Some(v) => clone_string_vec(v),
                    None => Vec::new(),
                };
                proof {
                    assert(req.deep_view() =~= req_names(modules@[idx as int].config@));
                }
                let mut stack2 = clone_string_vec(stack);
                stack2.push(name.clone());
                proof {
                    let msv = mods_view(modules);
                    let sv = stack.deep_view();
                    assert(stack2.deep_view() =~= sv.push(name@)) by {
                        assert(forall|k: int|
                            0 <= k < sv.len() ==> stack2.deep_view()[k] == #[trigger] sv[k]);
                        assert(stack2.deep_view()[sv.len() as int] == name@);
                    }
                    assert(module_names(msv)[idx as int] == msv[idx as int].name);
                    assert(module_names(msv).contains(name@));
                    assert(stack_ok(msv, stack2.deep_view())) by {
                        assert(forall|k: int|
                            0 <= k < sv.len() ==> stack2.deep_view()[k] == #[trigger] sv[k]);
                    }
                    lemma_stack_bound(msv, stack2.deep_view());
                    assert(stack2@.len() == stack2.deep_view().len());
                }
                resolve_list(modules, cfg0, &req, 0, &stack2)
            }
        },
    }
}

/// Resolves and merges, one after the other, the modules that
/// `names[k..]` name.
fn resolve_list(
    modules: &Vec<Module>,
    acc: Config,
    names: &Vec<String>,
    k: usize,
    stack: &Vec<String>,
) -> (r: Result<Config, ConfigError>)
    requires
        stack_ok(mods_view(modules), stack.deep_view()),
        k <= names@.len(),
    ensures
        r matches Ok(c) ==> spec_resolve_list(
            mods_view(modules),
            acc@,
            names.deep_view(),
            k as int,
            stack.deep_view(),
        ) matches Ok(cv) && c@ == cv,
        r matches Err(e) ==> spec_resolve_list(
            mods_view(modules),
            acc@,
            names.deep_view(),
            k as int,
            stack.deep_view(),
        ) matches Err(ev) && e@ == ev,
    decreases modules@.len() - stack@.len(), 1int, names@.len() - k,
{
    proof {
        assert(stack.deep_view().len() == stack@.len());
        lemma_stack_bound(mods_view(modules), stack.deep_view());
        assert(names.deep_view().len() == names@.len());
    }
    if k == names.len() {
        Ok(acc)
    } else {
        proof {
            assert(names.deep_view()[k as int] == names@[k as int]@);
        }
        match resolve_one(modules, &names[k], stack) {
            Err(e) => Err(e),
            Ok(sub) => {
                match crate::cfg::add(&acc, names[k].as_str(), &sub) {
                    Err(e) => Err(e),
                    Ok(merged) => resolve_list(modules, merged, names, k + 1, stack),
                }
            },
        }
    }
}

/// Resolves a root specification: every module named in its `requires`
/// set is itself resolved depth-first, then merged into the root.  Missing
/// modules, cyclic requirements and merge conflicts are reported without
/// any part of the result being used.
pub fn resolve(root: &Config, modules: &Vec<Module>) -> (r: Result<Config, ConfigError>)
    ensures
        r matches Ok(c) ==> spec_resolve(mods_view(modules), root@) matches Ok(cv) && c@ == cv,
        r matches Err(e) ==> spec_resolve(mods_view(modules), root@) matches Err(ev) && e@ == ev,
{
    let cfg0 = clone_config(root);
    let req: Vec<String> = match &root.requires {
        Some(v) => clone_string_vec(v),
        None => Vec::new(),
    };
    proof {
        assert(req.deep_view() =~= req_names(root@));
    }
    let stack: Vec<String> = Vec::new();
    proof {
        assert(stack.deep_view() =~= Seq::<Seq<char>>::empty());
    }
    resolve_list(modules, cfg0, &req, 0, &stack)
}

} // verus!
