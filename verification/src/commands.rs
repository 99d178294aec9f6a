use vstd::prelude::*;

use crate::dependencies::contains_name;
use crate::errors::InstallError;
use crate::manifest::{resolve_target_path, resolved_target, FileMapping, Manifest, UserConfig};

verus! {

/// The configuration `init` writes for a fresh project: aliases for a
/// default project layout.
pub fn default_user_config() -> (r: UserConfig)
    ensures
        r.aliases@.len() == 3,
        r.aliases@[0].0@ == "components"@ && r.aliases@[0].1@ == "app/components/ui"@,
        r.aliases@[1].0@ == "composables"@ && r.aliases@[1].1@ == "app/composables"@,
        r.aliases@[2].0@ == "utils"@ && r.aliases@[2].1@ == "app/utils"@,
        r.wf(),
{
    let mut aliases: Vec<(String, String)> = Vec::new();
    aliases.push((String::from_str("components"), String::from_str("app/components/ui")));
    aliases.push((String::from_str("composables"), String::from_str("app/composables")));
    aliases.push((String::from_str("utils"), String::from_str("app/utils")));
    proof {
        reveal_strlit("components");
        reveal_strlit("composables");
        reveal_strlit("utils");
    }
    UserConfig { aliases }
}

/// One file copy, ready to be performed: a path inside the cached
/// repository and the alias-resolved target it goes to.
#[derive(Debug, Clone)]
pub struct CopyAction {
    pub source: String,
    pub target: String,
}

/// One step of an installation, in execution order.
#[derive(Debug, Clone)]
pub enum Action {
    /// Ask the package manager for the item's external packages, before
    /// anything of the item or of its dependencies is copied on its behalf.
    InstallDeps { item: String, packages: Vec<String> },
    /// Copy the named item's files, each source to its resolved target.
    CopyItemFiles { item: String, copies: Vec<CopyAction> },
}

pub open spec fn is_copy_of(a: Action, n: Seq<char>) -> bool {
    match a {
        Action::CopyItemFiles { item, copies } => item@ == n,
        _ => false,
    }
}

pub open spec fn is_deps_of(a: Action, n: Seq<char>) -> bool {
    match a {
        Action::InstallDeps { item, packages } => item@ == n,
        _ => false,
    }
}

/// Whether the plan copies the files of item `n` somewhere.
pub open spec fn plan_has_copy(plan: Seq<Action>, n: Seq<char>) -> bool {
    exists|j: int| 0 <= j < plan.len() && is_copy_of(plan[j], n)
}

/// Whether the plan copies the files of item `n` before position `j`.
pub open spec fn plan_copy_before(plan: Seq<Action>, n: Seq<char>, j: int) -> bool {
    exists|i: int| 0 <= i < j && is_copy_of(plan[i], n)
}

pub open spec fn same_copy_name(a: Action, b: Action) -> bool {
    match (a, b) {
        (
            Action::CopyItemFiles { item: n1, copies: c1 },
            Action::CopyItemFiles { item: n2, copies: c2 },
        ) => n1@ == n2@,
        _ => false,
    }
}

/// The copies carry the item's file mappings in order, with each target
/// resolved through the configured aliases.
pub open spec fn copies_match(
    files: Seq<FileMapping>,
    copies: Seq<CopyAction>,
    config: UserConfig,
) -> bool {
    &&& copies.len() == files.len()
    &&& forall|f: int|
        0 <= f < files.len() ==> (#[trigger] copies[f]).source@ == files[f].source@
            && copies[f].target@ == resolved_target(files[f], config)
}

/// What one plan entry promises. A copy entry copies exactly the manifest's
/// file mappings for its item, never before every internal dependency of
/// the item has had its own files copied, and never before the item's
/// external packages were requested. An external entry carries exactly the
/// item's declared external packages.
pub open spec fn plan_entry_wf(m: Manifest, config: UserConfig, plan: Seq<Action>, j: int) -> bool {
    match plan[j] {
        Action::CopyItemFiles { item, copies } => {
            let it = m.spec_item(item@);
            &&& m.has_item(item@)
            &&& copies_match(it.files@, copies@, config)
            &&& forall|k: int|
                0 <= k < it.internal_dependencies@.len() ==> plan_copy_before(
                    plan,
                    it.internal_dependencies@[k]@,
                    j,
                )
            &&& it.dependencies@.len() > 0 ==> exists|i: int|
                0 <= i < j && is_deps_of(plan[i], item@)
        },
        Action::InstallDeps { item, packages } => {
            &&& m.has_item(item@)
            &&& packages.deep_view() == m.spec_item(item@).dependencies.deep_view()
            &&& packages@.len() > 0
        },
    }
}

/// A well-formed plan: every entry keeps the ordering promises above, and
/// no item's files are copied twice.
pub open spec fn plan_wf(m: Manifest, config: UserConfig, plan: Seq<Action>) -> bool {
    &&& forall|j: int| 0 <= j < plan.len() ==> plan_entry_wf(m, config, plan, j)
    &&& forall|i: int, j: int| 0 <= i < j < plan.len() ==> !same_copy_name(plan[i], plan[j])
}

/// No item is processed twice within one invocation: two copy entries at
/// different positions of a well-formed plan always name different items,
/// also when two items share a dependency.
pub proof fn lemma_no_item_copied_twice(
    m: Manifest,
    config: UserConfig,
    plan: Seq<Action>,
    i: int,
    j: int,
)
    requires
        plan_wf(m, config, plan),
        0 <= i < j < plan.len(),
    ensures
        !same_copy_name(plan[i], plan[j]),
{
}

/// Every transitive internal dependency of an item is installed before the
/// item's own files: a well-formed plan copies each of a copied item's
/// internal dependencies at an earlier position.
pub proof fn lemma_dependencies_copied_first(
    m: Manifest,
    config: UserConfig,
    plan: Seq<Action>,
    j: int,
    k: int,
)
    requires
        plan_wf(m, config, plan),
        0 <= j < plan.len(),
        plan[j] matches Action::CopyItemFiles { .. },
        0 <= k < m.spec_item(plan[j]->CopyItemFiles_item@).internal_dependencies@.len(),
    ensures
        plan_copy_before(
            plan,
            m.spec_item(plan[j]->CopyItemFiles_item@).internal_dependencies@[k]@,
            j,
        ),
{
    assert(plan_entry_wf(m, config, plan, j));
}

/// The walk's transient state: which items are finished, which are on the
/// current depth-first path, and what has been decided so far.
pub struct ResolveState {
    /// Items whose files are already copied in this invocation.
    pub installed: Vec<String>,
    /// Items entered but not finished on the current recursion path.
    pub in_progress: Vec<String>,
    /// The decided steps, in execution order.
    pub plan: Vec<Action>,
}

pub open spec fn copy_installed(inst: Seq<Seq<char>>, plan: Seq<Action>, j: int) -> bool {
    match plan[j] {
        Action::CopyItemFiles { item, copies } => inst.contains(item@),
        _ => true,
    }
}

/// The walk's invariant: names are recorded once, every in-progress item is
/// a manifest item, the plan is well formed, and the installed set and the
/// plan's copy entries name exactly the same items.
pub open spec fn state_wf(m: Manifest, config: UserConfig, st: ResolveState) -> bool {
    let inst = st.installed.deep_view();
    let ip = st.in_progress.deep_view();
    let plan = st.plan@;
    &&& inst.no_duplicates()
    &&& ip.no_duplicates()
    &&& forall|k: int| 0 <= k < ip.len() ==> m.has_item(#[trigger] ip[k])
    &&& plan_wf(m, config, plan)
    &&& forall|n: Seq<char>| #[trigger] inst.contains(n) ==> plan_has_copy(plan, n)
    &&& forall|j: int| 0 <= j < plan.len() ==> copy_installed(inst, plan, j)
}

/// There can be no more distinct in-progress manifest items than the
/// manifest has items: the walk's termination measure is non-negative.
pub proof fn lemma_in_progress_bounded(m: Manifest, ip: Seq<Seq<char>>)
    requires
        m.wf(),
        ip.no_duplicates(),
        forall|k: int| 0 <= k < ip.len() ==> m.has_item(#[trigger] ip[k]),
    ensures
        ip.len() <= m.items@.len(),
{
    broadcast use vstd::seq_lib::seq_to_set_is_finite;

    let names = m.names();
    assert(names.len() == m.items@.len());
    assert forall|i: int, j: int|
        0 <= i < names.len() && 0 <= j < names.len() && i != j implies names[i] != names[j] by {
        assert(names[i] == m.items@[i].0@);
        assert(names[j] == m.items@[j].0@);
    }
    assert(names.no_duplicates());
    ip.unique_seq_to_set();
    names.unique_seq_to_set();
    assert forall|n: Seq<char>| ip.to_set().contains(n) implies names.to_set().contains(n) by {
        assert(ip.contains(n));
        let k = choose|k: int| 0 <= k < ip.len() && ip[k] == n;
        assert(m.has_item(n));
        let i = choose|i: int| 0 <= i < m.items@.len() && m.items@[i].0@ == n;
        assert(names[i] == n);
        assert(names.contains(n));
    }
    assert(ip.to_set().subset_of(names.to_set()));
    vstd::set_lib::lemma_len_subset(ip.to_set(), names.to_set());
}

/// An element-for-element copy of a list of names.
fn clone_string_vec(v: &Vec<String>) -> (r: Vec<String>)
    ensures
        r.deep_view() == v.deep_view(),
        r@.len() == v@.len(),
{
    let mut out: Vec<String> = Vec::new();
    let mut i: usize = 0;
    while i < v.len()
        invariant
            i <= v@.len(),
            out@.len() == i,
            forall|j: int| 0 <= j < i ==> out.deep_view()[j] == v.deep_view()[j],
        decreases v@.len() - i,
    {
        out.push(v[i].clone());
        i += 1;
    }
    proof {
        assert(out.deep_view() =~= v.deep_view());
    }
    out
}

/// Installs one item: its external packages are requested first, then its
/// internal dependencies are installed depth first, then its own files are
/// copied, and only then is it marked installed. An item already installed
/// is not processed again; an internal reference back onto the current
/// path, or to a name the manifest does not hold, aborts the walk.
pub fn install_item(
    item_name: &String,
    manifest: &Manifest,
    user_config: &UserConfig,
    st: ResolveState,
) -> (res: Result<ResolveState, InstallError>)
    requires
        manifest.wf(),
        user_config.wf(),
        state_wf(*manifest, *user_config, st),
    ensures
        match res {
            Ok(st2) => {
                &&& state_wf(*manifest, *user_config, st2)
                &&& st2.in_progress.deep_view() == st.in_progress.deep_view()
                &&& st.plan@.is_prefix_of(st2.plan@)
                &&& forall|n: Seq<char>|
                    #[trigger] st.installed.deep_view().contains(n)
                        ==> st2.installed.deep_view().contains(n)
                &&& st2.installed.deep_view().contains(item_name@)
                &&& forall|n: Seq<char>|
                    #[trigger] st2.installed.deep_view().contains(n)
                        && !st.installed.deep_view().contains(n)
                        ==> !st.in_progress.deep_view().contains(n)
            },
            Err(e) => {
                &&& (e matches InstallError::ItemNotFound(_) || e
                    matches InstallError::CycleDetected(_))
                &&& (e matches InstallError::ItemNotFound(n) ==> !manifest.has_item(n@))
                &&& (e matches InstallError::CycleDetected(n) ==> manifest.has_item(n@))
            },
        },
        st.installed.deep_view().contains(item_name@) ==> (res matches Ok(st2) && st2 == st),
        !st.installed.deep_view().contains(item_name@) && st.in_progress.deep_view().contains(
            item_name@,
        ) ==> (res matches Err(e) && e matches InstallError::CycleDetected(n) && n@ == item_name@),
        !st.installed.deep_view().contains(item_name@) && !st.in_progress.deep_view().contains(
            item_name@,
        ) && !manifest.has_item(item_name@) ==> (res matches Err(e) && e
            matches InstallError::ItemNotFound(n) && n@ == item_name@),
        !st.in_progress.deep_view().contains(item_name@) && manifest.has_item(item_name@) && (
        forall|k: int|
            0 <= k < manifest.spec_item(item_name@).internal_dependencies@.len()
                ==> st.installed.deep_view().contains(
                #[trigger] manifest.spec_item(item_name@).internal_dependencies@[k]@,
            )) ==> res is Ok,
    decreases manifest.items@.len() - st.in_progress@.len(),
{
    if contains_name(&st.installed, item_name) {
        return Ok(st);
    }
    if contains_name(&st.in_progress, item_name) {
        proof {
            let ip = st.in_progress.deep_view();
            let k = choose|k: int| 0 <= k < ip.len() && ip[k] == item_name@;
            assert(manifest.has_item(ip[k]));
        }
        return Err(InstallError::CycleDetected(item_name.clone()));
    }
    let item = match manifest.find_item(item_name) {
        None => {
            return Err(InstallError::ItemNotFound(item_name.clone()));
        },
        Some(it) => it,
    };
    let ghost st0 = st;
    let mut cur = st;
    cur.in_progress.push(item_name.clone());
    proof {
        assert(cur.in_progress.deep_view() =~= st0.in_progress.deep_view().push(item_name@));
        let ip = cur.in_progress.deep_view();
        let ip0 = st0.in_progress.deep_view();
        assert forall|i: int, j: int|
            0 <= i < ip.len() && 0 <= j < ip.len() && i != j implies ip[i] != ip[j] by {
            if i < ip0.len() && j < ip0.len() {
            } else if i == ip0.len() {
                assert(ip[j] == ip0[j]);
                assert(!ip0.contains(item_name@));
            } else {
                assert(ip[i] == ip0[i]);
                assert(!ip0.contains(item_name@));
            }
        }
        assert(ip.no_duplicates());
    }
    if item.dependencies.len() > 0 {
        let packages = clone_string_vec(&item.dependencies);
        let item_clone = item_name.clone();
        let ghost plan0 = cur.plan@;
        let ghost pushed = Action::InstallDeps { item: item_clone, packages: packages };
        cur.plan.push(Action::InstallDeps { item: item_clone, packages });
        proof {
            let plan = cur.plan@;
            assert(plan == plan0.push(pushed));
            assert forall|j: int| 0 <= j < plan.len() implies plan_entry_wf(
                *manifest,
                *user_config,
                plan,
                j,
            ) by {
                if j < plan0.len() {
                    assert(plan_entry_wf(*manifest, *user_config, plan0, j));
                    assert(plan[j] == plan0[j]);
                    match plan0[j] {
                        Action::CopyItemFiles { item: nm, copies } => {
                            let it = manifest.spec_item(nm@);
                            assert forall|k: int|
                                0 <= k < it.internal_dependencies@.len() implies plan_copy_before(
                                plan,
                                it.internal_dependencies@[k]@,
                                j,
                            ) by {
                                let i = choose|i: int|
                                    0 <= i < j && is_copy_of(
                                        plan0[i],
                                        it.internal_dependencies@[k]@,
                                    );
                                assert(is_copy_of(plan[i], it.internal_dependencies@[k]@));
                            }
                            if it.dependencies@.len() > 0 {
                                let i = choose|i: int| 0 <= i < j && is_deps_of(plan0[i], nm@);
                                assert(is_deps_of(plan[i], nm@));
                            }
                        },
                        Action::InstallDeps { item: nm, packages: ps } => {},
                    }
                } else {
                    assert(plan[j] == pushed);
                }
            }
            assert forall|i: int, j: int| 0 <= i < j < plan.len() implies !same_copy_name(
                plan[i],
                plan[j],
            ) by {
                if j < plan0.len() {
                    assert(plan[i] == plan0[i] && plan[j] == plan0[j]);
                } else {
                    assert(plan[j] == pushed);
                }
            }
            assert forall|n: Seq<char>| #[trigger]
                cur.installed.deep_view().contains(n) implies plan_has_copy(plan, n) by {
                assert(plan_has_copy(plan0, n));
                let i = choose|i: int| 0 <= i < plan0.len() && is_copy_of(plan0[i], n);
                assert(is_copy_of(plan[i], n));
            }
            assert forall|j: int| 0 <= j < plan.len() implies copy_installed(
                cur.installed.deep_view(),
                plan,
                j,
            ) by {
                if j < plan0.len() {
                    assert(plan[j] == plan0[j]);
                    assert(copy_installed(cur.installed.deep_view(), plan0, j));
                } else {
                    assert(plan[j] == pushed);
                }
            }
            assert(is_deps_of(cur.plan@[plan0.len() as int], item_name@));
        }
    }
    let ghost plan1 = cur.plan@;
    let mut di: usize = 0;
    while di < item.internal_dependencies.len()
        invariant
            st0 == st,
            manifest.wf(),
            user_config.wf(),
            state_wf(*manifest, *user_config, cur),
            *item == manifest.spec_item(item_name@),
            manifest.has_item(item_name@),
            cur.in_progress.deep_view() == st0.in_progress.deep_view().push(item_name@),
            st0.plan@.is_prefix_of(cur.plan@),
            item.dependencies@.len() > 0 ==> exists|i: int|
                0 <= i < cur.plan@.len() && is_deps_of(#[trigger] cur.plan@[i], item_name@),
            forall|n: Seq<char>|
                #[trigger] st0.installed.deep_view().contains(n)
                    ==> cur.installed.deep_view().contains(n),
            forall|n: Seq<char>|
                #[trigger] cur.installed.deep_view().contains(n)
                    && !st0.installed.deep_view().contains(n)
                    ==> !st0.in_progress.deep_view().contains(n) && n != item_name@,
            forall|k: int|
                0 <= k < di ==> cur.installed.deep_view().contains(
                    #[trigger] item.internal_dependencies@[k]@,
                ),
            di <= item.internal_dependencies@.len(),
            !st0.installed.deep_view().contains(item_name@),
            !st0.in_progress.deep_view().contains(item_name@),
        decreases item.internal_dependencies@.len() - di,
    {
        let dep = &item.internal_dependencies[di];
        proof {
            assert(cur.in_progress.deep_view().len() == cur.in_progress@.len());
            assert(st0.in_progress.deep_view().len() == st0.in_progress@.len());
            lemma_in_progress_bounded(*manifest, cur.in_progress.deep_view());
            assert(cur.in_progress@.len() == st0.in_progress@.len() + 1);
        }
        let ghost st_before = cur;
        cur = match install_item(dep, manifest, user_config, cur) {
            Ok(s) => s,
            Err(e) => {
                proof {
                    // were every internal dependency already installed for
                    // the caller, this recursion could not have failed
                    if forall|k: int|
                        0 <= k < item.internal_dependencies@.len()
                            ==> st0.installed.deep_view().contains(
                            #[trigger] item.internal_dependencies@[k]@,
                        ) {
                        assert(st0.installed.deep_view().contains(
                            item.internal_dependencies@[di as int]@,
                        ));
                        assert(st_before.installed.deep_view().contains(dep@));
                    }
                }
                return Err(e);
            },
        };
        proof {
            let inst0 = st0.installed.deep_view();
            let instb = st_before.installed.deep_view();
            let inst = cur.installed.deep_view();
            let ip0 = st0.in_progress.deep_view();
            let ipb = st_before.in_progress.deep_view();
            // the plan only grows, so the whole walk keeps the caller's prefix
            assert forall|i: int| 0 <= i < st_before.plan@.len() implies cur.plan@[i]
                == st_before.plan@[i] by {
                assert(st_before.plan@ =~= cur.plan@.subrange(0, st_before.plan@.len() as int));
            }
            assert(st0.plan@.is_prefix_of(cur.plan@)) by {
                assert(st0.plan@ =~= st_before.plan@.subrange(0, st0.plan@.len() as int));
                assert forall|i: int| 0 <= i < st0.plan@.len() implies cur.plan@[i] == st0.plan@[i] by {
                    assert(st_before.plan@[i] == st0.plan@[i]);
                }
                assert(st0.plan@ =~= cur.plan@.subrange(0, st0.plan@.len() as int));
            }
            if item.dependencies@.len() > 0 {
                let i = choose|i: int|
                    0 <= i < st_before.plan@.len() && is_deps_of(st_before.plan@[i], item_name@);
                assert(is_deps_of(cur.plan@[i], item_name@));
            }
            // everything installed for the caller stays installed
            assert forall|n: Seq<char>| #[trigger] inst0.contains(n) implies inst.contains(n) by {
                assert(instb.contains(n));
            }
            // whatever the recursion finished was not on the caller's path
            assert forall|n: Seq<char>|
                #[trigger] inst.contains(n) && !inst0.contains(n) implies !ip0.contains(n) && n
                != item_name@ by {
                if instb.contains(n) {
                } else {
                    assert(!ipb.contains(n));
                    assert(ipb[ip0.len() as int] == item_name@);
                    assert(n != item_name@);
                    if ip0.contains(n) {
                        let k = choose|k: int| 0 <= k < ip0.len() && ip0[k] == n;
                        assert(ipb[k] == n);
                    }
                }
            }
            // the dependencies handled so far are all complete
            assert forall|k: int| 0 <= k < di + 1 implies inst.contains(
                #[trigger] item.internal_dependencies@[k]@,
            ) by {
                if k < di {
                    assert(instb.contains(item.internal_dependencies@[k]@));
                } else {
                    assert(item.internal_dependencies@[k]@ == dep@);
                }
            }
        }
        di += 1;
    }
    let mut copies: Vec<CopyAction> = Vec::new();
    let mut fi: usize = 0;
    while fi < item.files.len()
        invariant
            user_config.wf(),
            fi <= item.files@.len(),
            copies@.len() == fi,
            forall|f: int|
                0 <= f < fi ==> (#[trigger] copies@[f]).source@ == item.files@[f].source@
                    && copies@[f].target@ == resolved_target(item.files@[f], *user_config),
        decreases item.files@.len() - fi,
    {
        let target = resolve_target_path(&item.files[fi], user_config);
        copies.push(CopyAction { source: item.files[fi].source.clone(), target });
        fi += 1;
    }
    let ghost st_mid = cur;
    let item_clone = item_name.clone();
    let ghost pushed = Action::CopyItemFiles { item: item_clone, copies: copies };
    cur.plan.push(Action::CopyItemFiles { item: item_clone, copies });
    cur.in_progress.pop();
    cur.installed.push(item_name.clone());
    proof {
        let m = *manifest;
        let cfg = *user_config;
        let plan_mid = st_mid.plan@;
        let inst_mid = st_mid.installed.deep_view();
        let plan = cur.plan@;
        let inst = cur.installed.deep_view();
        let jstar = plan_mid.len() as int;
        assert(plan == plan_mid.push(pushed));
        assert(inst =~= inst_mid.push(item_name@));
        // popping the item restores the caller's path
        let ipm = st_mid.in_progress;
        assert(cur.in_progress@ == ipm@.subrange(0, ipm@.len() - 1));
        assert(ipm.deep_view().len() == ipm@.len());
        assert(st0.in_progress.deep_view().len() == st0.in_progress@.len());
        assert forall|i: int|
            0 <= i < cur.in_progress.deep_view().len() implies cur.in_progress.deep_view()[i]
            == st0.in_progress.deep_view()[i] by {
            assert(cur.in_progress@[i] == ipm@[i]);
            assert(ipm.deep_view()[i] == ipm@[i]@);
            assert(ipm.deep_view()[i] == st0.in_progress.deep_view()[i]);
        }
        assert(cur.in_progress.deep_view() =~= st0.in_progress.deep_view());
        // the requested item was still unfinished
        assert(!inst_mid.contains(item_name@));
        assert forall|i: int, j: int|
            0 <= i < inst.len() && 0 <= j < inst.len() && i != j implies inst[i] != inst[j] by {
            if i < inst_mid.len() && j < inst_mid.len() {
            } else if i == inst_mid.len() {
                assert(inst[j] == inst_mid[j]);
            } else {
                assert(inst[i] == inst_mid[i]);
            }
        }
        assert(inst.no_duplicates());
        // the new copy entry keeps every promise
        assert(is_copy_of(plan[jstar], item_name@));
        assert forall|j: int| 0 <= j < plan.len() implies plan_entry_wf(m, cfg, plan, j) by {
            if j < jstar {
                assert(plan_entry_wf(m, cfg, plan_mid, j));
                assert(plan[j] == plan_mid[j]);
                match plan_mid[j] {
                    Action::CopyItemFiles { item, copies } => {
                        let it = m.spec_item(item@);
                        assert forall|k: int|
                            0 <= k < it.internal_dependencies@.len() implies plan_copy_before(
                            plan,
                            it.internal_dependencies@[k]@,
                            j,
                        ) by {
                            assert(plan_copy_before(plan_mid, it.internal_dependencies@[k]@, j));
                            let i = choose|i: int|
                                0 <= i < j && is_copy_of(plan_mid[i], it.internal_dependencies@[k]@);
                            assert(is_copy_of(plan[i], it.internal_dependencies@[k]@));
                        }
                        if it.dependencies@.len() > 0 {
                            let i = choose|i: int| 0 <= i < j && is_deps_of(plan_mid[i], item@);
                            assert(is_deps_of(plan[i], item@));
                        }
                    },
                    Action::InstallDeps { item, packages } => {},
                }
            } else {
                let it = m.spec_item(item_name@);
                assert(plan[j] == pushed);
                assert(copies_match(it.files@, pushed->CopyItemFiles_copies@, cfg));
                assert forall|k: int|
                    0 <= k < it.internal_dependencies@.len() implies plan_copy_before(
                    plan,
                    it.internal_dependencies@[k]@,
                    jstar,
                ) by {
                    assert(inst_mid.contains(it.internal_dependencies@[k]@));
                    assert(plan_has_copy(plan_mid, it.internal_dependencies@[k]@));
                    let i = choose|i: int|
                        0 <= i < plan_mid.len() && is_copy_of(
                            plan_mid[i],
                            it.internal_dependencies@[k]@,
                        );
                    assert(is_copy_of(plan[i], it.internal_dependencies@[k]@));
                }
                if it.dependencies@.len() > 0 {
                    let i = choose|i: int|
                        0 <= i < plan_mid.len() && is_deps_of(plan_mid[i], item_name@);
                    assert(is_deps_of(plan[i], item_name@));
                }
            }
        }
        // no item is recorded twice
        assert forall|i: int, j: int|
            0 <= i < j < plan.len() implies !same_copy_name(plan[i], plan[j]) by {
            if j < jstar {
                assert(plan[i] == plan_mid[i] && plan[j] == plan_mid[j]);
            } else {
                assert(plan[i] == plan_mid[i]);
                if same_copy_name(plan[i], plan[j]) {
                    assert(is_copy_of(plan_mid[i], item_name@));
                    assert(copy_installed(inst_mid, plan_mid, i));
                    assert(inst_mid.contains(item_name@));
                }
            }
        }
        // installed and copy entries still name the same items
        assert forall|n: Seq<char>| #[trigger] inst.contains(n) implies plan_has_copy(plan, n) by {
            if inst_mid.contains(n) {
                let i = choose|i: int| 0 <= i < plan_mid.len() && is_copy_of(plan_mid[i], n);
                assert(is_copy_of(plan[i], n));
            } else {
                let k = choose|k: int| 0 <= k < inst.len() && inst[k] == n;
                assert(n == item_name@);
                assert(is_copy_of(plan[jstar], n));
            }
        }
        assert forall|j: int| 0 <= j < plan.len() implies copy_installed(inst, plan, j) by {
            assert(inst.contains(item_name@)) by {
                assert(inst[inst_mid.len() as int] == item_name@);
            }
            if j < jstar {
                assert(plan[j] == plan_mid[j]);
                assert(copy_installed(inst_mid, plan_mid, j));
                match plan_mid[j] {
                    Action::CopyItemFiles { item, copies } => {
                        let k = choose|k: int| 0 <= k < inst_mid.len() && inst_mid[k] == item@;
                        assert(inst[k] == item@);
                    },
                    _ => {},
                }
            }
        }
        // the whole walk only grew the plan
        assert(st0.plan@.is_prefix_of(plan)) by {
            assert(st0.plan@ =~= plan_mid.subrange(0, st0.plan@.len() as int));
            assert forall|i: int| 0 <= i < st0.plan@.len() implies plan[i] == st0.plan@[i] by {
                assert(plan_mid[i] == st0.plan@[i]);
            }
            assert(st0.plan@ =~= plan.subrange(0, st0.plan@.len() as int));
        }
        assert(cur.installed.deep_view().contains(item_name@)) by {
            assert(inst[inst_mid.len() as int] == item_name@);
        }
        assert forall|n: Seq<char>|
            #[trigger] st0.installed.deep_view().contains(n) implies cur.installed.deep_view().contains(
            n,
        ) by {
            let k = choose|k: int| 0 <= k < inst_mid.len() && inst_mid[k] == n;
            assert(inst[k] == n);
        }
        assert forall|n: Seq<char>|
            #[trigger] inst.contains(n) && !st0.installed.deep_view().contains(n)
            implies !st0.in_progress.deep_view().contains(n) by {
            if inst_mid.contains(n) {
            } else {
                let k = choose|k: int| 0 <= k < inst.len() && inst[k] == n;
                assert(n == item_name@);
            }
        }
    }
    Ok(cur)
}

/// Resolves everything `item_name` needs into an ordered plan. The plan
/// requests an item's external packages before any of its files, copies
/// every internal dependency's files before the item's own, and never
/// copies the same item twice.
pub fn resolve_install(
    item_name: &String,
    manifest: &Manifest,
    user_config: &UserConfig,
) -> (res: Result<Vec<Action>, InstallError>)
    requires
        manifest.wf(),
        user_config.wf(),
    ensures
        match res {
            Ok(plan) => {
                &&& plan_wf(*manifest, *user_config, plan@)
                &&& plan_has_copy(plan@, item_name@)
            },
            Err(e) => {
                &&& (e matches InstallError::ItemNotFound(_) || e
                    matches InstallError::CycleDetected(_))
                &&& (e matches InstallError::ItemNotFound(n) ==> !manifest.has_item(n@))
                &&& (e matches InstallError::CycleDetected(n) ==> manifest.has_item(n@))
            },
        },
        !manifest.has_item(item_name@) ==> (res matches Err(e) && e
            matches InstallError::ItemNotFound(n) && n@ == item_name@),
        manifest.has_item(item_name@) && manifest.spec_item(
            item_name@,
        ).internal_dependencies@.len() == 0 ==> res is Ok,
{
    let st = ResolveState { installed: Vec::new(), in_progress: Vec::new(), plan: Vec::new() };
    proof {
        assert(st.installed.deep_view() =~= Seq::<Seq<char>>::empty());
        assert(st.in_progress.deep_view() =~= Seq::<Seq<char>>::empty());
        assert(state_wf(*manifest, *user_config, st));
    }
    match install_item(item_name, manifest, user_config, st) {
        Ok(st2) => {
            proof {
                assert(plan_has_copy(st2.plan@, item_name@));
            }
            Ok(st2.plan)
        },
        Err(e) => Err(e),
    }
}

} // verus!
