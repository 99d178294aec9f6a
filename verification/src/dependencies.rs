use vstd::prelude::*;

verus! {

/// What the project's package descriptor declares, as the dependency
/// installer reads it: the package names of its runtime and development
/// dependency sections.
#[derive(Debug, Clone)]
pub struct PackageDescriptor {
    /// Names under the runtime dependency section.
    pub dependencies: Vec<String>,
    /// Names under the development dependency section.
    pub dev_dependencies: Vec<String>,
}

impl PackageDescriptor {
    /// Whether the descriptor already declares the package, in either section.
    pub open spec fn declares(self, name: Seq<char>) -> bool {
        self.dependencies.deep_view().contains(name) || self.dev_dependencies.deep_view().contains(
            name,
        )
    }
}

/// Whether a list of package names holds `name`.
pub(crate) fn contains_name(list: &Vec<String>, name: &String) -> (r: bool)
    ensures
        r == list.deep_view().contains(name@),
{
    let mut i: usize = 0;
    while i < list.len()
        invariant
            i <= list@.len(),
            forall|j: int| 0 <= j < i ==> list.deep_view()[j] != name@,
        decreases list@.len() - i,
    {
        if list[i] == *name {
            proof {
                assert(list.deep_view()[i as int] == name@);
            }
            return true;
        }
        i += 1;
    }
    false
}

/// The requested packages the descriptor does not declare yet, in request
/// order.
pub fn get_missing_deps(deps: &Vec<String>, descriptor: &PackageDescriptor) -> (r: Vec<String>)
    ensures
        r.deep_view() == deps.deep_view().filter(|d: Seq<char>| !descriptor.declares(d)),
{
    let ghost pred = |d: Seq<char>| !descriptor.declares(d);
    let mut missing: Vec<String> = Vec::new();
    let mut i: usize = 0;
    proof {
        assert(deps.deep_view().take(0).filter(pred) =~= Seq::<Seq<char>>::empty());
    }
    while i < deps.len()
        invariant
            i <= deps@.len(),
            deps.deep_view().len() == deps@.len(),
            missing.deep_view() == deps.deep_view().take(i as int).filter(pred),
            pred == (|d: Seq<char>| !descriptor.declares(d)),
        decreases deps@.len() - i,
    {
        let d = &deps[i];
        let in_deps = contains_name(&descriptor.dependencies, d);
        let in_dev_deps = contains_name(&descriptor.dev_dependencies, d);
        proof {
            let dv = deps.deep_view();
            assert(dv[i as int] == deps@[i as int]@);
            assert(dv.take(i as int + 1).drop_last() =~= dv.take(i as int));
            assert(dv.take(i as int + 1).last() == dv[i as int]);
        }
        if !in_deps && !in_dev_deps {
            missing.push(d.clone());
            proof {
                assert(missing.deep_view() =~= deps.deep_view().take(i as int).filter(pred).push(
                    deps.deep_view()[i as int],
                ));
            }
        }
        proof {
            reveal_with_fuel(Seq::<Seq<char>>::filter, 2);
            let dv = deps.deep_view();
            assert(dv.take(i as int + 1).filter(pred) == (if pred(dv[i as int]) {
                dv.take(i as int).filter(pred).push(dv[i as int])
            } else {
                dv.take(i as int).filter(pred)
            }));
        }
        i += 1;
    }
    proof {
        assert(deps.deep_view().take(deps@.len() as int) =~= deps.deep_view());
    }
    missing
}

/// The package manager a project uses, told apart by its lockfile.
#[derive(Clone, Copy, Debug, PartialEq, Eq, Structural)]
pub enum PackageManager {
    Pnpm,
    Yarn,
    Bun,
    Npm,
}

/// Which package manager the lockfile probes select: the first match wins,
/// and a project without a recognized lockfile falls back to npm.
pub open spec fn spec_detect(
    has_pnpm_lock: bool,
    has_yarn_lock: bool,
    has_bun_lock: bool,
) -> PackageManager {
    if has_pnpm_lock {
        PackageManager::Pnpm
    } else if has_yarn_lock {
        PackageManager::Yarn
    } else if has_bun_lock {
        PackageManager::Bun
    } else {
        PackageManager::Npm
    }
}

/// The name of the package manager's executable.
pub open spec fn pm_command(pm: PackageManager) -> Seq<char> {
    match pm {
        PackageManager::Pnpm => "pnpm"@,
        PackageManager::Yarn => "yarn"@,
        PackageManager::Bun => "bun"@,
        PackageManager::Npm => "npm"@,
    }
}

/// The subcommand that adds packages to the project.
pub open spec fn pm_install_arg(pm: PackageManager) -> Seq<char> {
    match pm {
        PackageManager::Npm => "install"@,
        _ => "add"@,
    }
}

/// Picks the package manager from the lockfiles present in the project,
/// in priority order.
pub fn detect_package_manager(
    has_pnpm_lock: bool,
    has_yarn_lock: bool,
    has_bun_lock: bool,
) -> (r: PackageManager)
    ensures
        r == spec_detect(has_pnpm_lock, has_yarn_lock, has_bun_lock),
{
    if has_pnpm_lock {
        PackageManager::Pnpm
    } else if has_yarn_lock {
        PackageManager::Yarn
    } else if has_bun_lock {
        PackageManager::Bun
    } else {
        PackageManager::Npm
    }
}

impl PackageManager {
    /// The executable to spawn.
    pub fn command(&self) -> (r: String)
        ensures
            r@ == pm_command(*self),
    {
        match self {
            PackageManager::Pnpm => String::from_str("pnpm"),
            PackageManager::Yarn => String::from_str("yarn"),
            PackageManager::Bun => String::from_str("bun"),
            PackageManager::Npm => String::from_str("npm"),
        }
    }

    /// The argument that asks it to add packages.
    pub fn install_arg(&self) -> (r: String)
        ensures
            r@ == pm_install_arg(*self),
    {
        match self {
            PackageManager::Npm => String::from_str("install"),
            _ => String::from_str("add"),
        }
    }
}

/// One invocation of the package manager, ready to be spawned.
#[derive(Debug, Clone)]
pub struct InstallCommand {
    /// The package manager executable.
    pub program: String,
    /// Its add/install subcommand.
    pub install_arg: String,
    /// The packages handed to it.
    pub packages: Vec<String>,
}

/// Decides what must be asked of the package manager so that the project
/// declares all of `deps`: nothing when every package is already declared,
/// otherwise the detected manager's add command over exactly the missing
/// packages.
pub fn plan_dependency_install(
    deps: &Vec<String>,
    descriptor: &PackageDescriptor,
    has_pnpm_lock: bool,
    has_yarn_lock: bool,
    has_bun_lock: bool,
) -> (r: Option<InstallCommand>)
    ensures
        ({
            let missing = deps.deep_view().filter(|d: Seq<char>| !descriptor.declares(d));
            let pm = spec_detect(has_pnpm_lock, has_yarn_lock, has_bun_lock);
            &&& (r is None <==> missing.len() == 0)
            &&& r is Some ==> r.unwrap().packages.deep_view() == missing && r.unwrap().program@
                == pm_command(pm) && r.unwrap().install_arg@ == pm_install_arg(pm)
        }),
{
    let missing = get_missing_deps(deps, descriptor);
    if missing.len() == 0 {
        None
    } else {
        let pm = detect_package_manager(has_pnpm_lock, has_yarn_lock, has_bun_lock);
        Some(
            InstallCommand {
                program: pm.command(),
                install_arg: pm.install_arg(),
                packages: missing,
            },
        )
    }
}

} // verus!
