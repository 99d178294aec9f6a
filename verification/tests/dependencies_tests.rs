use bforge::dependencies::{
    detect_package_manager, get_missing_deps, plan_dependency_install, PackageDescriptor,
    PackageManager,
};

fn descriptor(deps: Vec<&str>, dev_deps: Vec<&str>) -> PackageDescriptor {
    PackageDescriptor {
        dependencies: deps.into_iter().map(str::to_string).collect(),
        dev_dependencies: dev_deps.into_iter().map(str::to_string).collect(),
    }
}

#[test]
fn test_get_missing_deps_filters_declared() {
    let wanted = vec!["vue".to_string(), "lodash".to_string()];
    let desc = descriptor(vec!["vue"], vec![]);
    assert_eq!(get_missing_deps(&wanted, &desc), vec!["lodash".to_string()]);
}

#[test]
fn test_get_missing_deps_checks_dev_section() {
    let wanted = vec!["vitest".to_string(), "vue".to_string()];
    let desc = descriptor(vec!["vue"], vec!["vitest"]);
    assert!(get_missing_deps(&wanted, &desc).is_empty());
}

#[test]
fn test_get_missing_deps_keeps_order() {
    let wanted = vec!["a".to_string(), "b".to_string(), "c".to_string()];
    let desc = descriptor(vec!["b"], vec![]);
    assert_eq!(
        get_missing_deps(&wanted, &desc),
        vec!["a".to_string(), "c".to_string()]
    );
}

#[test]
fn test_detect_package_manager_priority() {
    assert_eq!(detect_package_manager(true, true, true), PackageManager::Pnpm);
    assert_eq!(detect_package_manager(false, true, true), PackageManager::Yarn);
    assert_eq!(detect_package_manager(false, false, true), PackageManager::Bun);
    assert_eq!(detect_package_manager(false, false, false), PackageManager::Npm);
}

#[test]
fn test_package_manager_commands() {
    assert_eq!(PackageManager::Pnpm.command(), "pnpm");
    assert_eq!(PackageManager::Pnpm.install_arg(), "add");
    assert_eq!(PackageManager::Yarn.command(), "yarn");
    assert_eq!(PackageManager::Bun.command(), "bun");
    assert_eq!(PackageManager::Npm.command(), "npm");
    assert_eq!(PackageManager::Npm.install_arg(), "install");
}

#[test]
fn test_plan_dependency_install_nothing_missing() {
    let wanted = vec!["vue".to_string()];
    let desc = descriptor(vec!["vue"], vec![]);
    assert!(plan_dependency_install(&wanted, &desc, false, false, false).is_none());
}

#[test]
fn test_plan_dependency_install_spawns_detected_manager() {
    let wanted = vec!["vue".to_string(), "clsx".to_string()];
    let desc = descriptor(vec!["vue"], vec![]);
    let cmd = plan_dependency_install(&wanted, &desc, true, false, false).unwrap();
    assert_eq!(cmd.program, "pnpm");
    assert_eq!(cmd.install_arg, "add");
    assert_eq!(cmd.packages, vec!["clsx".to_string()]);
}
