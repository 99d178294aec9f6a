use bforge::commands::{
    default_user_config, install_item, resolve_install, Action, CopyAction, ResolveState,
};
use bforge::dependencies::{get_missing_deps, PackageDescriptor};
use bforge::errors::{InstallError, ParseErrorKind};
use bforge::manifest::{FileMapping, Item, Manifest, UserConfig};

fn item(deps: Vec<&str>, internal: Vec<&str>, files: Vec<(&str, &str)>) -> Item {
    Item {
        item_type: "component".to_string(),
        description: String::new(),
        dependencies: deps.into_iter().map(str::to_string).collect(),
        internal_dependencies: internal.into_iter().map(str::to_string).collect(),
        files: files
            .into_iter()
            .map(|(s, t)| FileMapping {
                source: s.to_string(),
                target: t.to_string(),
            })
            .collect(),
    }
}

fn manifest(items: Vec<(&str, Item)>) -> Manifest {
    Manifest {
        name: "ui".to_string(),
        schema_version: "1.0.0".to_string(),
        items: items
            .into_iter()
            .map(|(n, i)| (n.to_string(), i))
            .collect(),
    }
}

fn empty_config() -> UserConfig {
    UserConfig { aliases: vec![] }
}

fn copy_order(plan: &[Action]) -> Vec<String> {
    plan.iter()
        .filter_map(|a| match a {
            Action::CopyItemFiles { item, .. } => Some(item.clone()),
            _ => None,
        })
        .collect()
}

#[test]
fn test_card_installs_button_files_first() {
    let m = manifest(vec![
        ("button", item(vec!["vue"], vec![], vec![("button/Button.vue", "b")])),
        (
            "card",
            item(vec!["vue"], vec!["button"], vec![("card/Card.vue", "c")]),
        ),
    ]);
    let plan = resolve_install(&"card".to_string(), &m, &empty_config()).unwrap();
    assert_eq!(copy_order(&plan), vec!["button".to_string(), "card".to_string()]);

    // Executing the plan against an initially empty descriptor runs the
    // package manager for `vue` exactly once, though both items declare it.
    let mut descriptor = PackageDescriptor {
        dependencies: vec![],
        dev_dependencies: vec![],
    };
    let mut invocations: Vec<Vec<String>> = vec![];
    for a in &plan {
        if let Action::InstallDeps { packages, .. } = a {
            let missing = get_missing_deps(packages, &descriptor);
            if !missing.is_empty() {
                invocations.push(missing.clone());
                descriptor.dependencies.extend(missing);
            }
        }
    }
    assert_eq!(invocations, vec![vec!["vue".to_string()]]);
}

#[test]
fn test_diamond_dependency_copied_once() {
    let m = manifest(vec![
        ("a", item(vec![], vec!["b", "c"], vec![("a.vue", "a")])),
        ("b", item(vec![], vec!["d"], vec![("b.vue", "b")])),
        ("c", item(vec![], vec!["d"], vec![("c.vue", "c")])),
        ("d", item(vec![], vec![], vec![("d.vue", "d")])),
    ]);
    let plan = resolve_install(&"a".to_string(), &m, &empty_config()).unwrap();
    let order = copy_order(&plan);
    assert_eq!(order.iter().filter(|n| n.as_str() == "d").count(), 1);
    assert_eq!(order, vec!["d", "b", "c", "a"]);
}

#[test]
fn test_copies_resolve_through_aliases() {
    let m = manifest(vec![(
        "button",
        item(
            vec![],
            vec![],
            vec![("src/button/Button.vue", "components/button/Button.vue")],
        ),
    )]);
    let config = UserConfig {
        aliases: vec![("components".to_string(), "app/ui".to_string())],
    };
    let plan = resolve_install(&"button".to_string(), &m, &config).unwrap();
    let copies: Vec<_> = plan
        .iter()
        .filter_map(|a| match a {
            Action::CopyItemFiles { copies, .. } => Some(copies),
            _ => None,
        })
        .flatten()
        .collect();
    assert_eq!(copies.len(), 1);
    assert_eq!(copies[0].source, "src/button/Button.vue");
    assert_eq!(copies[0].target, "app/ui/button/Button.vue");
}

#[test]
fn test_requested_item_not_found() {
    let m = manifest(vec![("button", item(vec![], vec![], vec![]))]);
    let err = resolve_install(&"ghost".to_string(), &m, &empty_config()).unwrap_err();
    assert_eq!(err, InstallError::ItemNotFound("ghost".to_string()));
}

#[test]
fn test_internal_reference_not_found() {
    let m = manifest(vec![(
        "card",
        item(vec![], vec!["ghost"], vec![("c.vue", "c")]),
    )]);
    let err = resolve_install(&"card".to_string(), &m, &empty_config()).unwrap_err();
    assert_eq!(err, InstallError::ItemNotFound("ghost".to_string()));
}

#[test]
fn test_cycle_is_rejected() {
    let m = manifest(vec![
        ("a", item(vec![], vec!["b"], vec![])),
        ("b", item(vec![], vec!["a"], vec![])),
    ]);
    let err = resolve_install(&"a".to_string(), &m, &empty_config()).unwrap_err();
    assert_eq!(err, InstallError::CycleDetected("a".to_string()));
}

#[test]
fn test_already_installed_item_is_skipped() {
    let m = manifest(vec![("button", item(vec![], vec![], vec![("b.vue", "b")]))]);
    let st = ResolveState {
        installed: vec!["button".to_string()],
        in_progress: vec![],
        plan: vec![Action::CopyItemFiles {
            item: "button".to_string(),
            copies: vec![CopyAction {
                source: "b.vue".to_string(),
                target: "b.vue".to_string(),
            }],
        }],
    };
    let st2 = install_item(&"button".to_string(), &m, &empty_config(), st).unwrap();
    assert_eq!(st2.plan.len(), 1);
    assert_eq!(st2.installed, vec!["button".to_string()]);
}

#[test]
fn test_default_user_config_aliases() {
    let config = default_user_config();
    assert_eq!(
        config.aliases,
        vec![
            ("components".to_string(), "app/components/ui".to_string()),
            ("composables".to_string(), "app/composables".to_string()),
            ("utils".to_string(), "app/utils".to_string()),
        ]
    );
}

#[test]
fn test_parse_error_kinds_are_distinguishable() {
    assert_ne!(
        InstallError::ParseError(ParseErrorKind::FileNotFound),
        InstallError::ParseError(ParseErrorKind::MalformedJson)
    );
    assert_ne!(
        InstallError::ParseError(ParseErrorKind::MalformedJson),
        InstallError::ParseError(ParseErrorKind::SchemaMismatch)
    );
}
