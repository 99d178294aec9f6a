use bforge::manifest::{resolve_target_path, FileMapping, Item, Manifest, UserConfig};

fn item_with_files(files: Vec<FileMapping>) -> Item {
    Item {
        item_type: "component".to_string(),
        description: String::new(),
        dependencies: vec![],
        internal_dependencies: vec![],
        files,
    }
}

#[test]
fn test_resolve_target_path_success() {
    let config = UserConfig {
        aliases: vec![("components".to_string(), "app/components".to_string())],
    };

    let mapping = FileMapping {
        source: "src/app/components/button/Button.vue".to_string(),
        target: "components/ui/button/Button.vue".to_string(),
    };

    let result = resolve_target_path(&mapping, &config);
    assert_eq!(result, "app/components/ui/button/Button.vue");
}

#[test]
fn test_resolve_target_path_unknown_alias() {
    let config = UserConfig { aliases: vec![] };
    let mapping = FileMapping {
        source: "local/file".to_string(),
        target: "unknown/file".to_string(),
    };

    let result = resolve_target_path(&mapping, &config);
    // Fallback to source path
    assert_eq!(result, "local/file");
}

#[test]
fn test_resolve_target_path_no_slash() {
    let config = UserConfig { aliases: vec![] };
    let mapping = FileMapping {
        source: "local/file".to_string(),
        target: "simple_name".to_string(),
    };

    let result = resolve_target_path(&mapping, &config);
    // Not enough parts to split, fallback to source
    assert_eq!(result, "local/file");
}

#[test]
fn test_resolve_target_path_second_alias_matches() {
    let config = UserConfig {
        aliases: vec![
            ("utils".to_string(), "app/utils".to_string()),
            ("composables".to_string(), "app/composables".to_string()),
        ],
    };
    let mapping = FileMapping {
        source: "src/composables/useThing.ts".to_string(),
        target: "composables/useThing.ts".to_string(),
    };
    assert_eq!(
        resolve_target_path(&mapping, &config),
        "app/composables/useThing.ts"
    );
}

#[test]
fn test_find_item_present_and_absent() {
    let manifest = Manifest {
        name: "ui".to_string(),
        schema_version: "1.0.0".to_string(),
        items: vec![("button".to_string(), item_with_files(vec![]))],
    };
    assert!(manifest.find_item(&"button".to_string()).is_some());
    assert!(manifest.find_item(&"missing".to_string()).is_none());
}

#[test]
fn test_resolve_target_path_empty_target() {
    let config = UserConfig {
        aliases: vec![("components".to_string(), "app/components".to_string())],
    };
    let mapping = FileMapping {
        source: "local/file".to_string(),
        target: String::new(),
    };
    assert_eq!(resolve_target_path(&mapping, &config), "local/file");
}
