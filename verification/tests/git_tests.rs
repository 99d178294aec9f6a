use bforge::git::{cache_plan, get_cache_dir, get_url, sanitize_repo_name_to_folder, CachePlan};

#[test]
fn test_get_url() {
    assert_eq!(get_url("user/repo"), "git@github.com:user/repo.git");
}

#[test]
fn test_sanitize_repo_name() {
    assert_eq!(sanitize_repo_name_to_folder("user/repo"), "user_repo");
}

#[test]
fn test_sanitize_replaces_colon_and_dot() {
    assert_eq!(
        sanitize_repo_name_to_folder("git@host:a/b.git"),
        "git@host_a_b_git"
    );
}

#[test]
fn test_cache_plan_clone_when_not_cached() {
    match cache_plan("user/repo", "/tmp/cache", false) {
        CachePlan::Clone { url, dest } => {
            assert_eq!(url, "git@github.com:user/repo.git");
            assert_eq!(dest, "/tmp/cache/user_repo");
        }
        CachePlan::Update { .. } => panic!("expected a clone plan"),
    }
}

#[test]
fn test_cache_plan_update_when_cached() {
    match cache_plan("user/repo", "/tmp/cache", true) {
        CachePlan::Update { dest } => assert_eq!(dest, "/tmp/cache/user_repo"),
        CachePlan::Clone { .. } => panic!("expected an update plan"),
    }
}

#[test]
fn test_get_cache_dir_ends_in_git() {
    if let Ok(dir) = get_cache_dir() {
        assert!(dir.ends_with("/git"));
    }
}
