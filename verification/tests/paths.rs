use asset_manager::utils::paths::{
    calculate_display_path, choose_parent, compose_display_path, get_parent_path,
};

#[test]
fn the_parent_of_a_path_is_the_path_without_its_last_component() {
    assert_eq!(get_parent_path("/vault/icons/small"), "/vault/icons");
    assert_eq!(get_parent_path("/vault"), "/");
    assert_eq!(get_parent_path("relative/dir"), "relative");
    assert_eq!(get_parent_path("single"), "");
}

#[test]
fn a_path_without_parent_is_its_own_parent() {
    assert_eq!(get_parent_path("/"), "/");
    assert_eq!(get_parent_path(""), "");
}

#[test]
fn choose_parent_falls_back_to_the_path_itself() {
    assert_eq!(choose_parent("/a/b", Some("/a".to_string())), "/a");
    assert_eq!(choose_parent("/a/b", Some("".to_string())), "");
    assert_eq!(choose_parent("/a/b", None), "/a/b");
}

#[test]
fn at_the_root_the_name_of_the_root_is_shown() {
    assert_eq!(calculate_display_path("/home/me/vault", "/home/me/vault"), "vault");
    assert_eq!(calculate_display_path("/home/me/vault/", "/home/me/vault"), "vault");
}

#[test]
fn below_the_root_the_name_and_the_relative_path_are_shown() {
    assert_eq!(calculate_display_path("/home/me/vault/icons", "/home/me/vault"), "vault/icons");
    assert_eq!(
        calculate_display_path("/home/me/vault/icons/small", "/home/me/vault"),
        "vault/icons/small"
    );
}

#[test]
fn outside_the_root_the_whole_path_is_shown() {
    assert_eq!(calculate_display_path("/elsewhere/x", "/home/me/vault"), "/elsewhere/x");
    assert_eq!(calculate_display_path("/home/me/vaults", "/home/me/vault"), "/home/me/vaults");
}

#[test]
fn a_root_without_a_name_is_shown_as_it_is() {
    assert_eq!(calculate_display_path("/", "/"), "/");
    assert_eq!(calculate_display_path("/a", "/"), "/a");
    assert_eq!(calculate_display_path("..", ".."), "..");
}

#[test]
fn compose_display_path_covers_each_case() {
    assert_eq!(compose_display_path("/c", "/r", None, Some("r".to_string())), "/c");
    assert_eq!(compose_display_path("/r", "/r", Some("".to_string()), Some("r".to_string())), "r");
    assert_eq!(compose_display_path("/", "/", Some("".to_string()), None), "/");
    assert_eq!(
        compose_display_path("/r/a/b", "/r", Some("a/b".to_string()), Some("r".to_string())),
        "r/a/b"
    );
    assert_eq!(compose_display_path("/a", "/", Some("a".to_string()), None), "/a");
}
