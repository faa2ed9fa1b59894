//! Names, hosts and paths of actions.

use oc_protocol::error::{bad, FormatError};
use oc_protocol::paths::{
    check_host, check_http_path, check_name, check_secret_ref, check_tree_path, path_under,
    MAX_ACTION_NAME, MAX_ACTION_PATH,
};

fn byte(byte: u8) -> Option<FormatError> {
    Some(FormatError::BadAddressByte { tag: 2, byte })
}

#[test]
fn a_name_has_a_narrow_alphabet() {
    assert_eq!(check_name(2, "Repo_1.x-y"), None);
    assert_eq!(check_name(2, ""), Some(bad(2, 0)));
    assert_eq!(check_name(2, &"a".repeat(MAX_ACTION_NAME + 1)), Some(bad(2, MAX_ACTION_NAME + 1)));
    assert_eq!(check_name(2, "-rf"), byte(b'-'));
    assert_eq!(check_name(2, "a b"), byte(b' '));
    assert_eq!(check_name(2, "a/b"), byte(b'/'));
}

#[test]
fn a_host_is_made_of_labels() {
    assert_eq!(check_host(2, "api.example-1.com"), None);
    assert_eq!(check_host(2, "API.example.com"), byte(b'A'));
    assert_eq!(check_host(2, "a..b"), byte(b'.'));
    assert_eq!(check_host(2, ".a"), byte(b'.'));
    assert_eq!(check_host(2, "a."), byte(b'.'));
    assert_eq!(check_host(2, "-a.b"), byte(b'.'));
    assert_eq!(check_host(2, "a-.b"), byte(b'.'));
}

#[test]
fn a_reference_to_a_secret_is_in_capitals() {
    assert_eq!(check_secret_ref(2, "API_TOKEN_2"), None);
    assert_eq!(check_secret_ref(2, "api"), byte(b'a'));
    assert_eq!(check_secret_ref(2, ""), Some(bad(2, 0)));
}

#[test]
fn a_path_in_a_tree_is_relative_and_goes_nowhere_else() {
    assert_eq!(check_tree_path(2, "src/lib.rs"), None);
    assert_eq!(check_tree_path(2, "/src"), byte(b'/'));
    assert!(check_tree_path(2, "src/../etc").is_some());
    assert!(check_tree_path(2, "./src").is_some());
    assert!(check_tree_path(2, "src//lib").is_some());
    assert_eq!(check_tree_path(2, "src/li b"), byte(b' '));
}

#[test]
fn a_path_of_a_request_begins_at_the_root() {
    assert_eq!(check_http_path(2, "/"), None);
    assert_eq!(check_http_path(2, "/v1/items/~me%20"), None);
    assert_eq!(check_http_path(2, "v1"), byte(b'/'));
    assert!(check_http_path(2, "/a/../b").is_some());
    assert_eq!(check_http_path(2, "/a?b"), byte(b'?'));
    let long = format!("/{}", "a".repeat(MAX_ACTION_PATH));
    assert_eq!(check_http_path(2, &long), Some(bad(2, MAX_ACTION_PATH + 1)));
}

#[test]
fn a_prefix_ends_at_a_whole_part() {
    assert!(path_under("/v1", "/v1"));
    assert!(path_under("/v1", "/v1/items"));
    assert!(!path_under("/v1", "/v10"));
    assert!(!path_under("/v1/items", "/v1"));
    assert!(path_under("/", "/v1"));
}
