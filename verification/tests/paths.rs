use clink::files::{clone_push_path, extension, parent, strip_root, to_slashes};
use clink::wincanonicalize::wincanonicalize;

#[test]
fn push_joins_with_one_separator() {
    assert_eq!(clone_push_path("/work/app", "Clink.toml"), "/work/app/Clink.toml");
    assert_eq!(clone_push_path("/work/app/", "src"), "/work/app/src");
    assert_eq!(clone_push_path("/work/app", "./src"), "/work/app/./src");
}

#[test]
fn push_of_absolute_path_replaces_base() {
    assert_eq!(clone_push_path("/work/app", "/opt/lib"), "/opt/lib");
}

#[test]
fn push_onto_empty_base_adds_no_separator() {
    assert_eq!(clone_push_path("", "src"), "src");
    assert_eq!(clone_push_path("/work", ""), "/work/");
}

#[test]
fn extension_is_what_follows_the_last_dot_of_the_last_component() {
    assert_eq!(extension("/p/src/a.cpp"), "cpp");
    assert_eq!(extension("/p/src/archive.tar.gz"), "gz");
    assert_eq!(extension("a.h"), "h");
}

#[test]
fn extension_is_empty_without_a_dot_in_the_last_component() {
    assert_eq!(extension("/p/src/Makefile"), "");
    assert_eq!(extension("/p/src.d/Makefile"), "");
    assert_eq!(extension("/p/.hidden"), "");
    assert_eq!(extension(""), "");
    assert_eq!(extension("/p/trailing."), "");
}

#[test]
fn parent_drops_the_last_component() {
    assert_eq!(parent("src/a/b/file.cpp"), "src/a/b");
    assert_eq!(parent("src/a"), "src");
    assert_eq!(parent("file.cpp"), "");
    assert_eq!(parent(""), "");
    assert_eq!(parent("/file.cpp"), "");
}

#[test]
fn strip_root_gives_the_path_below_the_root() {
    assert_eq!(strip_root("/p/src/a.cpp", "/p"), Some("src/a.cpp".to_string()));
    assert_eq!(strip_root("/p/src/a.cpp", "/p/"), Some("src/a.cpp".to_string()));
    assert_eq!(strip_root("/p", "/p"), Some(String::new()));
    assert_eq!(strip_root("/a.cpp", "/"), Some("a.cpp".to_string()));
}

#[test]
fn strip_root_refuses_a_path_outside_the_root() {
    assert_eq!(strip_root("/p2/src/a.cpp", "/p"), None);
    assert_eq!(strip_root("/q/src/a.cpp", "/p"), None);
    assert_eq!(strip_root("/p", "/p/src"), None);
}

#[test]
fn wincanonicalize_removes_the_verbatim_marker() {
    assert_eq!(wincanonicalize("\\\\?\\C:\\work\\app"), "C:\\work\\app");
    assert_eq!(wincanonicalize("C:\\work\\\\?\\app"), "C:\\workapp");
    assert_eq!(wincanonicalize("\\\\?\\"), "");
}

#[test]
fn wincanonicalize_leaves_other_paths_alone() {
    assert_eq!(wincanonicalize("/work/app"), "/work/app");
    assert_eq!(wincanonicalize("\\\\server\\share"), "\\\\server\\share");
    assert_eq!(wincanonicalize(""), "");
}

#[test]
fn to_slashes_replaces_the_separator_of_the_platform() {
    assert_eq!(to_slashes("C:\\w\\P\\src\\a.cpp", '\\'), "C:/w/P/src/a.cpp");
    assert_eq!(to_slashes("/w/P/src/a.cpp", '/'), "/w/P/src/a.cpp");
    assert_eq!(to_slashes("/w/odd\\name", '/'), "/w/odd\\name");
    assert_eq!(to_slashes("", '\\'), "");
    assert_eq!(
        strip_root(&to_slashes("C:\\w\\P\\src\\a.cpp", '\\'), &to_slashes("C:\\w\\P", '\\')),
        Some("src/a.cpp".to_string())
    );
}
