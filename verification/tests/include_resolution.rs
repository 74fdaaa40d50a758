use notorious6::include_path::{canonical, resolve_include};

#[test]
fn nested_include_resolves_against_including_file() {
    // a.glsl includes "b/c.glsl"; b/c.glsl includes "../d.glsl"
    let first = resolve_include("b/c.glsl", "shaders/a.glsl");
    assert_eq!(first, "shaders/b/c.glsl");
    let second = resolve_include("../d.glsl", &first);
    assert_eq!(second, "shaders/b/../d.glsl");
}

#[test]
fn include_from_top_level_file() {
    assert_eq!(resolve_include("b/c.glsl", "a.glsl"), "b/c.glsl");
    assert_eq!(resolve_include("../d.glsl", "b/c.glsl"), "b/../d.glsl");
}

#[test]
fn rooted_include_is_taken_as_it_is() {
    assert_eq!(resolve_include("/inc/math.glsl", "shaders/deep/a.glsl"), "/inc/math.glsl");
    assert_eq!(resolve_include("/", "x/y"), "/");
}

#[test]
fn include_beside_entry_without_directory() {
    assert_eq!(resolve_include("x.glsl", ""), "x.glsl");
    assert_eq!(resolve_include("x.glsl", "entry"), "x.glsl");
    assert_eq!(resolve_include("", "dir/entry"), "dir/");
}

#[test]
fn parent_skips_separators_and_dot_segments() {
    assert_eq!(resolve_include("x", "a/b/"), "a/x");
    assert_eq!(resolve_include("x", "a/b//"), "a/x");
    assert_eq!(resolve_include("x", "a/b/."), "a/x");
    assert_eq!(resolve_include("x", "a/b/./."), "a/x");
    assert_eq!(resolve_include("x", "a//b"), "a/x");
    assert_eq!(resolve_include("x", "a/./b"), "a/./x");
    assert_eq!(resolve_include("x", "a/.."), "a/x");
    assert_eq!(resolve_include("x", "/a"), "x");
    assert_eq!(resolve_include("x", "/"), "x");
    assert_eq!(resolve_include("x", "."), "x");
    assert_eq!(resolve_include("x", "./"), "x");
    assert_eq!(resolve_include("x", "//a//b//"), "//a/x");
    assert_eq!(resolve_include("x", "a/.b"), "a/x");
    assert_eq!(resolve_include("x", "a/b./."), "a/x");
}

#[test]
fn resolution_does_not_depend_on_working_directory() {
    let a = resolve_include("inc/common.glsl", "shaders/tone/aces.glsl");
    let b = resolve_include("inc/common.glsl", "shaders/tone/aces.glsl");
    assert_eq!(a, b);
    assert_eq!(a, "shaders/tone/inc/common.glsl");
}

#[test]
fn canonical_paths() {
    assert_eq!(canonical("shaders/b/../d.glsl"), "shaders/d.glsl");
    assert_eq!(canonical("./a"), "a");
    assert_eq!(canonical("a/./b//c/"), "a/b/c");
    assert_eq!(canonical("/x/./y"), "/x/y");
    assert_eq!(canonical("/"), "/");
    assert_eq!(canonical(""), "");
    assert_eq!(canonical("."), "");
    assert_eq!(canonical("../a"), "../a");
    assert_eq!(canonical("a/../../b"), "../b");
    assert_eq!(canonical("a/b/../.."), "");
    // two ways of writing one path
    assert_eq!(
        canonical(&resolve_include("../d.glsl", "shaders/b/c.glsl")),
        canonical(&resolve_include("d.glsl", "shaders/a.glsl"))
    );
}
