use emmyrc_paths::components;
use emmyrc_paths::normalize_components;
use emmyrc_paths::normalize_path;
use emmyrc_paths::Component;

fn name(text: &str) -> Component {
    Component::Normal(text.chars().collect())
}

fn prefix(text: &str) -> Component {
    Component::Prefix(text.chars().collect())
}

#[test]
fn normalize_folds_dot_and_dot_dot() {
    assert_eq!(normalize_path("a/./b/../c"), "a/c");
}

#[test]
fn normalize_cannot_ascend_past_root() {
    assert_eq!(normalize_path("/a/../../b"), "/b");
}

#[test]
fn normalize_keeps_leading_ascents_of_relative_path() {
    assert_eq!(normalize_path("../../a"), "../../a");
}

#[test]
fn normalize_empty_and_dot_give_empty() {
    assert_eq!(normalize_path(""), "");
    assert_eq!(normalize_path("."), "");
    assert_eq!(normalize_path("./"), "");
    assert_eq!(normalize_path("./."), "");
}

#[test]
fn normalize_root_stays_root() {
    assert_eq!(normalize_path("/"), "/");
    assert_eq!(normalize_path("//"), "/");
    assert_eq!(normalize_path("/."), "/");
    assert_eq!(normalize_path("/.."), "/");
    assert_eq!(normalize_path("/../.."), "/");
}

#[test]
fn normalize_drops_empty_segments_and_trailing_separator() {
    assert_eq!(normalize_path("//a///b//"), "/a/b");
    assert_eq!(normalize_path("a/b/"), "a/b");
    assert_eq!(normalize_path("a//b"), "a/b");
}

#[test]
fn normalize_pops_names_before_it_keeps_an_ascent() {
    assert_eq!(normalize_path("a/.."), "");
    assert_eq!(normalize_path("a/../.."), "..");
    assert_eq!(normalize_path("a/b/../../../c"), "../c");
    assert_eq!(normalize_path("../a/../b"), "../b");
    assert_eq!(normalize_path("a/../../b/../.."), "../..");
}

#[test]
fn normalize_kept_ascent_is_not_popped_by_the_next() {
    assert_eq!(normalize_path("../.."), "../..");
    assert_eq!(normalize_path("../../.."), "../../..");
    assert_eq!(normalize_path("../a/../.."), "../..");
}

#[test]
fn normalize_takes_dotted_names_as_names() {
    assert_eq!(normalize_path("..."), "...");
    assert_eq!(normalize_path(".a/b.."), ".a/b..");
    assert_eq!(normalize_path("a/.../.."), "a");
    assert_eq!(normalize_path("/a/..b/../c"), "/a/c");
}

#[test]
fn normalize_leaves_other_characters_alone() {
    assert_eq!(normalize_path("/ä/../ö/日本"), "/ö/日本");
    assert_eq!(normalize_path("a b/~/$x/{y}"), "a b/~/$x/{y}");
    assert_eq!(normalize_path("C:\\a\\..\\b"), "C:\\a\\..\\b");
}

#[test]
fn normalize_twice_is_normalize_once() {
    let paths = [
        "",
        ".",
        "/",
        "a/./b/../c",
        "/a/../../b",
        "../../a",
        "a/../../b/../..",
        "//x//y/../../../z/",
        "./../a/./..",
        "/ä/../ö",
    ];
    for path in paths {
        let once = normalize_path(path);
        assert_eq!(normalize_path(&once), once);
    }
}

#[test]
fn normalize_keeps_absolute_and_relative() {
    assert!(normalize_path("/a/../..").starts_with('/'));
    assert!(!normalize_path("a/../..").starts_with('/'));
    assert!(!normalize_path("../x").starts_with('/'));
}

#[test]
fn components_of_relative_path() {
    assert_eq!(
        components("a//b/./../c/"),
        vec![name("a"), name("b"), Component::CurDir, Component::ParentDir, name("c")]
    );
}

#[test]
fn components_of_absolute_path() {
    assert_eq!(
        components("/usr/../lib"),
        vec![Component::RootDir, name("usr"), Component::ParentDir, name("lib")]
    );
    assert_eq!(components("/"), vec![Component::RootDir]);
    assert_eq!(components("///"), vec![Component::RootDir]);
}

#[test]
fn components_of_empty_path() {
    assert_eq!(components(""), Vec::<Component>::new());
}

#[test]
fn components_never_give_a_prefix() {
    assert_eq!(components("C:/a"), vec![name("C:"), name("a")]);
}

#[test]
fn normalize_components_of_a_path_is_normalize_path() {
    let paths = ["a/./b/../c", "/a/../../b", "../../a", "", "/"];
    for path in paths {
        assert_eq!(normalize_components(&components(path)), normalize_path(path));
    }
}

#[test]
fn normalize_components_writes_prefix_then_root() {
    let parts = vec![
        prefix("C:"),
        Component::RootDir,
        name("a"),
        Component::ParentDir,
        Component::ParentDir,
        name("b"),
    ];
    assert_eq!(normalize_components(&parts), "C:/b");
}

#[test]
fn normalize_components_drops_ascent_under_prefix_without_root() {
    let parts = vec![prefix("C:"), Component::ParentDir, name("x")];
    assert_eq!(normalize_components(&parts), "C:x");
}

#[test]
fn normalize_components_keeps_the_last_prefix() {
    let parts = vec![prefix("C:"), prefix("D:"), Component::RootDir, name("x")];
    assert_eq!(normalize_components(&parts), "D:/x");
}

#[test]
fn normalize_components_decides_on_an_ascent_when_it_is_read() {
    let parts = vec![Component::ParentDir, Component::RootDir, Component::ParentDir, name("x")];
    assert_eq!(normalize_components(&parts), "/../x");
}

#[test]
fn normalize_components_of_nothing_is_empty() {
    assert_eq!(normalize_components(&Vec::new()), "");
}
