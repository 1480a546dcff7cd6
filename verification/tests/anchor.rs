use emmyrc_paths::anchor_path;
use emmyrc_paths::Environment;

fn with_home(home: &str) -> Environment {
    let mut env = Environment::new();
    env.set_home(home);
    env
}

fn some(text: &str) -> Option<String> {
    Some(text.to_string())
}

#[test]
fn tilde_anchors_to_home() {
    let env = with_home("/home/u");
    assert_eq!(anchor_path("~/x", "/ws", &env), some("/home/u/x"));
    assert_eq!(anchor_path("~x", "/ws", &env), some("/home/u/x"));
    assert_eq!(anchor_path("~", "/ws", &env), some("/home/u/"));
    assert_eq!(anchor_path("~/../v", "/ws", &env), some("/home/u/../v"));
}

#[test]
fn tilde_without_home_has_no_candidate() {
    let env = Environment::new();
    assert_eq!(anchor_path("~/x", "/ws", &env), None);
    assert_eq!(anchor_path("~", "/ws", &env), None);
}

#[test]
fn only_tilde_needs_a_home() {
    let env = Environment::new();
    assert_eq!(anchor_path("./x", "/ws", &env), some("/ws/x"));
    assert_eq!(anchor_path("/x", "/ws", &env), some("/x"));
    assert_eq!(anchor_path("x", "/ws", &env), some("/ws/x"));
    assert_eq!(anchor_path("a~", "/ws", &env), some("/ws/a~"));
}

#[test]
fn dot_slash_anchors_to_workspace() {
    let env = with_home("/home/u");
    assert_eq!(anchor_path("./b", "/a", &env), some("/a/b"));
    assert_eq!(anchor_path("./", "/a", &env), some("/a/"));
    assert_eq!(anchor_path(".//b", "/a", &env), some("/a/b"));
    assert_eq!(anchor_path("./../b", "/a", &env), some("/a/../b"));
}

#[test]
fn absolute_path_is_its_own_candidate() {
    let env = with_home("/home/u");
    assert_eq!(anchor_path("/ws/src", "/ws", &env), some("/ws/src"));
    assert_eq!(anchor_path("/a/./../b", "/ws", &env), some("/a/./../b"));
    assert_eq!(anchor_path("/", "/ws", &env), some("/"));
}

#[test]
fn relative_path_anchors_to_workspace() {
    let env = with_home("/home/u");
    assert_eq!(anchor_path("lib/x", "/ws", &env), some("/ws/lib/x"));
    assert_eq!(anchor_path("../x", "/ws", &env), some("/ws/../x"));
    assert_eq!(anchor_path(".", "/ws", &env), some("/ws/."));
    assert_eq!(anchor_path(".x", "/ws", &env), some("/ws/.x"));
    assert_eq!(anchor_path("", "/ws", &env), some("/ws/"));
}

#[test]
fn separator_is_added_only_where_it_is_missing() {
    let env = with_home("/home/u/");
    assert_eq!(anchor_path("x", "/ws/", &env), some("/ws/x"));
    assert_eq!(anchor_path("x", "/", &env), some("/x"));
    assert_eq!(anchor_path("x", "", &env), some("x"));
    assert_eq!(anchor_path("~x", "/ws", &env), some("/home/u/x"));
    assert_eq!(anchor_path("~/x", "/ws", &env), some("/home/u//x"));
}

#[test]
fn first_rule_that_fits_decides() {
    let env = with_home("/home/u");
    assert_eq!(anchor_path("~./x", "/ws", &env), some("/home/u/./x"));
    assert_eq!(anchor_path("./~", "/ws", &env), some("/ws/~"));
}
