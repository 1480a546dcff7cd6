use emmyrc_paths::pre_process_path;
use emmyrc_paths::process_and_dedup;
use emmyrc_paths::Emmyrc;
use emmyrc_paths::Environment;

fn sample() -> Environment {
    let mut env = Environment::new();
    env.set_var("FOO", "bar");
    env.set_var("UP", "..");
    env.set_var("DOLLAR", "a$b");
    env.set_var("NESTED", "$FOO");
    env.set_var("TILDE", "~");
    env.set_home("/home/u");
    env
}

fn list(entries: &[&str]) -> Vec<String> {
    entries.iter().map(|e| e.to_string()).collect()
}

#[test]
fn workspace_folder_placeholder_is_anchored_and_normalized() {
    let env = Environment::new();
    assert_eq!(pre_process_path("{workspaceFolder}/src", Some("/ws"), &env), "/ws/src");
}

#[test]
fn unset_variable_resolves_to_nothing() {
    let env = Environment::new();
    assert_eq!(pre_process_path("$MISSING/x", Some("/ws"), &env), "/x");
}

#[test]
fn dedup_keeps_first_of_equal_results() {
    let env = Environment::new();
    let entries = list(&["/a/b", "./b", "/a/b"]);
    assert_eq!(process_and_dedup(&entries, Some("/a"), &env), list(&["/a/b"]));
}

#[test]
fn resolve_relative_path_under_workspace() {
    let env = sample();
    assert_eq!(pre_process_path("lib", Some("/ws"), &env), "/ws/lib");
    assert_eq!(pre_process_path("./lib/../src/.", Some("/ws"), &env), "/ws/src");
    assert_eq!(pre_process_path("../lib", Some("/ws/project"), &env), "/ws/lib");
    assert_eq!(pre_process_path("../../../lib", Some("/ws"), &env), "/lib");
    assert_eq!(pre_process_path("", Some("/ws"), &env), "/ws");
}

#[test]
fn resolve_absolute_path_is_only_normalized() {
    let env = sample();
    assert_eq!(pre_process_path("/usr/./lib/../share", Some("/ws"), &env), "/usr/share");
}

#[test]
fn resolve_home_path() {
    let env = sample();
    assert_eq!(pre_process_path("~/.config/lua", Some("/ws"), &env), "/home/u/.config/lua");
    assert_eq!(pre_process_path("~", Some("/ws"), &env), "/home/u");
    assert_eq!(pre_process_path("~/../v", Some("/ws"), &env), "/home/v");
}

#[test]
fn resolve_home_path_without_home_stays_as_expanded() {
    let mut env = Environment::new();
    env.set_var("FOO", "bar");
    assert_eq!(pre_process_path("~/$FOO/../{env:FOO}/.", Some("/ws"), &env), "~/bar/../bar/.");
}

#[test]
fn resolve_replaces_variables_then_placeholders() {
    let env = sample();
    assert_eq!(pre_process_path("$FOO/{env:FOO}", Some("/ws"), &env), "/ws/bar/bar");
    assert_eq!(pre_process_path("${workspaceFolder}/lib", Some("/ws"), &env), "/ws/lib");
    assert_eq!(pre_process_path("{workspaceFolder}/$UP/x", Some("/ws/p"), &env), "/ws/x");
}

#[test]
fn resolve_strips_every_dollar_left_by_the_first_pass() {
    let env = sample();
    assert_eq!(pre_process_path("a$/b$$-c", Some("/ws"), &env), "/ws/a/b-c");
    assert_eq!(pre_process_path("a$/b$$c", Some("/ws"), &env), "/ws/a/b");
    assert_eq!(pre_process_path("$DOLLAR", Some("/ws"), &env), "/ws/ab");
    assert_eq!(pre_process_path("$NESTED", Some("/ws"), &env), "/ws/FOO");
}

#[test]
fn resolve_does_not_read_a_placeholder_value_for_dollars() {
    let env = sample();
    assert_eq!(pre_process_path("{env:NESTED}/x", Some("/ws"), &env), "/ws/$FOO/x");
    assert_eq!(pre_process_path("{env:DOLLAR}", Some("/ws"), &env), "/ws/a$b");
}

#[test]
fn resolve_anchors_what_the_expansion_gave() {
    let env = sample();
    assert_eq!(pre_process_path("$TILDE/x", Some("/ws"), &env), "/home/u/x");
    assert_eq!(pre_process_path("{env:TILDE}/x", Some("/ws"), &env), "/home/u/x");
    assert_eq!(pre_process_path("{workspaceFolder}", Some("rel"), &env), "rel/rel");
}

#[test]
fn resolve_leaves_unknown_placeholder_in_the_path() {
    let env = sample();
    assert_eq!(pre_process_path("{other}/../x/{y}", Some("/ws"), &env), "/ws/x/{y}");
}

#[test]
fn resolve_under_root_without_text_only_expands_variables() {
    let env = sample();
    assert_eq!(
        pre_process_path("$FOO/{workspaceFolder}/./x/$", None, &env),
        "bar/{workspaceFolder}/./x/"
    );
    assert_eq!(pre_process_path("~/a/../b", None, &env), "~/a/../b");
}

#[test]
fn resolved_path_resolves_to_itself() {
    let env = sample();
    let paths = ["lib", "./lib/../src", "~/x", "/usr/../lib", "$FOO/{env:FOO}", "../.."];
    for path in paths {
        let once = pre_process_path(path, Some("/ws"), &env);
        assert!(once.starts_with('/'));
        assert_eq!(pre_process_path(&once, Some("/ws"), &env), once);
    }
}

#[test]
fn dedup_keeps_the_order_of_first_occurrence() {
    let env = sample();
    let entries = list(&["b", "a", "./b", "c", "a", "/ws/c/../a", "d/.."]);
    assert_eq!(
        process_and_dedup(&entries, Some("/ws"), &env),
        list(&["/ws/b", "/ws/a", "/ws/c", "/ws"])
    );
}

#[test]
fn dedup_compares_resolved_paths() {
    let env = sample();
    let entries = list(&["$FOO", "bar", "{env:FOO}", "./bar", "BAR"]);
    assert_eq!(process_and_dedup(&entries, Some("/ws"), &env), list(&["/ws/bar", "/ws/BAR"]));
}

#[test]
fn dedup_of_nothing_is_nothing() {
    let env = sample();
    assert_eq!(process_and_dedup(&Vec::new(), Some("/ws"), &env), Vec::<String>::new());
}

#[test]
fn dedup_under_root_without_text() {
    let env = sample();
    let entries = list(&["$FOO", "bar", "./bar", "bar$"]);
    assert_eq!(process_and_dedup(&entries, None, &env), list(&["bar", "./bar"]));
}

#[test]
fn pre_process_emmyrc_resolves_the_four_lists() {
    let env = sample();
    let mut emmyrc = Emmyrc::default();
    emmyrc.workspace.workspace_roots = list(&["src", "./src", "{workspaceFolder}/test"]);
    emmyrc.workspace.library = list(&["~/lua", "$FOO/lib", "/usr/share/lua/"]);
    emmyrc.workspace.ignore_dir = list(&["build/../out", "out"]);
    emmyrc.resource.paths = list(&["{env:FOO}", "res/./img", "bar"]);
    emmyrc.pre_process_emmyrc(Some("/ws"), &env);
    assert_eq!(emmyrc.workspace.workspace_roots, list(&["/ws/src", "/ws/test"]));
    assert_eq!(
        emmyrc.workspace.library,
        list(&["/home/u/lua", "/ws/bar/lib", "/usr/share/lua"])
    );
    assert_eq!(emmyrc.workspace.ignore_dir, list(&["/ws/out"]));
    assert_eq!(emmyrc.resource.paths, list(&["/ws/bar", "/ws/res/img"]));
}

#[test]
fn pre_process_emmyrc_twice_changes_nothing_more() {
    let env = sample();
    let mut emmyrc = Emmyrc::default();
    emmyrc.workspace.library = list(&["~/lua", "$FOO/lib", "lib/../$FOO/lib"]);
    emmyrc.pre_process_emmyrc(Some("/ws"), &env);
    let once = emmyrc.workspace.library.clone();
    emmyrc.pre_process_emmyrc(Some("/ws"), &env);
    assert_eq!(emmyrc.workspace.library, once);
    assert_eq!(once, list(&["/home/u/lua", "/ws/bar/lib"]));
}

#[test]
fn default_emmyrc_has_empty_lists() {
    let mut emmyrc = Emmyrc::default();
    assert!(emmyrc.workspace.workspace_roots.is_empty());
    assert!(emmyrc.workspace.library.is_empty());
    assert!(emmyrc.workspace.ignore_dir.is_empty());
    assert!(emmyrc.resource.paths.is_empty());
    emmyrc.pre_process_emmyrc(Some("/ws"), &Environment::new());
    assert!(emmyrc.workspace.workspace_roots.is_empty());
    assert!(emmyrc.resource.paths.is_empty());
}
