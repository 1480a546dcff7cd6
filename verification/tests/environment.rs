use emmyrc_paths::Environment;

#[test]
fn new_environment_sets_nothing() {
    let env = Environment::new();
    assert_eq!(env.var("HOME"), None);
    assert_eq!(env.var(""), None);
    assert_eq!(env.home(), None);
}

#[test]
fn set_var_is_read_back() {
    let mut env = Environment::new();
    env.set_var("FOO", "bar");
    env.set_var("EMPTY", "");
    assert_eq!(env.var("FOO"), Some("bar".to_string()));
    assert_eq!(env.var("EMPTY"), Some(String::new()));
    assert_eq!(env.var("foo"), None);
    assert_eq!(env.var("FOOD"), None);
    assert_eq!(env.var("FO"), None);
}

#[test]
fn set_var_again_replaces_the_value() {
    let mut env = Environment::new();
    env.set_var("FOO", "one");
    env.set_var("BAR", "other");
    env.set_var("FOO", "two");
    assert_eq!(env.var("FOO"), Some("two".to_string()));
    assert_eq!(env.var("BAR"), Some("other".to_string()));
}

#[test]
fn set_home_is_read_back_and_leaves_variables() {
    let mut env = Environment::new();
    env.set_var("FOO", "bar");
    env.set_home("/home/u");
    assert_eq!(env.home(), Some("/home/u".to_string()));
    assert_eq!(env.var("FOO"), Some("bar".to_string()));
    env.set_home("/root");
    assert_eq!(env.home(), Some("/root".to_string()));
}

#[test]
fn home_is_no_variable() {
    let mut env = Environment::new();
    env.set_home("/home/u");
    assert_eq!(env.var("HOME"), None);
}
