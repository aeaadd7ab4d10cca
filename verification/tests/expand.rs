use plugin_host::expand::{expand_env_vars, lookup_variable};

fn env(items: &[(&str, &str)]) -> Vec<(String, String)> {
    items.iter().map(|(k, v)| (k.to_string(), v.to_string())).collect()
}

fn expand(path: &str, vars: &[(&str, &str)]) -> (String, String) {
    expand_env_vars(path, &env(vars))
}

fn pair(a: &str, b: &str) -> (String, String) {
    (a.to_string(), b.to_string())
}

/// The same expansion written with a regular expression.
fn expand_by_regex(path: &str, vars: &Vec<(String, String)>) -> (String, String) {
    let re = regex::Regex::new(r"\$([A-Za-z_][A-Za-z0-9_]*)").unwrap();
    let expanded = re.replace_all(path, |caps: &regex::Captures| {
        let name = &caps[1];
        match vars.iter().find(|(k, _)| k == name) {
            Some((_, v)) => v.clone(),
            None => caps[0].to_string(),
        }
    });
    let removed = re.replace_all(path, |caps: &regex::Captures| caps[1].to_string());
    (expanded.to_string(), removed.to_string())
}

#[test]
fn expand_set_variable_is_substituted() {
    assert_eq!(
        expand("$HOME/.config", &[("HOME", "/users/u")]),
        pair("/users/u/.config", "HOME/.config")
    );
}

#[test]
fn expand_unset_variable_passes_through() {
    let out = expand("$HOME/x", &[]);
    assert_eq!(out.0, "$HOME/x");
    assert_eq!(out.1, "HOME/x");
    let out = expand("$HOME/x", &[("HOMEX", "no"), ("home", "no")]);
    assert_eq!(out.0, "$HOME/x");
}

#[test]
fn expand_plain_path_is_unchanged() {
    assert_eq!(expand("/usr/share/data", &[("HOME", "/h")]), pair("/usr/share/data", "/usr/share/data"));
    assert_eq!(expand("", &[("HOME", "/h")]), pair("", ""));
}

#[test]
fn expand_sanitized_form_is_a_fixed_point() {
    let vars = env(&[("HOME", "/users/u"), ("X", "y")]);
    for path in ["$HOME/.config", "a/$X/b/$Y", "/plain", "$A$B", "x$"].iter() {
        let sanitized = expand_env_vars(path, &vars).1;
        assert!(!sanitized.contains('$') || sanitized.ends_with('$'));
        let again = expand_env_vars(&sanitized, &vars);
        assert_eq!(again.1, sanitized);
        assert_eq!(again.0, sanitized);
    }
}

#[test]
fn expand_name_takes_every_name_character() {
    assert_eq!(expand("$HOME_DIR/x", &[("HOME", "/h"), ("HOME_DIR", "/d")]), pair("/d/x", "HOME_DIR/x"));
    assert_eq!(expand("$A1b_2-c", &[("A1b_2", "v")]), pair("v-c", "A1b_2-c"));
    assert_eq!(expand("$_", &[("_", "u")]), pair("u", "_"));
    assert_eq!(expand("$_x9", &[("_x9", "u")]), pair("u", "_x9"));
}

#[test]
fn expand_dollar_without_name_is_literal() {
    assert_eq!(expand("$", &[("", "x")]), pair("$", "$"));
    assert_eq!(expand("a$", &[]), pair("a$", "a$"));
    assert_eq!(expand("$1abc", &[("1abc", "x")]), pair("$1abc", "$1abc"));
    assert_eq!(expand("${HOME}", &[("HOME", "/h")]), pair("${HOME}", "${HOME}"));
    assert_eq!(expand("$ HOME", &[("HOME", "/h")]), pair("$ HOME", "$ HOME"));
    assert_eq!(expand("$é", &[("é", "x")]), pair("$é", "$é"));
}

#[test]
fn expand_double_dollar() {
    assert_eq!(expand("$$HOME", &[("HOME", "/h")]), pair("$/h", "$HOME"));
    assert_eq!(expand("$$", &[]), pair("$$", "$$"));
}

#[test]
fn expand_adjacent_and_repeated_variables() {
    assert_eq!(expand("$A$B", &[("A", "1"), ("B", "2")]), pair("12", "AB"));
    assert_eq!(expand("$A/$A/$B", &[("A", "1")]), pair("1/1/$B", "A/A/B"));
    assert_eq!(expand("x$A", &[("A", "")]), pair("x", "xA"));
}

#[test]
fn expand_value_is_not_expanded_again() {
    assert_eq!(expand("$A", &[("A", "$B"), ("B", "no")]), pair("$B", "A"));
}

#[test]
fn expand_keeps_other_characters() {
    assert_eq!(expand("日本/$HOME/é", &[("HOME", "家")]), pair("日本/家/é", "日本/HOME/é"));
    assert_eq!(expand("C:\\$USER\\x y", &[("USER", "u")]), pair("C:\\u\\x y", "C:\\USER\\x y"));
}

#[test]
fn expand_first_pair_with_the_name_counts() {
    assert_eq!(expand("$A", &[("A", "first"), ("A", "second")]).0, "first");
}

#[test]
fn expand_agrees_with_the_regular_expression() {
    let vars = env(&[("HOME", "/users/u"), ("A", "1"), ("_", "under"), ("EMPTY", ""), ("B2", "$A")]);
    let paths = [
        "", "$", "$$", "$HOME", "$HOME/.config", "a$HOME", "$HOMEx", "$HOME$A", "$$HOME", "$1", "$_",
        "$_/$A/$B2/$EMPTY.", "${HOME}", "$ A", "x$", "日本$A語", "$é$A", "$A-$a", "no variables", "$B2$",
        "$$$A$$", "$A$A$A", "/$Z/$HOME/$Z9_/$", "$0A", "A$", "$__a__",
    ];
    for path in paths.iter() {
        assert_eq!(expand_env_vars(path, &vars), expand_by_regex(path, &vars), "path {:?}", path);
        assert_eq!(expand_env_vars(path, &Vec::new()), expand_by_regex(path, &Vec::new()), "path {:?}", path);
    }
}

#[test]
fn lookup_variable_finds_the_first_pair() {
    let vars = env(&[("A", "1"), ("B", "2"), ("A", "3")]);
    assert_eq!(lookup_variable(&vars, "A"), Some(&"1".to_string()));
    assert_eq!(lookup_variable(&vars, "B"), Some(&"2".to_string()));
    assert_eq!(lookup_variable(&vars, "C"), None);
    assert_eq!(lookup_variable(&vars, ""), None);
    assert_eq!(lookup_variable(&Vec::new(), "A"), None);
}
