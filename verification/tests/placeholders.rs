use spider_enterprise_crawler::placeholders::{replace_env_var, replace_env_vars, EnvVar};

fn env(pairs: &[(&str, &str)]) -> Vec<EnvVar> {
    pairs
        .iter()
        .map(|(n, v)| EnvVar { name: n.to_string(), value: v.to_string() })
        .collect()
}

#[test]
fn expands_known_variables() {
    let e = env(&[("USER", "alice"), ("PASS", "s3cret")]);
    assert_eq!(replace_env_vars("u=${USER} p=${PASS}", &e), "u=alice p=s3cret");
}

#[test]
fn keeps_unknown_variables() {
    let e = env(&[("USER", "alice")]);
    assert_eq!(replace_env_vars("${USER}:${MISSING}", &e), "alice:${MISSING}");
}

#[test]
fn empty_environment_changes_nothing() {
    let text = "login:\n  username: \"${LOGIN_USERNAME}\"\n  password: ${LOGIN_PASSWORD}\n";
    assert_eq!(replace_env_vars(text, &Vec::new()), text);
}

#[test]
fn text_without_placeholders_is_unchanged() {
    let e = env(&[("A", "1")]);
    assert_eq!(replace_env_vars("plain $A {A} $ { } ${} ${A-B}", &e), "plain $A {A} $ { } ${} ${A-B}");
}

#[test]
fn placeholders_are_not_rescanned() {
    let e = env(&[("A", "${B}"), ("B", "b")]);
    assert_eq!(replace_env_vars("${A}${B}", &e), "${B}b");
}

#[test]
fn first_entry_of_a_name_wins() {
    let e = env(&[("A", "first"), ("A", "second")]);
    assert_eq!(replace_env_vars("${A}", &e), "first");
}

#[test]
fn name_characters_and_neighbours() {
    let e = env(&[("a_1Z", "x")]);
    assert_eq!(replace_env_vars("$${a_1Z}}", &e), "$x}");
    assert_eq!(replace_env_vars("${a_1Z", &e), "${a_1Z");
    assert_eq!(replace_env_vars("é${a_1Z}é", &e), "éxé");
}

#[test]
fn strict_resolution_replaces_every_placeholder() {
    let e = env(&[("KEY", "k"), ("SECRET", "s")]);
    let r = replace_env_var("${KEY}/${SECRET}/${KEY}", &e).unwrap();
    assert_eq!(r, "k/s/k");
}

#[test]
fn strict_resolution_reports_first_missing_variable() {
    let e = env(&[("KEY", "k")]);
    let err = replace_env_var("${KEY}${NOPE}${ALSO_NOPE}", &e).unwrap_err();
    assert_eq!(err.name, "NOPE");
}

#[test]
fn strict_resolution_without_placeholders_is_identity() {
    let r = replace_env_var("no placeholders here", &Vec::new()).unwrap();
    assert_eq!(r, "no placeholders here");
}

#[test]
fn strict_resolution_replaces_sequentially() {
    // The value of A contains the placeholder of B, which is replaced by the
    // second replacement as well.
    let e = env(&[("A", "${B}"), ("B", "b")]);
    assert_eq!(replace_env_var("${A}${B}", &e).unwrap(), "bb");
}

#[test]
fn strict_and_lenient_agree_on_well_formed_text() {
    let e = env(&[("HOST", "db.local"), ("PORT", "5432")]);
    let text = "url=${HOST}:${PORT}/app?h=${HOST}";
    let strict = replace_env_var(text, &e).unwrap();
    assert_eq!(strict, replace_env_vars(text, &e));
    assert_eq!(strict, "url=db.local:5432/app?h=db.local");
    assert!(!strict.contains('$'));
}
