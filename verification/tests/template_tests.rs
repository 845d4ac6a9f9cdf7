use nansi::template::{compile_arg, EnvMap, TemplateError};

fn env_with(pairs: &[(&str, &str)]) -> EnvMap {
    let mut env = EnvMap::new();
    for (k, v) in pairs {
        env = env.insert(k.to_string(), v.to_string());
    }
    env
}

#[test]
fn compile_arg_envvar_test() {
    let arg = String::from("cat Cargo.toml | grep \"version = \\\"${TEST}\\\"\"");
    let env = env_with(&[("TEST", "XYZ")]);

    let compiled_arg = compile_arg(&arg, &env).unwrap();
    assert_eq!(
        compiled_arg.as_str(),
        "cat Cargo.toml | grep \"version = \\\"${TEST}\\\"\""
    );
}

#[test]
fn compile_arg_var_test() {
    let arg = String::from("cat Cargo.toml | grep \"version = \\\"{TEST}\\\"\"");
    let env = env_with(&[("TEST", "XYZ")]);

    let compiled_arg = compile_arg(&arg, &env).unwrap();
    assert_eq!(
        compiled_arg.as_str(),
        "cat Cargo.toml | grep \"version = \\\"XYZ\\\"\""
    );
}

#[test]
fn reference_resolves_to_environment_value() {
    let env = env_with(&[("TEST", "XYZ")]);
    let out = compile_arg(&String::from("{TEST}"), &env).unwrap();
    assert_eq!(out.as_str(), "XYZ");
}

#[test]
fn backslash_escaped_brace_is_literal() {
    let env = env_with(&[("TEST", "XYZ")]);
    let out = compile_arg(&String::from("\\{TEST}"), &env).unwrap();
    assert_eq!(out.as_str(), "\\{TEST}");
}

#[test]
fn dollar_escaped_brace_is_literal() {
    let env = env_with(&[("TEST", "XYZ")]);
    let out = compile_arg(&String::from("${TEST}"), &env).unwrap();
    assert_eq!(out.as_str(), "${TEST}");
}

#[test]
fn argument_without_references_is_unchanged() {
    let env = env_with(&[("TEST", "XYZ")]);
    let out = compile_arg(&String::from("plain text, no braces"), &env).unwrap();
    assert_eq!(out.as_str(), "plain text, no braces");
}

#[test]
fn undefined_variable_is_an_error() {
    let env = EnvMap::new();
    let err = compile_arg(&String::from("a {NOPE} b"), &env).unwrap_err();
    match err {
        TemplateError::UndefinedVariable { name } => assert_eq!(name.as_str(), "NOPE"),
        other => panic!("expected an undefined-variable error, got {:?}", other),
    }
}

#[test]
fn nested_open_brace_is_an_error() {
    let env = env_with(&[("a", "1"), ("b", "2")]);
    let err = compile_arg(&String::from("{a{b}"), &env).unwrap_err();
    assert!(matches!(err, TemplateError::UnbalancedBraces));
}

#[test]
fn unclosed_reference_is_dropped() {
    let env = EnvMap::new();
    let out = compile_arg(&String::from("tail {UNCLOSED"), &env).unwrap();
    assert_eq!(out.as_str(), "tail {UNCLOSED");
}

#[test]
fn replacement_is_textual_and_global() {
    // The replacement pass is a literal substring replacement over the whole
    // argument, so it also rewrites an occurrence whose brace was escaped.
    let env = env_with(&[("TEST", "XYZ")]);
    let out = compile_arg(&String::from("\\{TEST} {TEST}"), &env).unwrap();
    assert_eq!(out.as_str(), "\\XYZ XYZ");
}

#[test]
fn later_replacement_can_match_inserted_text() {
    // The two-pass design first collects every reference name and then
    // replaces them in order, so text inserted by one replacement can be
    // matched by a later, textually identical reference.
    let env = env_with(&[("A", "x{B}"), ("B", "y")]);
    let out = compile_arg(&String::from("{A} {B}"), &env).unwrap();
    assert_eq!(out.as_str(), "xy y");
}

#[test]
fn empty_reference_name_is_looked_up() {
    let env = env_with(&[("", "V")]);
    let out = compile_arg(&String::from("a{}b"), &env).unwrap();
    assert_eq!(out.as_str(), "aVb");
}

#[test]
fn env_map_lookup_first_match_wins() {
    let env = env_with(&[("A", "first"), ("A", "second")]);
    assert_eq!(env.get(&String::from("A")).unwrap().as_str(), "first");
    assert!(env.get(&String::from("B")).is_none());
}
