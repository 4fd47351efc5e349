use env_smart::format::FormatError;
use env_smart::loader::{read_envs, Line, LoadError, Source};
use env_smart::render::{
    render, render_loaded, resolve, shorthand, Failure, Rendered, ResolutionError,
};
use env_smart::table::VariableTable;

fn table(pairs: &[(&str, &str)]) -> VariableTable {
    let mut vars = VariableTable::new();
    for (name, value) in pairs {
        vars.insert(name.to_string(), value.to_string());
    }
    vars
}

#[test]
fn bare_name_is_looked_up_in_the_environment() {
    let vars = table(&[]);
    let env = table(&[("PWD", "/x")]);
    assert_eq!(resolve("PWD", &vars, &env), Ok("/x".to_string()));
}

#[test]
fn bare_name_renders_to_itself() {
    let vars = table(&[("PWD", "from the table")]);
    assert_eq!(render("PWD", &vars), Ok(Rendered::BareName("PWD".to_string())));
}

#[test]
fn bare_name_missing_from_the_environment_fails() {
    let vars = table(&[]);
    let env = table(&[("PWD", "/x")]);
    assert_eq!(
        resolve("NOPE", &vars, &env),
        Err(ResolutionError::BareNameNotFound("NOPE".to_string()))
    );
}

#[test]
fn bare_name_does_not_consult_the_table() {
    let vars = table(&[("FOO", "bar")]);
    let env = table(&[]);
    assert_eq!(
        resolve("FOO", &vars, &env),
        Err(ResolutionError::BareNameNotFound("FOO".to_string()))
    );
    assert_eq!(resolve("{FOO}", &vars, &env), Ok("bar".to_string()));
}

#[test]
fn bare_name_prefers_nothing_over_the_table() {
    let vars = table(&[("FOO", "file")]);
    let env = table(&[("FOO", "live")]);
    assert_eq!(resolve("FOO", &vars, &env), Ok("live".to_string()));
    assert_eq!(resolve("{FOO}", &vars, &env), Ok("file".to_string()));
}

#[test]
fn empty_template_is_an_empty_bare_name() {
    let vars = table(&[]);
    let env = table(&[]);
    assert_eq!(render("", &vars), Ok(Rendered::BareName(String::new())));
    assert_eq!(
        resolve("", &vars, &env),
        Err(ResolutionError::BareNameNotFound(String::new()))
    );
}

#[test]
fn text_with_a_closing_bracket_only_is_a_bare_name() {
    let vars = table(&[]);
    assert_eq!(render("a}b", &vars), Ok(Rendered::BareName("a}b".to_string())));
}

#[test]
fn single_placeholder_resolves_to_the_value_alone() {
    let vars = table(&[("A", "the value")]);
    let env = table(&[]);
    assert_eq!(resolve("{A}", &vars, &env), Ok("the value".to_string()));
    assert_eq!(render("{A}", &vars), Ok(Rendered::Text("the value".to_string())));
}

#[test]
fn placeholder_with_an_empty_value_is_no_bare_name() {
    let vars = table(&[("A", "")]);
    let env = table(&[]);
    assert_eq!(render("{A}", &vars), Ok(Rendered::Text(String::new())));
    assert_eq!(resolve("{A}", &vars, &env), Ok(String::new()));
}

#[test]
fn parts_are_concatenated() {
    let vars = table(&[("A", "1"), ("B", "2")]);
    let env = table(&[]);
    assert_eq!(resolve("a{A}b{B}c", &vars, &env), Ok("a1b2c".to_string()));
}

#[test]
fn values_are_not_scanned_again() {
    let vars = table(&[("A", "{B}"), ("B", "2")]);
    let env = table(&[]);
    assert_eq!(resolve("{A}", &vars, &env), Ok("{B}".to_string()));
}

#[test]
fn doubled_open_fails_resolution() {
    let with = table(&[("A", "1")]);
    let without = table(&[]);
    let env = table(&[("{{A}", "live")]);
    let expected = Err(ResolutionError::Format(FormatError::BracketEscapeInvalid(1)));
    assert_eq!(resolve("{{A}", &with, &env), expected);
    assert_eq!(resolve("{{A}", &without, &env), expected);
}

#[test]
fn doubled_close_fails_resolution() {
    let vars = table(&[("A", "1")]);
    let env = table(&[]);
    assert_eq!(
        resolve("{A}}", &vars, &env),
        Err(ResolutionError::Format(FormatError::BracketEscapeInvalid(2)))
    );
    assert_eq!(resolve("{A}", &vars, &env), Ok("1".to_string()));
}

#[test]
fn unterminated_placeholder_fails_resolution() {
    let with = table(&[("A", "1")]);
    let without = table(&[]);
    let env = table(&[]);
    let expected = Err(ResolutionError::Format(FormatError::MissingClosingBracket(0)));
    assert_eq!(resolve("{A", &with, &env), expected);
    assert_eq!(resolve("{A", &without, &env), expected);
}

#[test]
fn unknown_variable_fails_resolution() {
    let vars = table(&[("A", "1")]);
    let env = table(&[("ZZZ", "live")]);
    assert_eq!(
        resolve("{ZZZ}", &vars, &env),
        Err(ResolutionError::Format(FormatError::MissingValue("ZZZ")))
    );
}

#[test]
fn an_error_gives_no_partial_output() {
    let vars = table(&[("A", "1")]);
    assert_eq!(render("a{A}b{B}c", &vars), Err(FormatError::MissingValue("B")));
    assert_eq!(render("a{A}b{", &vars), Err(FormatError::MissingClosingBracket(5)));
}

#[test]
fn shorthand_takes_the_value() {
    assert_eq!(
        shorthand("PWD".to_string(), Some("/x".to_string())),
        Ok("/x".to_string())
    );
}

#[test]
fn shorthand_without_a_value_names_the_variable() {
    assert_eq!(
        shorthand("PWD".to_string(), None),
        Err(ResolutionError::BareNameNotFound("PWD".to_string()))
    );
}

#[test]
fn file_and_environment_resolve_together() {
    let source = Source::Lines(vec![Line::Text("FOO=bar".to_string())]);
    let env = vec![("BAZ".to_string(), "qux".to_string())];
    let vars = match read_envs(&source, &env) {
        Ok(vars) => vars,
        Err(error) => panic!("{:?}", error),
    };
    let live = table(&[("BAZ", "qux")]);
    assert_eq!(resolve("{FOO}-{BAZ}", &vars, &live), Ok("bar-qux".to_string()));
}

#[test]
fn resolution_messages() {
    assert_eq!(
        ResolutionError::Format(FormatError::MissingValue("ZZZ")).message(),
        "Format string error env:ZZZ: missing value"
    );
    assert_eq!(
        ResolutionError::Format(FormatError::MissingClosingBracket(12)).message(),
        "Format string error Missing bracket at position 12"
    );
    assert_eq!(
        ResolutionError::BareNameNotFound("PWD".to_string()).message(),
        "env:PWD: Cannot fetch env value"
    );
}

#[test]
fn load_failure_ends_any_rendering() {
    let source = Source::Lines(vec![
        Line::Text("FOO=1".to_string()),
        Line::Text("FOO=1".to_string()),
    ]);
    let loaded = read_envs(&source, &vec![("BAZ".to_string(), "qux".to_string())]);
    let error = LoadError::SourceDuplicateKey("FOO".to_string());
    assert_eq!(render_loaded("{FOO}", &loaded), Err(Failure::Load(&error)));
    assert_eq!(render_loaded("{BAZ}", &loaded), Err(Failure::Load(&error)));
    assert_eq!(render_loaded("PWD", &loaded), Err(Failure::Load(&error)));
    assert_eq!(render_loaded("{{", &loaded), Err(Failure::Load(&error)));
    assert_eq!(render_loaded("", &loaded), Err(Failure::Load(&error)));
}

#[test]
fn loaded_table_is_rendered_against() {
    let source = Source::Lines(vec![Line::Text("FOO=bar".to_string())]);
    let loaded = read_envs(&source, &vec![("BAZ".to_string(), "qux".to_string())]);
    assert_eq!(
        render_loaded("{FOO}-{BAZ}", &loaded),
        Ok(Rendered::Text("bar-qux".to_string()))
    );
    assert_eq!(render_loaded("FOO", &loaded), Ok(Rendered::BareName("FOO".to_string())));
    assert_eq!(
        render_loaded("{ZZZ}", &loaded),
        Err(Failure::Format(FormatError::MissingValue("ZZZ")))
    );
    assert_eq!(
        render_loaded("{FOO}}", &loaded),
        Err(Failure::Format(FormatError::BracketEscapeInvalid(4)))
    );
}

#[test]
fn failure_messages() {
    let error = LoadError::SourceDuplicateKey("FOO".to_string());
    assert_eq!(
        Failure::Load(&error).message(),
        ".env file has multiple instances of 'FOO'"
    );
    assert_eq!(
        Failure::Format(FormatError::BracketEscapeInvalid(4)).message(),
        "Format string error Unsupported bracket escape at position 4"
    );
}
