use env_smart::format::{Format, FormatError, Part};
use env_smart::table::VariableTable;

fn table(pairs: &[(&str, &str)]) -> VariableTable {
    let mut vars = VariableTable::new();
    for (name, value) in pairs {
        vars.insert(name.to_string(), value.to_string());
    }
    vars
}

#[test]
fn empty_template_ends_at_once() {
    let vars = table(&[]);
    let mut scan = Format::new("", &vars);
    assert_eq!(scan.next(), None);
    assert_eq!(scan.next(), None);
}

#[test]
fn plain_text_is_one_part() {
    let vars = table(&[]);
    let mut scan = Format::new("hello world", &vars);
    assert_eq!(scan.next(), Some(Ok(Part::Plain("hello world"))));
    assert_eq!(scan.next(), None);
}

#[test]
fn parts_come_in_order() {
    let vars = table(&[("A", "1"), ("B", "2")]);
    let mut scan = Format::new("a{A}b{B}c", &vars);
    assert_eq!(scan.next(), Some(Ok(Part::Plain("a"))));
    assert_eq!(scan.next(), Some(Ok(Part::Argument("1"))));
    assert_eq!(scan.next(), Some(Ok(Part::Plain("b"))));
    assert_eq!(scan.next(), Some(Ok(Part::Argument("2"))));
    assert_eq!(scan.next(), Some(Ok(Part::Plain("c"))));
    assert_eq!(scan.next(), None);
}

#[test]
fn adjacent_placeholders_yield_no_plain_part_between() {
    let vars = table(&[("A", "1"), ("B", "2")]);
    let mut scan = Format::new("{A}{B}", &vars);
    assert_eq!(scan.next(), Some(Ok(Part::Argument("1"))));
    assert_eq!(scan.next(), Some(Ok(Part::Argument("2"))));
    assert_eq!(scan.next(), None);
}

#[test]
fn argument_is_the_value_not_the_name() {
    let vars = table(&[("NAME", "a value with {braces}")]);
    let mut scan = Format::new("{NAME}", &vars);
    assert_eq!(scan.next(), Some(Ok(Part::Argument("a value with {braces}"))));
    assert_eq!(scan.next(), None);
}

#[test]
fn doubled_open_is_rejected() {
    let vars = table(&[("A", "1")]);
    let mut scan = Format::new("{{A}", &vars);
    assert_eq!(scan.next(), Some(Err(FormatError::BracketEscapeInvalid(1))));
}

#[test]
fn doubled_open_is_rejected_without_a_table_entry() {
    let vars = table(&[]);
    let mut scan = Format::new("{{A}", &vars);
    assert_eq!(scan.next(), Some(Err(FormatError::BracketEscapeInvalid(1))));
}

#[test]
fn doubled_open_after_text_reports_offset_in_template() {
    let vars = table(&[("A", "1")]);
    let mut scan = Format::new("ab{{A}", &vars);
    assert_eq!(scan.next(), Some(Ok(Part::Plain("ab"))));
    assert_eq!(scan.next(), Some(Err(FormatError::BracketEscapeInvalid(3))));
}

#[test]
fn doubled_close_is_rejected() {
    let vars = table(&[("A", "1")]);
    let mut scan = Format::new("{A}}", &vars);
    assert_eq!(scan.next(), Some(Err(FormatError::BracketEscapeInvalid(2))));
}

#[test]
fn single_close_after_placeholder_is_accepted() {
    let vars = table(&[("A", "1")]);
    let mut scan = Format::new("{A}", &vars);
    assert_eq!(scan.next(), Some(Ok(Part::Argument("1"))));
    assert_eq!(scan.next(), None);
}

#[test]
fn doubled_close_after_text_reports_offset_in_template() {
    let vars = table(&[("AB", "1")]);
    let mut scan = Format::new("xy{AB}}", &vars);
    assert_eq!(scan.next(), Some(Ok(Part::Plain("xy"))));
    assert_eq!(scan.next(), Some(Err(FormatError::BracketEscapeInvalid(5))));
}

#[test]
fn unterminated_placeholder_is_rejected() {
    let vars = table(&[("A", "1")]);
    let mut scan = Format::new("{A", &vars);
    assert_eq!(scan.next(), Some(Err(FormatError::MissingClosingBracket(0))));
}

#[test]
fn unterminated_placeholder_after_parts_reports_offset_in_template() {
    let vars = table(&[("A", "1"), ("B", "2")]);
    let mut scan = Format::new("{A}{B}{", &vars);
    assert_eq!(scan.next(), Some(Ok(Part::Argument("1"))));
    assert_eq!(scan.next(), Some(Ok(Part::Argument("2"))));
    assert_eq!(scan.next(), Some(Err(FormatError::MissingClosingBracket(6))));
}

#[test]
fn lone_open_bracket_is_unterminated() {
    let vars = table(&[]);
    let mut scan = Format::new("{", &vars);
    assert_eq!(scan.next(), Some(Err(FormatError::MissingClosingBracket(0))));
}

#[test]
fn unknown_variable_is_named() {
    let vars = table(&[("A", "1")]);
    let mut scan = Format::new("{ZZZ}", &vars);
    assert_eq!(scan.next(), Some(Err(FormatError::MissingValue("ZZZ"))));
}

#[test]
fn unknown_variable_is_reported_before_a_doubled_close() {
    let vars = table(&[]);
    let mut scan = Format::new("{ZZZ}}", &vars);
    assert_eq!(scan.next(), Some(Err(FormatError::MissingValue("ZZZ"))));
}

#[test]
fn names_are_case_sensitive() {
    let vars = table(&[("name", "lower")]);
    let mut scan = Format::new("{NAME}", &vars);
    assert_eq!(scan.next(), Some(Err(FormatError::MissingValue("NAME"))));
}

#[test]
fn empty_name_is_looked_up_like_any_other() {
    let vars = table(&[("", "nothing")]);
    let mut scan = Format::new("{}", &vars);
    assert_eq!(scan.next(), Some(Ok(Part::Argument("nothing"))));
    let none = table(&[]);
    let mut scan = Format::new("{}", &none);
    assert_eq!(scan.next(), Some(Err(FormatError::MissingValue(""))));
}

#[test]
fn closing_bracket_in_plain_text_passes_through() {
    let vars = table(&[("A", "1")]);
    let mut scan = Format::new("a}b{A}c}", &vars);
    assert_eq!(scan.next(), Some(Ok(Part::Plain("a}b"))));
    assert_eq!(scan.next(), Some(Ok(Part::Argument("1"))));
    assert_eq!(scan.next(), Some(Ok(Part::Plain("c}"))));
    assert_eq!(scan.next(), None);
}

#[test]
fn open_bracket_inside_a_name_belongs_to_the_name() {
    let vars = table(&[("a{b", "1")]);
    let mut scan = Format::new("{a{b}", &vars);
    assert_eq!(scan.next(), Some(Ok(Part::Argument("1"))));
    assert_eq!(scan.next(), None);
}

#[test]
fn offsets_count_characters() {
    let vars = table(&[("é", "e")]);
    let mut scan = Format::new("äö{é}ü{", &vars);
    assert_eq!(scan.next(), Some(Ok(Part::Plain("äö"))));
    assert_eq!(scan.next(), Some(Ok(Part::Argument("e"))));
    assert_eq!(scan.next(), Some(Ok(Part::Plain("ü"))));
    assert_eq!(scan.next(), Some(Err(FormatError::MissingClosingBracket(6))));
}

#[test]
fn doubled_close_offset_counts_characters_of_the_name() {
    let vars = table(&[("äöü", "x")]);
    let mut scan = Format::new("{äöü}}", &vars);
    assert_eq!(scan.next(), Some(Err(FormatError::BracketEscapeInvalid(4))));
}

#[test]
fn an_error_leaves_the_cursor_in_place() {
    let vars = table(&[]);
    let mut scan = Format::new("ab{ZZZ}", &vars);
    assert_eq!(scan.next(), Some(Ok(Part::Plain("ab"))));
    assert_eq!(scan.next(), Some(Err(FormatError::MissingValue("ZZZ"))));
    assert_eq!(scan.next(), Some(Err(FormatError::MissingValue("ZZZ"))));
}

#[test]
fn missing_value_message() {
    assert_eq!(FormatError::MissingValue("ZZZ").message(), "env:ZZZ: missing value");
}

#[test]
fn missing_bracket_message() {
    assert_eq!(FormatError::MissingClosingBracket(0).message(), "Missing bracket at position 0");
    assert_eq!(FormatError::MissingClosingBracket(7).message(), "Missing bracket at position 7");
}

#[test]
fn bracket_escape_message() {
    assert_eq!(
        FormatError::BracketEscapeInvalid(1).message(),
        "Unsupported bracket escape at position 1"
    );
    assert_eq!(
        FormatError::BracketEscapeInvalid(1203).message(),
        "Unsupported bracket escape at position 1203"
    );
    assert_eq!(
        FormatError::BracketEscapeInvalid(10).message(),
        "Unsupported bracket escape at position 10"
    );
}

#[test]
fn largest_offset_message() {
    assert_eq!(
        FormatError::MissingClosingBracket(usize::MAX).message(),
        format!("Missing bracket at position {}", usize::MAX)
    );
}

#[test]
fn table_lookup() {
    let mut vars = VariableTable::new();
    assert!(!vars.contains_key("A"));
    assert_eq!(vars.get("A"), None);
    vars.insert("A".to_string(), "1".to_string());
    assert!(vars.contains_key("A"));
    assert_eq!(vars.get("A"), Some("1"));
    vars.insert("A".to_string(), "2".to_string());
    assert_eq!(vars.get("A"), Some("2"));
    assert_eq!(vars.get("a"), None);
}
