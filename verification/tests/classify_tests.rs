use template_engine::check_matching_pair;
use template_engine::get_content_type;
use template_engine::get_expression_data;
use template_engine::get_index_for_symbol;
use template_engine::get_tag_type;
use template_engine::ContentType;
use template_engine::ExpressionData;
use template_engine::TagType;
use template_engine::TemplateError;

#[test]
fn check_literal_test() {
    let input = "<h1>Hello world</h1>";
    assert_eq!(
        ContentType::Literal(input.to_string()),
        get_content_type(input).unwrap()
    );
}

#[test]
fn check_template_var_test() {
    let output = ExpressionData {
        head: "Hi ".to_string(),
        variable: "name".to_string(),
        tail: " ,welcome".to_string(),
    };
    assert_eq!(
        ContentType::TemplateVariable(output),
        get_content_type("Hi {{name}} ,welcome").unwrap(),
    );
}

#[test]
fn check_for_tag_test() {
    assert_eq!(
        ContentType::Tag(TagType::ForTag),
        get_content_type("{% for name in names %}, welcome").unwrap(),
    );
}

#[test]
fn check_if_tag_test() {
    assert_eq!(
        ContentType::Tag(TagType::IfTag),
        get_content_type("{% if name == 'Bob' %}").unwrap(),
    );
}

#[test]
fn check_matching_pair_test() {
    assert_eq!(true, check_matching_pair("{{Hello}}", "{{", "}}"));
}

#[test]
fn check_matching_pair_no_var_test() {
    assert_eq!(false, check_matching_pair("{{}}", "{{", "}}"));
}

#[test]
fn check_matching_pair_incorrect_pair_test() {
    assert_eq!(false, check_matching_pair("}}{{", "{{", "}}"));
}

#[test]
fn get_expression_data_test() {
    assert_eq!(
        ExpressionData {
            head: "Hi ".to_string(),
            variable: "name".to_string(),
            tail: " ,welcome".to_string(),
        },
        get_expression_data("Hi {{name}} ,welcome").unwrap(),
    );
}

#[test]
fn get_expression_data_error_test() {
    assert_eq!(
        Err(TemplateError::MalformedExpression),
        get_expression_data("Hi {{} ,welcome"),
    );
}

#[test]
fn get_tag_type_if_test() {
    assert_eq!(
        TagType::IfTag,
        get_tag_type("{% if name == 'Bob' %}").unwrap(),
    )
}

#[test]
fn get_tag_type_for_test() {
    assert_eq!(
        TagType::ForTag,
        get_tag_type("{% for i in (1..100) %}").unwrap(),
    )
}

#[test]
fn matching_pair_single_payload_char_test() {
    assert_eq!(true, check_matching_pair("{{x}}", "{{", "}}"));
}

#[test]
fn literal_line_kept_exactly_test() {
    assert_eq!(
        ContentType::Literal("}}{{".to_string()),
        get_content_type("}}{{").unwrap()
    );
}

#[test]
fn interpolation_precedes_tag_test() {
    assert_eq!(
        ContentType::TemplateVariable(ExpressionData {
            head: "".to_string(),
            variable: "x".to_string(),
            tail: " {% if a %}".to_string(),
        }),
        get_content_type("{{x}} {% if a %}").unwrap(),
    );
}

#[test]
fn variable_is_trimmed_test() {
    assert_eq!(
        ExpressionData {
            head: "a".to_string(),
            variable: "name".to_string(),
            tail: "b".to_string(),
        },
        get_expression_data("a{{  name  }}b").unwrap(),
    );
}

#[test]
fn empty_head_and_tail_test() {
    assert_eq!(
        ExpressionData {
            head: "".to_string(),
            variable: "x".to_string(),
            tail: "".to_string(),
        },
        get_expression_data("{{x}}").unwrap(),
    );
}

#[test]
fn round_trip_rebuilds_line_test() {
    let line = "Hi {{name}} ,welcome";
    let expr = get_expression_data(line).unwrap();
    let rebuilt = format!("{}{}{}{}{}", expr.head, "{{", expr.variable, "}}", expr.tail);
    assert_eq!(line, rebuilt);
}

#[test]
fn unknown_tag_error_test() {
    assert_eq!(
        Err(TemplateError::UnknownTag),
        get_content_type("{% while x %}"),
    );
}

#[test]
fn malformed_tag_error_test() {
    assert_eq!(Err(TemplateError::MalformedTag), get_content_type("{% x %}"));
}

#[test]
fn keyword_anywhere_in_first_four_test() {
    // The keyword test is containment in the first four trimmed characters,
    // not a prefix test.
    assert_eq!(TagType::IfTag, get_tag_type("{% x if y %}").unwrap());
}

#[test]
fn get_index_for_symbol_first_occurrence_test() {
    assert_eq!(Some(2), get_index_for_symbol("ab{{cd{{", "{{"));
}

#[test]
fn get_index_for_symbol_absent_test() {
    assert_eq!(None, get_index_for_symbol("abc", "{{"));
}
