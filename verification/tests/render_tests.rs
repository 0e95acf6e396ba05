use template_engine::generate_html_template_var;
use template_engine::Context;
use template_engine::ExpressionData;
use template_engine::TemplateError;

fn sample_expression() -> ExpressionData {
    ExpressionData {
        head: "Hi ".to_string(),
        variable: "name".to_string(),
        tail: " ,welcome".to_string(),
    }
}

#[test]
fn render_substitutes_value_test() {
    let mut context = Context::new();
    context.insert("name".to_string(), "Bob".to_string());
    assert_eq!(
        Ok("Hi Bob ,welcome".to_string()),
        generate_html_template_var(sample_expression(), &context),
    );
}

#[test]
fn render_missing_variable_test() {
    let mut context = Context::new();
    context.insert("city".to_string(), "Oskemen".to_string());
    assert_eq!(
        Err(TemplateError::MissingVariable),
        generate_html_template_var(sample_expression(), &context),
    );
}

#[test]
fn render_empty_context_test() {
    let context = Context::new();
    assert_eq!(
        Err(TemplateError::MissingVariable),
        generate_html_template_var(sample_expression(), &context),
    );
}

#[test]
fn render_empty_head_and_tail_test() {
    let mut context = Context::new();
    context.insert("city".to_string(), "Oskemen".to_string());
    let expr = ExpressionData {
        head: "".to_string(),
        variable: "city".to_string(),
        tail: "".to_string(),
    };
    assert_eq!(
        Ok("Oskemen".to_string()),
        generate_html_template_var(expr, &context),
    );
}

#[test]
fn render_latest_binding_wins_test() {
    let mut context = Context::new();
    context.insert("name".to_string(), "Bob".to_string());
    context.insert("name".to_string(), "Alice".to_string());
    assert_eq!(
        Ok("Hi Alice ,welcome".to_string()),
        generate_html_template_var(sample_expression(), &context),
    );
}

#[test]
fn context_lookup_test() {
    let mut context = Context::new();
    context.insert("name".to_string(), "Bob".to_string());
    assert_eq!(Some(&"Bob".to_string()), context.get("name"));
    assert_eq!(None, context.get("city"));
    assert!(context.contains_key("name"));
    assert!(!context.contains_key("city"));
}
