//! A line-oriented template engine core.
//!
//! Each input line is classified as plain literal text, a variable
//! interpolation (`{{ name }}`), or a control tag (`{% if ... %}`,
//! `{% for ... %}`), and interpolations are rendered against a
//! caller-supplied variable context.

pub mod context;
pub mod engine;
pub mod scan;

pub use crate::context::Context;
pub use crate::engine::check_matching_pair;
pub use crate::engine::generate_html_template_var;
pub use crate::engine::get_content_type;
pub use crate::engine::get_expression_data;
pub use crate::engine::get_tag_type;
pub use crate::engine::ContentType;
pub use crate::engine::ExpressionData;
pub use crate::engine::TagType;
pub use crate::engine::TemplateError;
pub use crate::scan::get_index_for_symbol;
