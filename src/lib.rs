//! Nested string templates: a body with `{name}` placeholders, expanded by
//! rendering named child templates in their place.

mod error;
mod template;
mod tokenizer;

pub use error::{decimal, digit, message_text, Failure, ParseError};
pub use template::{
    brace_free, expand, lemma_plain_body, lemma_plain_render, lookup, prefix_text, rendered,
    NestedTemplate,
};
pub use tokenizer::{
    around, find_char, find_pair, is_first, is_first_pair, offset, pair_at, prepend, render_helper,
    segments, trimmed,
};
