//! Parser for a small markup dialect of `define` and `call` instructions,
//! producing a typed syntax tree of statements and values.
//!
//! A literal is read by [`parse_literal`]; a document by
//! [`parse_xml_string`], which tokenizes it with xml-rs and reads the events
//! with [`parse_events`]. Each function's result is stated over the models
//! of its inputs: [`Value::model`], [`Statements::model`],
//! [`ParseError::model`] and [`MarkupEvent::model`].

mod ast;
mod document;
mod error;
mod literal;
mod markup;

pub use ast::{statements_model, values_model, StatementModel, Statements, Value, ValueModel};
pub use document::{
    arg_spec, call_args_spec, call_spec, close_spec, define_spec, document_spec, grammar_error,
    lemma_blank_text_is_empty, lemma_parse_deterministic, lemma_unsupported_top_element,
    lemma_wrong_close_in_call, name_attribute, outcome_model, parse_arg, parse_call, parse_events,
    parse_xml_string, text_spec, top_spec, word_arg, word_call, word_define, word_name,
};
pub use error::{ErrorModel, ParseError, StructuralError, StructuralKind};
pub use literal::{
    all_alphabetic, all_digits, alphabetic, digit_run_end, digits_value, exponent_from,
    float_syntax, is_digit, is_sign, literal_items, literal_spec, parse_literal, skip_sign,
    split_commas, trimmed, LiteralError,
};
pub use markup::{events_model, markup_events, Attribute, EventModel, MarkupEvent};
