//! Lexical front end for a small class-based teaching language.
//!
//! [`clean`] strips comments and collapses whitespace while leaving string
//! literals untouched; [`tokenize`] turns text into keywords, identifiers,
//! symbols, string constants and integer constants; [`annotate`] splits text
//! into comment, string, whitespace and plain segments. Each is stated
//! against a specification function over character sequences, and `laws`
//! proves how they fit together.

mod annotator;
mod cleaner;
mod laws;
mod lexicon;
mod text;
mod tokenizer;

pub use annotator::{
    annotate, annotate_spec, joined, lemma_annotate_covers, segments_from, segments_view,
    Annotation,
};
pub use cleaner::{clean, clean_from, clean_spec, Context, Gap};
pub use laws::{
    comment_free, lemma_clean_idempotent_on_tidy_text, lemma_clean_keeps_string_literal,
    lemma_clean_keeps_tokens, outcome, plain_code, single_spaced, spaced,
};
pub use lexicon::{found, keyword_of, operator_of, symbol_of, Keyword, Operator, Sided, Symbol};
pub use tokenizer::{
    all_well_formed, lemma_tokens_well_formed, result_view, tokenize, tokenize_spec, tokens_from,
    well_formed, LexError, LexErrorKind, Token, TokenView, MAX_INTEGER,
};
