//! Lexical similarity and diversity metrics over small batches of texts.
//!
//! Every score is given exactly, as integers: a `Fraction` for Jaccard
//! similarity, distinct-n and clipped n-gram precision, and the integer
//! ingredients of BLEU (precisions and lengths). Turning them into real
//! numbers is left to the caller.
//!
//! Texts are split into words at whitespace. Each metric also has a form
//! over token sequences (`jaccard_words`, `distinct_n_words`, `bleu_words`),
//! so that another tokenizer can be used in front of it.
pub mod tokens;
pub mod ngram;
pub mod score;
pub mod jaccard;
pub mod distinct;
pub mod bleu;
pub mod diversity;
pub mod laws;

pub use tokens::tokenize;
pub use ngram::ngram_counts;
pub use score::{Fraction, MetricError};
pub use jaccard::{jaccard, jaccard_words};
pub use distinct::{distinct_n, distinct_n_words, tokenize_corpus};
pub use bleu::{bleu, bleu_words, closest_reference_length, modified_precision, Bleu};
pub use diversity::{pairwise_jaccard_diversity, self_bleu, self_bleu_diversity, PairwiseDiversity};
