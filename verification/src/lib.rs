//! A search library for Pāli texts: tokenizer, stemmers, stem tables and text loading.
pub mod token;
pub mod tokenizer;
pub mod snowball;
pub mod filters;
pub mod algo_stemmer;
pub mod table;
pub mod dict_stemmer;
pub mod analyzers;
pub mod texts;
pub mod vocabulary;
pub mod stop_words;
pub mod dpd;
pub mod characters;
