//! In-memory product catalog search: a tokenizer, an inverted index over the
//! tokenized text fields, a search engine with a bounded record store, a
//! query-result cache with time-based expiry under LRU eviction, and the
//! metrics and recommendation collaborators around them.

pub mod cache;
pub mod ids;
pub mod indice;
pub mod metricas;
pub mod motor;
pub mod produto;
pub mod recomendacao;
pub mod texto;
