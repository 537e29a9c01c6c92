//! Verified core of a speaking-practice trainer: lexicon analysis of transcripts,
//! settings normalisation, LLM provider resolution, session history bookkeeping
//! and the decisions of the streaming recogniser.

pub mod json;
pub mod text;
pub mod lexicon;
pub mod llm;
pub mod settings;
pub mod history;
pub mod asr;
