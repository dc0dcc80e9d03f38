//! A verified core for a document question-bank builder: a paragraph-aware
//! text chunker, a lexical retrieval store with token-budgeted context
//! assembly, a response parser for model output, a session registry and the
//! page-by-page analysis pipeline that drives them.

pub mod chunker;
pub mod config;
pub mod files;
pub mod json;
pub mod logger;
pub mod parser;
pub mod pdftext;
pub mod pipeline;
pub mod prompts;
pub mod registry;
pub mod store;
pub mod text;
pub mod utils;
