//! A language server for SimplicityHL.

pub mod call_laws;
pub mod chars;
pub mod completion;
pub mod config;
pub mod error;
pub mod key_laws;
pub mod order;
pub mod path_laws;
pub mod paths;
pub mod project;
pub mod protocol;
pub mod rope;
pub mod text;
pub mod text_laws;
pub mod text_map;
pub mod utils;
pub mod witness;
pub mod witness_laws;
pub mod workspace;
pub mod syntax;
pub mod compiler;
pub mod report;
pub mod lexer;
pub mod semantic_token_laws;
pub mod semantic_tokens;
pub mod server;
pub mod signature_help;
pub mod split;
pub mod numbers;
pub mod analysis;
pub mod navigation;
