pub mod config;
pub mod diagnostic;
pub mod git;
pub mod lsp_json;
pub mod outside;
pub mod paths;
pub mod rules;
pub mod run;
pub mod text;
