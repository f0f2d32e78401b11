//! OpenWiki's capture and knowledge-base logic: prompts for the language
//! model, recovery and pruning of its answers, text extraction from fetched
//! web pages, and the bookkeeping of captured images.
pub mod attention;
pub mod commands;
pub mod images;
pub mod text;
pub mod url_reader;
pub mod url_text;
pub mod wiki_prompts;
