pub mod error;
pub mod files;
pub mod ids;
pub mod import_transcript;
pub mod llm;
pub mod artifacts;
pub mod capture;
pub mod chat;
pub mod commands;
pub mod db;
pub mod db_laws;
pub mod order;
pub mod peaks;
pub mod platform;
pub mod recording;
pub mod text;
