//! Subtitle extraction, segmentation and translation logic of SubForge.
pub mod text;
pub mod srt;
pub mod json;
pub mod split_rules;
pub mod segmentation;
pub mod openai_compat;
pub mod config;
pub mod llm_translate;
pub mod task;
pub mod paths;
pub mod cache;
pub mod google;
pub mod proxy;
pub mod models;
pub mod hardware;
pub mod limits;
pub mod whisper;
pub mod secrets;
pub mod task_ops;
pub mod timing;
pub mod runner;
pub mod job;
pub mod download;
pub mod commands;
pub mod deps;
pub mod pipeline;
