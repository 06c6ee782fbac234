//! The bridge between chat platforms and command-line agents.

pub mod acp;
pub mod admin;
pub mod builtins;
pub mod calendar;
pub mod claude;
pub mod cli_agent;
pub mod codec;
pub mod commands;
pub mod config;
pub mod discord;
pub mod echo;
pub mod engine;
pub mod framing;
pub mod handles;
pub mod http_agent;
pub mod ids;
pub mod json;
pub mod jsonrpc;
pub mod line;
pub mod media;
pub mod paths;
pub mod registry;
pub mod schedule;
pub mod scheduler;
pub mod service;
pub mod session;
pub mod sign;
pub mod slack;
pub mod split;
pub mod stdio;
pub mod store;
pub mod stream_event;
pub mod telegram;
pub mod text;
pub mod types;
