//! Decision core of a resumable job queue for multi-agent code synthesis.

pub mod agents;
pub mod archive;
pub mod arguments;
pub mod backends;
pub mod building;
pub mod chunks;
pub mod clock;
pub mod config;
pub mod conversation;
pub mod copied;
pub mod documents;
pub mod effects;
pub mod estimation;
pub mod flows;
pub mod gate;
pub mod glyphs;
pub mod ids;
pub mod jobs;
pub mod json;
pub mod manager;
pub mod manifests;
pub mod mcp;
pub mod metrics;
pub mod milestones;
pub mod models;
pub mod names;
pub mod numbers;
pub mod order;
pub mod patch;
pub mod paths;
pub mod pipeline;
pub mod plans;
pub mod qualification;
pub mod quality;
pub mod ranking;
pub mod registry;
pub mod remote;
pub mod repair;
pub mod requests;
pub mod sections;
pub mod server;
pub mod steps;
pub mod synthesis;
pub mod telling;
pub mod text;
pub mod tools;
pub mod types;
pub mod verdicts;
pub mod view;
pub mod waves;
pub mod wiring;
pub mod worker;
pub mod workspace;
