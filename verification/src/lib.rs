//! Building blocks of an agent stream toolkit: dynamically typed agent values,
//! agent definitions and configurations, agent flows, the routing state that
//! connects agents, and chat message handling.

pub mod float64;
pub mod text;
pub mod keymap;
pub mod error;
pub mod value;
pub mod json;
pub mod convert;
pub mod data;
pub mod config;
pub mod definition;
pub mod ids;
pub mod seqs;
pub mod flow;
pub mod names;
pub mod entries;
pub mod context;
pub mod askit;
pub mod board_agent;
pub mod message;
pub mod llm;
pub mod rig;
pub mod std_agents;
pub mod pixels;
pub mod inputs;
pub mod templates;
pub mod equality;
pub mod formats;
