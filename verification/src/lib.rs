//! An agent that is reached by chat: its sessions and tools, the gateway between it and the chats,
//! the profiles that it runs on, and the command line that its sessions use.
#![allow(unused_imports)]
use vstd::prelude::*;

pub mod agent_client;
pub mod api;
pub mod base64;
pub mod builtin;
pub mod builtin_run;
pub mod call;
pub mod clock;
pub mod config;
pub mod edits;
pub mod event_id;
pub mod execution;
pub mod fake_provider;
pub mod filesystem;
pub mod http;
pub mod identity;
pub mod im_entry;
pub mod inbound;
pub mod json;
pub mod openai;
pub mod openai_compatible;
pub mod paging;
pub mod paths;
pub mod process;
pub mod profiles;
pub mod projection;
pub mod provider_script;
pub mod providers;
pub mod query_gate;
pub mod recovery;
pub mod service;
pub mod session_log;
pub mod slack_status;
pub mod socket;
pub mod sse;
pub mod startup;
pub mod status_projection;
pub mod text;
pub mod text_map;
pub mod tools;
pub mod wire;

verus! {
}
