//! Decision logic of the Potato desktop runtime: permission and approval
//! policy, directory rules, the follow-up outbox, context budgeting, Office
//! input validation, job bookkeeping and small text utilities.
#![allow(unused_imports)]

pub mod approval;
pub mod error;
pub mod paths;
pub mod text;
pub mod permissions;
pub mod outbox;
pub mod console;
pub mod window;
pub mod office;
pub mod context;
pub mod context_policy;
pub mod jobs;
pub mod file_ops;
pub mod memory;
pub mod providers;
pub mod computer;
pub mod file_search;
pub mod cloud_memory;
pub mod api;
pub mod shell;
pub mod legacy;
pub mod history;
pub mod catalog;
pub mod completion;
pub mod mcp;
pub mod tokens;
pub mod replay;
pub mod template;
pub mod web;
pub mod start;
pub mod turn;
pub mod stream;
pub mod import;
pub mod pending;
pub mod chats;
pub mod routes;
