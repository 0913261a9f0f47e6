//! Verified core of the gateway's bounded data-plane runtime.
//!
//! Each module holds one family of decisions the runtime makes: composition labels, adapter
//! capabilities and ledgers; admission of a configuration Version and of its compatible egress
//! graph; the provider-account projection; bounded body buffering, transport header and
//! deadline rules; the management Channel Pin; the attempt-stage ledger; route explanation and
//! operator recovery; catalog pagination; generation publication; storage capacity parsing;
//! and the streamed and completed Responses decoders.
#![allow(unused_imports)]

pub mod composition;
pub mod canonical;
pub mod errors;
pub mod json;
pub mod text;
pub mod capacity;
pub mod sse;
pub mod usage;
pub mod transport;
pub mod stage_ledger;
pub mod channel_pin;
pub mod endpoint;
pub mod completed;
pub mod config;
pub mod route_explain;
pub mod recovery;
pub mod catalog;
pub mod publication;
pub mod request;
pub mod attempt;
pub mod accounts;
pub mod compatible;
pub mod deployment;
pub mod events;
pub mod pin_plan;
