//! Verified core of a perpetual-futures exchange engine: accounts, orders,
//! price-time priority matching, isolated-margin risk checks, funding,
//! liquidations with insurance fund, mempool and scheduling helpers.

pub mod error;
pub mod funding;
pub mod table;
pub mod types;
pub mod bytes;
pub mod state;
pub mod position;
pub mod risk;
pub mod orderbook;
pub mod events;
pub mod account;
pub mod order_service;
pub mod liquidation;
pub mod adl;
pub mod tx_index;
pub mod mempool;
pub mod exec;
pub mod config;
pub mod loadtest;
pub mod engine;
pub mod block_stm;
pub mod laws;
pub mod permissions;
pub mod auth;
pub mod rebuild;
pub mod event_store_key;
pub mod event_store;
pub mod tx_executor;
pub mod init;
pub mod generator;
pub mod content_type;
pub mod scenarios;
