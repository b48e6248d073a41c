//! Verified core of a TLS proxy: routing, accounting, certificate management
//! and HTTP rules, each with its contract.
pub mod accounting;
pub mod acme;
pub mod acme_challenge;
pub mod acme_types;
pub mod active_tracker;
pub mod admin_server;
pub mod auth;
pub mod bindaddr;
pub mod bootstrap;
pub mod bytes;
pub mod ca;
pub mod certificate;
pub mod config;
pub mod conn_stream;
pub mod control_api;
pub mod crypto;
pub mod dataplane;
pub mod errors;
pub mod events_hub;
pub mod extensible;
pub mod forward;
pub mod hello_cache;
pub mod hostutil;
pub mod http_header;
pub mod idletracker;
pub mod issue;
pub mod json;
pub mod listener;
pub mod managed_tls;
pub mod manager;
pub mod net;
pub mod order;
pub mod patterns;
pub mod relay;
pub mod request_id;
pub mod resolve;
pub mod resolver;
pub mod rules;
pub mod runner;
pub mod runtime_config;
pub mod table;
pub mod text;
pub mod throttle;
pub mod tls_header;
pub mod utc;
pub mod x509;
