//! Certificate management with ACME: which certificates are renewed when, what
//! has to hold before an order, and what an issued certificate has to be.
pub mod backend;
pub mod client;
pub mod dns;
pub mod issuance;
pub mod renewal;
pub mod scheduler;
