//! The control plane's rules: who may do what, and what a request comes to.
pub mod publish;
pub mod session;
pub mod settings;
pub mod stream;
