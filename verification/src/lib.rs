//! A credential keychain for agents: secrets are stored, used and audited,
//! and never printed.

pub mod audit_cmd;
pub mod clock;
pub mod crud;
pub mod egress;
pub mod error;
pub mod genpass;
pub mod model;
pub mod output;
pub mod paths;
pub mod random;
pub mod redact;
pub mod secrets;
pub mod text;
pub mod totp;
pub mod vault;
