//! Verified core logic of the Parachain Service: state accounting, the
//! per-parachain log, the head commitment, PoV parsing and the reorder buffer.

pub mod buffer;
pub mod executor;
pub mod hashing;
pub mod pov;
pub mod pvf;
pub mod scale;
pub mod service;
pub mod state;
pub mod types;
pub mod constants;
pub mod para_info;
pub mod state_balance;
pub mod bounded;
pub mod log;
pub mod head_commitment;
pub mod parasim;
pub mod management;
pub mod package;
pub mod transfers;
pub mod assigns;
pub mod validator_keys;
pub mod refine;
pub mod foreign_services;
pub mod mock_dest;
