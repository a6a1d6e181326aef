//! Reserve management for a Bitcoin custodian: a chain of jointly-signed
//! checkpoint transactions, threshold signing, fee handling and the
//! emergency disbursal that returns funds to holders.

pub mod adapter;
pub mod backend;
pub mod building;
pub mod bytes;
pub mod checkpoint;
pub mod constants;
pub mod disbursal;
pub mod error;
pub mod fees;
pub mod frame;
pub mod interface;
pub mod keys;
pub mod laws;
pub mod math;
pub mod queue;
pub mod resubmission;
pub mod scheduling;
pub mod script;
pub mod sealing;
pub mod signatory;
pub mod signing;
pub mod threshold_sig;
pub mod tx;
