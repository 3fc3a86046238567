//! A host in memory: an account with its storage, the arguments and the results of one
//! call, and a list of described types. It stands in for the real host wherever the
//! library is run without one.
pub mod account_data;
pub mod tx_mock;
