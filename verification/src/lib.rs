//! Typed values across the three byte-oriented boundaries of a contract host: values kept
//! under storage keys, values that arrive as a list of call arguments, and values handed
//! back as a list of results.
pub mod abi;
pub mod api;
pub mod big_endian;
pub mod codec;
pub mod display_util;
pub mod err_msg;
pub mod io;
pub mod managed_from;
pub mod managed_multi_result_vec_eager;
pub mod managed_vec_item;
pub mod nested_de_input;
pub mod storage_get;
pub mod types;
pub mod world_mock;
