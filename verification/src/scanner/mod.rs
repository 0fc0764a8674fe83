//! The scanners: each looks at one kind of node and reports the offenses
//! found on it, with the byte offset where each starts.

pub mod method_call_scanner;
pub mod rescue_scanner;
pub mod for_loop_scanner;
pub mod method_definition_scanner;
