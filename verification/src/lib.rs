//! Request routing for a small point-of-sale web server and the decoding of
//! barcode-reader input events, with their contracts proved by Verus.

pub mod barcode;
pub mod debug_mode;
pub mod input_event;
pub mod request;
pub mod response;
pub mod text;
pub mod utf8_text;
