//! Verified core of the vtz runtime's package manager, plugin layer and
//! native request handler.

pub mod json;
pub mod json_value;
pub mod text;
pub mod smap;
pub mod native_handler;
pub mod plugin;
pub mod pm;
