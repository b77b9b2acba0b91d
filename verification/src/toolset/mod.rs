//! Tool installation state and backend kinds.
pub mod backend_type;
pub mod install_state;
