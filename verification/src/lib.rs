//! The verified core of the DeepSeek Harness desktop shell: how the backend
//! is found and watched while it starts, what the status panel reads from the
//! harness's files, and how the bundled runtime is unpacked.

pub mod backend;
pub mod order;
pub mod text;
pub mod usage;
pub mod logging;
pub mod panel;
pub mod window;
pub mod splash;
pub mod paths;
pub mod portable;
