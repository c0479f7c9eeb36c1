//! The request and response types of the management API.

pub mod routes;

pub use routes::{AttachGPURequest, CreateVMRequest, VMResponse};
