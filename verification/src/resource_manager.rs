//! The quota checkpoint in front of VM creation.

use vstd::prelude::*;
use crate::errors::GpuShareError;
use crate::vm::VMConfig;

verus! {

/// Answers whether a user may have the resources that a configuration asks for.
///
/// No quota policy is in force: every request is allowed. A deployment with
/// a policy of its own hands its verdict to the orchestrator instead.
#[derive(Debug)]
pub struct ResourceManager;

impl ResourceManager {
    pub fn new() -> (manager: Self)
        ensures
            manager == ResourceManager,
    {
        Self
    }

    /// Allows every request.
    pub fn check_quota(&self, _user: &str, _config: &VMConfig) -> (res: Result<(), GpuShareError>)
        ensures
            res is Ok,
    {
        Ok(())
    }
}

} // verus!
