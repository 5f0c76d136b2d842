use vstd::prelude::*;

verus! {

/// Error reporting enum for ECS operation failure.
#[derive(Debug, Clone, Copy, PartialEq, Eq, Structural)]
pub enum EcsError {
    /// A runtime entity did not meet the expected type for this operation.
    InvalidEntityType,
    /// We failed to construct a locally-valid entity handle from raw data.
    InvalidRawEntity,
}

impl EcsError {
    /// The human-readable description of this error.
    pub fn message(&self) -> (r: &'static str)
        ensures
            *self == EcsError::InvalidEntityType ==> r@ == "invalid type for entity"@,
            *self == EcsError::InvalidRawEntity ==> r@ == "invalid raw entity data"@,
    {
        match self {
            EcsError::InvalidEntityType => "invalid type for entity",
            EcsError::InvalidRawEntity => "invalid raw entity data",
        }
    }
}

} // verus!
