//! The names under which failures of the access-control store are reported
//! to callers that only take text.

use vstd::prelude::*;

verus! {

/// Why the access-control store turned a request down.
#[derive(Clone, Copy, Debug, PartialEq, Eq, Structural)]
pub enum RbacErrorType {
    EntityAlreadyExist,
    EntityDoesNotExist,
    EntityAuthorizationFailed,
    EntityDisabled,
    AssignmentAlreadyExist,
    AssignmentDoesNotExist,
    NameExceedMaxChar,
    StorageExceedsMaxBounds,
}

/// A failure of the access-control store.
#[derive(Clone, Copy, Debug, PartialEq, Eq, Structural)]
pub struct RbacError {
    pub typ: RbacErrorType,
}

/// The name of each kind of failure.
pub open spec fn spec_err2str(typ: RbacErrorType) -> Seq<char> {
    match typ {
        RbacErrorType::EntityAlreadyExist => "RbacError.EntityAlreadyExists"@,
        RbacErrorType::EntityDoesNotExist => "RbacError.EntityDoesNotExist"@,
        RbacErrorType::EntityAuthorizationFailed => "RbacError.EntityAuthorizationFailed"@,
        RbacErrorType::EntityDisabled => "RbacError.EntityDisabled"@,
        RbacErrorType::AssignmentAlreadyExist => "RbacError.AssignmentAlreadyExist"@,
        RbacErrorType::AssignmentDoesNotExist => "RbacError.AssignmentDoesNotExist"@,
        RbacErrorType::NameExceedMaxChar => "RbacError.NameExceedMaxChar"@,
        RbacErrorType::StorageExceedsMaxBounds => "RbacError.StorageExceedsMaxBounds"@,
    }
}

/// The name under which `error` is reported.
pub fn err2str(error: &RbacError) -> (r: &'static str)
    ensures
        r@ == spec_err2str(error.typ),
{
    match error.typ {
        RbacErrorType::EntityAlreadyExist => "RbacError.EntityAlreadyExists",
        RbacErrorType::EntityDoesNotExist => "RbacError.EntityDoesNotExist",
        RbacErrorType::EntityAuthorizationFailed => "RbacError.EntityAuthorizationFailed",
        RbacErrorType::EntityDisabled => "RbacError.EntityDisabled",
        RbacErrorType::AssignmentAlreadyExist => "RbacError.AssignmentAlreadyExist",
        RbacErrorType::AssignmentDoesNotExist => "RbacError.AssignmentDoesNotExist",
        RbacErrorType::NameExceedMaxChar => "RbacError.NameExceedMaxChar",
        RbacErrorType::StorageExceedsMaxBounds => "RbacError.StorageExceedsMaxBounds",
    }
}

} // verus!
