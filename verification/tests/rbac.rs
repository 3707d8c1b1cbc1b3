use parachain_staking::rbac::{err2str, RbacError, RbacErrorType};

#[test]
fn every_failure_has_its_name() {
    let names = [
        (RbacErrorType::EntityAlreadyExist, "RbacError.EntityAlreadyExists"),
        (RbacErrorType::EntityDoesNotExist, "RbacError.EntityDoesNotExist"),
        (RbacErrorType::EntityAuthorizationFailed, "RbacError.EntityAuthorizationFailed"),
        (RbacErrorType::EntityDisabled, "RbacError.EntityDisabled"),
        (RbacErrorType::AssignmentAlreadyExist, "RbacError.AssignmentAlreadyExist"),
        (RbacErrorType::AssignmentDoesNotExist, "RbacError.AssignmentDoesNotExist"),
        (RbacErrorType::NameExceedMaxChar, "RbacError.NameExceedMaxChar"),
        (RbacErrorType::StorageExceedsMaxBounds, "RbacError.StorageExceedsMaxBounds"),
    ];
    for (typ, name) in names {
        assert_eq!(err2str(&RbacError { typ }), name);
    }
}
