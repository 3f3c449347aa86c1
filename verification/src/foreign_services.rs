//! Supervisor-driven operations on a foreign JAM service.
//!
//! The host this service runs on has no supervisor link, so the service is
//! never any service's effective supervisor: every operation accepts the full
//! shape and refuses with the error the design assigns once existence has been
//! ruled out. `create_service` is the one operation the host can express.

use crate::log::{
    AccumulateLog, ServiceCreationResult, ServiceEjectError, ServiceSolicitError,
    ServiceStoreError, ServiceSupervisorError,
};
use vstd::prelude::*;

verus! {

/// A `Service`-targeted `forget`, or a `remove_service_storage`, on a service
/// that `exists` or not.
pub fn store_op(service: u32, exists: bool) -> (r: AccumulateLog)
    ensures
        r == (AccumulateLog::ServiceStoreFailed {
            service,
            error: if exists {
                ServiceStoreError::NotSupervised
            } else {
                ServiceStoreError::UnknownService
            },
        }),
{
    let error = if exists {
        ServiceStoreError::NotSupervised
    } else {
        ServiceStoreError::UnknownService
    };
    AccumulateLog::ServiceStoreFailed { service, error }
}

/// A `Service`-targeted `solicit`.
pub fn solicit(service: u32, exists: bool) -> (r: AccumulateLog)
    ensures
        r == (AccumulateLog::ServiceSolicitFailed {
            service,
            error: if exists {
                ServiceSolicitError::NotSupervised
            } else {
                ServiceSolicitError::UnknownService
            },
        }),
{
    let error = if exists {
        ServiceSolicitError::NotSupervised
    } else {
        ServiceSolicitError::UnknownService
    };
    AccumulateLog::ServiceSolicitFailed { service, error }
}

/// An `eject_service`: naming this service itself is refused before
/// existence is looked up.
pub fn eject(service: u32, self_id: u32, exists: bool) -> (r: AccumulateLog)
    ensures
        r == (AccumulateLog::ServiceEjectFailed {
            service,
            error: if service == self_id {
                ServiceEjectError::TargetIsSelf
            } else if !exists {
                ServiceEjectError::UnknownService
            } else {
                ServiceEjectError::NotSupervised
            },
        }),
{
    let error = if service == self_id {
        ServiceEjectError::TargetIsSelf
    } else if !exists {
        ServiceEjectError::UnknownService
    } else {
        ServiceEjectError::NotSupervised
    };
    AccumulateLog::ServiceEjectFailed { service, error }
}

/// A `set_service_supervisor`: both services must exist before supervision
/// is considered, the new supervisor's absence outranking our own lack of
/// rights.
pub fn set_supervisor(service: u32, service_exists: bool, new_supervisor_exists: bool) -> (r:
    AccumulateLog)
    ensures
        r == (AccumulateLog::ServiceSupervisorFailed {
            service,
            error: if !service_exists {
                ServiceSupervisorError::UnknownService
            } else if !new_supervisor_exists {
                ServiceSupervisorError::UnknownNewSupervisor
            } else {
                ServiceSupervisorError::NotSupervised
            },
        }),
{
    let error = if !service_exists {
        ServiceSupervisorError::UnknownService
    } else if !new_supervisor_exists {
        ServiceSupervisorError::UnknownNewSupervisor
    } else {
        ServiceSupervisorError::NotSupervised
    };
    AccumulateLog::ServiceSupervisorFailed { service, error }
}

/// Whether a `create_service` goes to JAM: a single balance per service
/// leaves both balance selectors inexpressible, so either one set refuses it
/// up front as `CannotAfford` (the returned entry).
pub fn create(id: u64, source_supervisor_balance: bool, new_supervisor_balance: bool) -> (r: Option<
    AccumulateLog,
>)
    ensures
        source_supervisor_balance || new_supervisor_balance ==> r == Some(
            AccumulateLog::ServiceCreation { id, result: ServiceCreationResult::CannotAfford },
        ),
        !(source_supervisor_balance || new_supervisor_balance) ==> r is None,
{
    if source_supervisor_balance || new_supervisor_balance {
        Some(AccumulateLog::ServiceCreation { id, result: ServiceCreationResult::CannotAfford })
    } else {
        None
    }
}

/// What JAM's `create_service` answered.
#[derive(Clone, Copy, Debug, PartialEq, Eq, Structural)]
pub enum CreateAnswer {
    Created(u32),
    /// JAM's `StorageFull`: the desired id is taken.
    StorageFull,
    /// Any other refusal: the service cannot fund the new one.
    Refused,
}

/// The log entry of a `create_service` JAM answered.
pub fn creation_logged(id: u64, answer: CreateAnswer) -> (r: AccumulateLog)
    ensures
        r == (AccumulateLog::ServiceCreation {
            id,
            result: match answer {
                CreateAnswer::Created(s) => ServiceCreationResult::Created(s),
                CreateAnswer::StorageFull => ServiceCreationResult::IdTaken,
                CreateAnswer::Refused => ServiceCreationResult::CannotAfford,
            },
        }),
{
    let result = match answer {
        CreateAnswer::Created(s) => ServiceCreationResult::Created(s),
        CreateAnswer::StorageFull => ServiceCreationResult::IdTaken,
        CreateAnswer::Refused => ServiceCreationResult::CannotAfford,
    };
    AccumulateLog::ServiceCreation { id, result }
}

} // verus!
