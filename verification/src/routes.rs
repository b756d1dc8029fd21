//! The HTTP side of the access-control API: who may call it and how a refusal
//! is answered.
use vstd::prelude::*;

use crate::error::{AccessError, error_text};
use crate::text::{contains_str, str_eq, views};

verus! {

pub const STATUS_BAD_REQUEST: u16 = 400;

pub const STATUS_UNAUTHORIZED: u16 = 401;

pub const STATUS_FORBIDDEN: u16 = 403;

/// A refused HTTP request: its status and the message of its error body.
pub struct AccessControlHttpError {
    pub status: u16,
    pub message: String,
}

impl AccessControlHttpError {
    /// 401: the caller has no valid session.
    pub fn unauthorized(message: &str) -> (e: Self)
        ensures
            e.status == STATUS_UNAUTHORIZED,
            e.message@ == message@,
    {
        AccessControlHttpError { status: STATUS_UNAUTHORIZED, message: message.to_owned() }
    }

    /// 403: the caller may not do this.
    pub fn forbidden(message: &str) -> (e: Self)
        ensures
            e.status == STATUS_FORBIDDEN,
            e.message@ == message@,
    {
        AccessControlHttpError { status: STATUS_FORBIDDEN, message: message.to_owned() }
    }

    /// 400: the access-control rules refused the request.
    pub fn from_access(error: AccessError) -> (e: Self)
        ensures
            e.status == STATUS_BAD_REQUEST,
            e.message@ == error_text(error),
    {
        AccessControlHttpError { status: STATUS_BAD_REQUEST, message: error.message().to_owned() }
    }
}

/// Admits a caller to the access-control API: it needs a session (given by
/// the permissions it holds in the session's tenant) with `rbac:manage`.
pub fn authorize_manager(session_permissions: Option<&Vec<String>>) -> (r: Result<
    (),
    AccessControlHttpError,
>)
    ensures
        session_permissions is None ==> (r matches Err(e) && e.status == STATUS_UNAUTHORIZED
            && e.message@ == "会话无效或已过期"@),
        session_permissions matches Some(ps) && !views(ps@).contains("rbac:manage"@) ==> (r matches Err(
            e,
        ) && e.status == STATUS_FORBIDDEN && e.message@ == "当前角色没有权限管理权限"@),
        session_permissions matches Some(ps) && views(ps@).contains("rbac:manage"@) ==> r is Ok,
{
    match session_permissions {
        None => Err(AccessControlHttpError::unauthorized("会话无效或已过期")),
        Some(ps) => {
            if contains_str(ps, "rbac:manage") {
                Ok(())
            } else {
                Err(AccessControlHttpError::forbidden("当前角色没有权限管理权限"))
            }
        },
    }
}

/// A role update names the role in its path and in its body; they must agree,
/// since a role id cannot change.
pub fn check_role_path(path_id: &str, body_role_id: &str) -> (r: Result<(), AccessControlHttpError>)
    ensures
        path_id@ == body_role_id@ ==> r is Ok,
        path_id@ != body_role_id@ ==> (r matches Err(e) && e.status == STATUS_FORBIDDEN
            && e.message@ == "角色 ID 不可更改"@),
{
    if str_eq(path_id, body_role_id) {
        Ok(())
    } else {
        Err(AccessControlHttpError::forbidden("角色 ID 不可更改"))
    }
}

} // verus!
