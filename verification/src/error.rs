//! Why an access-control request was refused.
use vstd::prelude::*;

verus! {

/// A refusal of the access-control rules; each has the message the user sees.
#[derive(Clone, Copy, Debug, PartialEq, Eq, Structural)]
pub enum AccessError {
    InvalidRoleId,
    PermissionCount,
    InvalidPermission,
    SystemRoleReadOnly,
    SystemRoleUndeletable,
    NotManager,
    NotGrantable,
    RoleNotFound,
    RoleExists,
    LastManager,
    SelfRevoke,
    RoleInUse,
    NotMember,
    PlatformAdminOnly,
    InvalidDisplayName,
    TooManyRoles,
    RemoveSelf,
}

/// The message of each refusal.
pub open spec fn error_text(e: AccessError) -> Seq<char> {
    match e {
        AccessError::InvalidRoleId => "角色 ID 必须为 1 到 64 位字母、数字、连字符或下划线"@,
        AccessError::PermissionCount => "角色需要 1 到 128 项权限"@,
        AccessError::InvalidPermission => "权限必须使用 domain:action 格式"@,
        AccessError::SystemRoleReadOnly => "内置角色不能修改或覆盖"@,
        AccessError::SystemRoleUndeletable => "内置角色不能删除"@,
        AccessError::NotManager => "当前用户不再具有权限管理权限"@,
        AccessError::NotGrantable => "不能管理超出自身授权范围的权限"@,
        AccessError::RoleNotFound => "角色不存在或不属于当前租户"@,
        AccessError::RoleExists => "角色已存在"@,
        AccessError::LastManager => "不能移除当前租户最后一个权限管理员"@,
        AccessError::SelfRevoke => "不能撤销自己的权限管理权限，请由其他管理员操作"@,
        AccessError::RoleInUse => "角色仍分配给用户，请先撤销该角色分配"@,
        AccessError::NotMember => "用户不存在或不属于当前租户"@,
        AccessError::PlatformAdminOnly => "只有平台管理员可以管理平台管理员角色"@,
        AccessError::InvalidDisplayName => "显示名称需要 1 到 96 个字符"@,
        AccessError::TooManyRoles => "最多分配 128 个角色"@,
        AccessError::RemoveSelf => "不能将自己移出当前租户"@,
    }
}

impl AccessError {
    pub fn message(&self) -> (r: &'static str)
        ensures
            r@ == error_text(*self),
    {
        match self {
            AccessError::InvalidRoleId => "角色 ID 必须为 1 到 64 位字母、数字、连字符或下划线",
            AccessError::PermissionCount => "角色需要 1 到 128 项权限",
            AccessError::InvalidPermission => "权限必须使用 domain:action 格式",
            AccessError::SystemRoleReadOnly => "内置角色不能修改或覆盖",
            AccessError::SystemRoleUndeletable => "内置角色不能删除",
            AccessError::NotManager => "当前用户不再具有权限管理权限",
            AccessError::NotGrantable => "不能管理超出自身授权范围的权限",
            AccessError::RoleNotFound => "角色不存在或不属于当前租户",
            AccessError::RoleExists => "角色已存在",
            AccessError::LastManager => "不能移除当前租户最后一个权限管理员",
            AccessError::SelfRevoke => "不能撤销自己的权限管理权限，请由其他管理员操作",
            AccessError::RoleInUse => "角色仍分配给用户，请先撤销该角色分配",
            AccessError::NotMember => "用户不存在或不属于当前租户",
            AccessError::PlatformAdminOnly => "只有平台管理员可以管理平台管理员角色",
            AccessError::InvalidDisplayName => "显示名称需要 1 到 96 个字符",
            AccessError::TooManyRoles => "最多分配 128 个角色",
            AccessError::RemoveSelf => "不能将自己移出当前租户",
        }
    }
}

} // verus!
