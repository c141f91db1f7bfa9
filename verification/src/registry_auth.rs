//! Authorization decisions of the package registry.
use vstd::prelude::*;

verus! {

#[derive(Debug, Clone, Copy, PartialEq, Eq, Structural)]
pub enum PrincipalType {
    UserSession,
    UserApiKey,
    OrgApiKey,
}

#[derive(Debug, Clone, Copy, PartialEq, Eq, Structural)]
pub enum Policy {
    ApiKeyRequired,
    ExplicitPermission,
    ScopeMatch,
    SchemaAdmin,
    FirstPublish,
    OrgAdmin,
    TokenOwnership,
    NotApplicable,
}

/// One policy that was checked, and how it went.
#[derive(Debug)]
pub struct PolicyCheck {
    pub policy: Policy,
    pub passed: bool,
    pub details: String,
}

/// The outcome of an authorization check.
#[derive(Debug)]
pub struct AuthorizationResult {
    pub allowed: bool,
    pub reason: String,
    pub checks: Vec<PolicyCheck>,
}

/// Why a request was refused.
#[derive(Debug)]
pub enum AuthorizationError {
    /// Authorization denied: {reason}
    Denied { reason: String, checks: Vec<PolicyCheck> },
    /// Internal authorization error: {reason}
    NotApplicable { reason: String },
}

/// Whether some check is of the `NotApplicable` policy.
pub open spec fn has_not_applicable(checks: Seq<PolicyCheck>) -> bool {
    exists|i: int| 0 <= i < checks.len() && checks[i].policy == Policy::NotApplicable
}

impl AuthorizationResult {
    pub fn allow(reason: String, checks: Vec<PolicyCheck>) -> (r: Self)
        ensures
            r.allowed,
            r.reason == reason,
            r.checks == checks,
    {
        AuthorizationResult { allowed: true, reason, checks }
    }

    pub fn deny(reason: String, checks: Vec<PolicyCheck>) -> (r: Self)
        ensures
            !r.allowed,
            r.reason == reason,
            r.checks == checks,
    {
        AuthorizationResult { allowed: false, reason, checks }
    }

    /// A denial for a permission that does not apply to the resource: a
    /// misconfigured check.
    pub fn not_applicable(permission: &str, resource: &str) -> (r: Self)
        ensures
            !r.allowed,
            r.reason@ == "Internal error: permission '"@ + permission@ + "' not applicable to resource '"@ + resource@ + "'"@,
            r.checks@.len() == 1,
            r.checks@[0].policy == Policy::NotApplicable,
            !r.checks@[0].passed,
            r.checks@[0].details@ == "Authorization check misconfiguration"@,
    {
        let mut reason = String::from_str("Internal error: permission '");
        reason.append(permission);
        reason.append("' not applicable to resource '");
        reason.append(resource);
        reason.append("'");
        let mut checks = Vec::new();
        checks.push(PolicyCheck {
            policy: Policy::NotApplicable,
            passed: false,
            details: String::from_str("Authorization check misconfiguration"),
        });
        AuthorizationResult { allowed: false, reason, checks }
    }

    /// `Ok` when allowed; otherwise `NotApplicable` when a check was
    /// misconfigured, else `Denied` with the reason and the checks.
    pub fn into_result(self) -> (r: Result<(), AuthorizationError>)
        ensures
            self.allowed ==> r is Ok,
            !self.allowed && has_not_applicable(self.checks@) ==> r == Err::<(), AuthorizationError>(AuthorizationError::NotApplicable { reason: self.reason }),
            !self.allowed && !has_not_applicable(self.checks@) ==> r == Err::<(), AuthorizationError>(AuthorizationError::Denied { reason: self.reason, checks: self.checks }),
    {
        if self.allowed {
            return Ok(());
        }
        let mut found = false;
        let mut k: usize = 0;
        while k < self.checks.len()
            invariant
                k <= self.checks@.len(),
                found == exists|i: int| 0 <= i < k && self.checks@[i].policy == Policy::NotApplicable,
            decreases self.checks@.len() - k,
        {
            if self.checks[k].policy == Policy::NotApplicable {
                found = true;
            }
            k += 1;
        }
        if found {
            Err(AuthorizationError::NotApplicable { reason: self.reason })
        } else {
            Err(AuthorizationError::Denied { reason: self.reason, checks: self.checks })
        }
    }

    /// Same as `into_result`.
    pub fn require(self) -> (r: Result<(), AuthorizationError>)
        ensures
            self.allowed ==> r is Ok,
            !self.allowed && has_not_applicable(self.checks@) ==> r == Err::<(), AuthorizationError>(AuthorizationError::NotApplicable { reason: self.reason }),
            !self.allowed && !has_not_applicable(self.checks@) ==> r == Err::<(), AuthorizationError>(AuthorizationError::Denied { reason: self.reason, checks: self.checks }),
    {
        self.into_result()
    }
}

} // verus!
