//! Multi-layer path validation. Every mutating operation of the library
//! must pass a path through `validate_path_comprehensive` before acting.
//!
//! The pipeline short-circuits on the first failing layer:
//! traversal check, absolute-path requirement, canonicalization,
//! system-critical denylist (context dependent), filesystem boundary
//! check, permission/ownership check, and existence check.
//!
//! Canonicalization, permissions and existence are facts about the
//! filesystem; the caller gathers them into `PathFacts` and the
//! validator is a pure function of the path string, the context, the
//! caller's home directory and those facts.
use vstd::prelude::*;
use vstd::string::StringExecFns;

use crate::strutil::{contains_seq, has_prefix, is_path_prefix};
use crate::strutil::{str_contains, str_has_prefix, str_is_path_prefix, str_contains_lower};
use crate::strutil::ascii_lower;

verus! {

/// The operation class that parameterizes which path prefixes are
/// forbidden during validation.
#[derive(Clone, Copy, Debug, PartialEq, Eq, Structural)]
pub enum SecurityContext {
    Deletion,
    CacheCleanup,
    PackageManagement,
    LogCleanup,
    StartupManagement,
}

/// A typed validation failure; one per validation layer.
#[derive(Debug)]
pub enum SecurityError {
    PathTraversal { path: String },
    NonAbsolutePath { path: String },
    SystemCriticalPath { path: String },
    PermissionDenied { path: String },
    OutsideBoundaries { path: String },
    PathDoesNotExist { path: String },
    SecurityViolation { message: String },
}

/// Permission-related facts about the canonical target, as read from
/// its metadata; absent when the metadata could not be read.
#[derive(Clone, Copy, Debug)]
pub struct PermissionFacts {
    pub readonly: bool,
    pub owner_uid: u32,
}

/// Filesystem facts about a path, gathered by the caller: the
/// canonicalized form (absent when resolution failed, e.g. a broken
/// link), the target's metadata, whether the canonical target exists,
/// and the invoking user's id.
#[derive(Debug)]
pub struct PathFacts {
    pub canonical: Option<String>,
    pub metadata: Option<PermissionFacts>,
    pub exists: bool,
    pub caller_uid: u32,
}

/// The path contains `..` or a percent-encoded variant of it.
pub open spec fn has_traversal(p: Seq<char>) -> bool {
    contains_seq(p, ".."@) || contains_seq(p, "%2e%2e%2f"@) || contains_seq(p, "%2e%2e/"@)
}

/// The path is absolute (POSIX: starts with a slash).
pub open spec fn is_absolute(p: Seq<char>) -> bool {
    p.len() > 0 && p[0] == '/'
}

/// The first always-forbidden system prefix that `p` starts with, in
/// denylist order; these are rejected in every context.
pub open spec fn always_forbidden_match(p: Seq<char>) -> Option<Seq<char>> {
    if has_prefix(p, "/bin"@) {
        Some("/bin"@)
    } else if has_prefix(p, "/boot"@) {
        Some("/boot"@)
    } else if has_prefix(p, "/dev"@) {
        Some("/dev"@)
    } else if has_prefix(p, "/etc"@) {
        Some("/etc"@)
    } else if has_prefix(p, "/lib"@) {
        Some("/lib"@)
    } else if has_prefix(p, "/lib64"@) {
        Some("/lib64"@)
    } else if has_prefix(p, "/proc"@) {
        Some("/proc"@)
    } else if has_prefix(p, "/run"@) {
        Some("/run"@)
    } else if has_prefix(p, "/sbin"@) {
        Some("/sbin"@)
    } else if has_prefix(p, "/sys"@) {
        Some("/sys"@)
    } else if has_prefix(p, "/usr/bin"@) {
        Some("/usr/bin"@)
    } else if has_prefix(p, "/usr/sbin"@) {
        Some("/usr/sbin"@)
    } else if has_prefix(p, "/usr/lib"@) {
        Some("/usr/lib"@)
    } else if has_prefix(p, "/usr/local/bin"@) {
        Some("/usr/local/bin"@)
    } else if has_prefix(p, "/var/lib"@) {
        Some("/var/lib"@)
    } else if has_prefix(p, "/var/run"@) {
        Some("/var/run"@)
    } else if has_prefix(p, "/var/lock"@) {
        Some("/var/lock"@)
    } else if has_prefix(p, "/var/spool"@) {
        Some("/var/spool"@)
    } else if has_prefix(p, "/root"@) {
        Some("/root"@)
    } else if has_prefix(p, "/home/root"@) {
        Some("/home/root"@)
    } else if has_prefix(p, "/etc/passwd"@) {
        Some("/etc/passwd"@)
    } else if has_prefix(p, "/etc/shadow"@) {
        Some("/etc/shadow"@)
    } else if has_prefix(p, "/etc/sudoers"@) {
        Some("/etc/sudoers"@)
    } else {
        None
    }
}

/// The first context-specific forbidden prefix that `p` starts with,
/// checked after the always-forbidden list passed.
pub open spec fn context_forbidden_match(p: Seq<char>, ctx: SecurityContext) -> Option<
    Seq<char>,
> {
    match ctx {
        SecurityContext::Deletion => if has_prefix(p, "/usr"@) {
            Some("/usr"@)
        } else if has_prefix(p, "/opt"@) {
            Some("/opt"@)
        } else if has_prefix(p, "/var"@) {
            Some("/var"@)
        } else {
            None
        },
        SecurityContext::CacheCleanup => if has_prefix(p, "/etc"@) {
            Some("/etc"@)
        } else if has_prefix(p, "/usr/bin"@) {
            Some("/usr/bin"@)
        } else {
            None
        },
        SecurityContext::PackageManagement => if has_prefix(p, "/etc"@) && !has_prefix(
            p,
            "/etc/apt"@,
        ) {
            Some("/etc"@)
        } else {
            None
        },
        SecurityContext::LogCleanup => None,
        SecurityContext::StartupManagement => None,
    }
}

/// The forbidden prefix reported for `p` in context `ctx`, if any.
pub open spec fn critical_match(p: Seq<char>, ctx: SecurityContext) -> Option<Seq<char>> {
    match always_forbidden_match(p) {
        Some(f) => Some(f),
        None => context_forbidden_match(p, ctx),
    }
}

/// The canonical path lies under the caller's home directory or one of
/// the shared cache locations.
pub open spec fn in_boundaries(p: Seq<char>, home: Seq<char>) -> bool {
    is_path_prefix(p, home) || is_path_prefix(p, "/var/cache"@) || is_path_prefix(p, "/tmp"@)
}

/// The permission layer passes: metadata was readable, the target is
/// writable, and the caller owns it or is the superuser.
pub open spec fn permissions_ok(metadata: Option<PermissionFacts>, caller_uid: u32) -> bool {
    match metadata {
        Some(m) => !m.readonly && (caller_uid == 0 || caller_uid == m.owner_uid),
        None => false,
    }
}

/// The view of the canonical path recorded in `facts`, if resolution
/// succeeded.
pub open spec fn canon_of(facts: PathFacts) -> Option<Seq<char>> {
    match facts.canonical {
        Some(c) => Some(c@),
        None => None,
    }
}

/// All seven validation layers pass.
pub open spec fn validate_ok(
    path: Seq<char>,
    ctx: SecurityContext,
    home: Seq<char>,
    facts: PathFacts,
) -> bool {
    &&& !has_traversal(path)
    &&& is_absolute(path)
    &&& canon_of(facts) is Some
    &&& critical_match(canon_of(facts)->Some_0, ctx) is None
    &&& in_boundaries(canon_of(facts)->Some_0, home)
    &&& permissions_ok(facts.metadata, facts.caller_uid)
    &&& facts.exists
}

/// Traversal protection: rejects any path that contains `..` or a
/// percent-encoded variant, regardless of context.
pub fn validate_path_traversal(path: &str) -> (r: Result<(), SecurityError>)
    ensures
        r is Ok <==> !has_traversal(path@),
        r is Err ==> (r matches Err(SecurityError::PathTraversal { path: p }) && p@ == path@),
{
    if str_contains(path, "..") || str_contains(path, "%2e%2e%2f") || str_contains(
        path,
        "%2e%2e/",
    ) {
        Err(SecurityError::PathTraversal { path: String::from_str(path) })
    } else {
        Ok(())
    }
}

/// Context-aware system-critical path check on an already canonical
/// path. The reported path is the matched denylist prefix.
pub fn validate_system_critical_paths(canonical_path: &str, context: &SecurityContext) -> (r:
    Result<(), SecurityError>)
    ensures
        r is Ok <==> critical_match(canonical_path@, *context) is None,
        r is Err ==> (r matches Err(SecurityError::SystemCriticalPath { path: p })
            && critical_match(canonical_path@, *context) == Some(p@)),
{
    if let Some(prefix) = always_forbidden_hit(canonical_path) {
        return Err(SecurityError::SystemCriticalPath { path: String::from_str(prefix) });
    }
    match context {
        SecurityContext::Deletion => {
            if str_has_prefix(canonical_path, "/usr") {
                return Err(SecurityError::SystemCriticalPath { path: String::from_str("/usr") });
            }
            if str_has_prefix(canonical_path, "/opt") {
                return Err(SecurityError::SystemCriticalPath { path: String::from_str("/opt") });
            }
            if str_has_prefix(canonical_path, "/var") {
                return Err(SecurityError::SystemCriticalPath { path: String::from_str("/var") });
            }
        },
        SecurityContext::CacheCleanup => {
            if str_has_prefix(canonical_path, "/etc") {
                return Err(SecurityError::SystemCriticalPath { path: String::from_str("/etc") });
            }
            if str_has_prefix(canonical_path, "/usr/bin") {
                return Err(
                    SecurityError::SystemCriticalPath { path: String::from_str("/usr/bin") },
                );
            }
        },
        SecurityContext::PackageManagement => {
            if str_has_prefix(canonical_path, "/etc") && !str_has_prefix(
                canonical_path,
                "/etc/apt",
            ) {
                return Err(SecurityError::SystemCriticalPath { path: String::from_str("/etc") });
            }
        },
        SecurityContext::LogCleanup => {},
        SecurityContext::StartupManagement => {},
    }
    Ok(())
}

/// The first always-forbidden prefix of `p`, as a string slice.
fn always_forbidden_hit(p: &str) -> (r: Option<&'static str>)
    ensures
        match r {
            Some(s) => always_forbidden_match(p@) == Some(s@),
            None => always_forbidden_match(p@) is None,
        },
{
    if str_has_prefix(p, "/bin") {
        Some("/bin")
    } else if str_has_prefix(p, "/boot") {
        Some("/boot")
    } else if str_has_prefix(p, "/dev") {
        Some("/dev")
    } else if str_has_prefix(p, "/etc") {
        Some("/etc")
    } else if str_has_prefix(p, "/lib") {
        Some("/lib")
    } else if str_has_prefix(p, "/lib64") {
        Some("/lib64")
    } else if str_has_prefix(p, "/proc") {
        Some("/proc")
    } else if str_has_prefix(p, "/run") {
        Some("/run")
    } else if str_has_prefix(p, "/sbin") {
        Some("/sbin")
    } else if str_has_prefix(p, "/sys") {
        Some("/sys")
    } else if str_has_prefix(p, "/usr/bin") {
        Some("/usr/bin")
    } else if str_has_prefix(p, "/usr/sbin") {
        Some("/usr/sbin")
    } else if str_has_prefix(p, "/usr/lib") {
        Some("/usr/lib")
    } else if str_has_prefix(p, "/usr/local/bin") {
        Some("/usr/local/bin")
    } else if str_has_prefix(p, "/var/lib") {
        Some("/var/lib")
    } else if str_has_prefix(p, "/var/run") {
        Some("/var/run")
    } else if str_has_prefix(p, "/var/lock") {
        Some("/var/lock")
    } else if str_has_prefix(p, "/var/spool") {
        Some("/var/spool")
    } else if str_has_prefix(p, "/root") {
        Some("/root")
    } else if str_has_prefix(p, "/home/root") {
        Some("/home/root")
    } else if str_has_prefix(p, "/etc/passwd") {
        Some("/etc/passwd")
    } else if str_has_prefix(p, "/etc/shadow") {
        Some("/etc/shadow")
    } else if str_has_prefix(p, "/etc/sudoers") {
        Some("/etc/sudoers")
    } else {
        None
    }
}

/// Boundary check: the canonical path must lie under the caller's home
/// directory or under one of the shared cache locations.
pub fn validate_filesystem_boundaries(canonical_path: &str, home: &str) -> (r: Result<
    (),
    SecurityError,
>)
    ensures
        r is Ok <==> in_boundaries(canonical_path@, home@),
        r is Err ==> (r matches Err(SecurityError::OutsideBoundaries { path: p })
            && p@ == canonical_path@),
{
    if str_is_path_prefix(canonical_path, home) || str_is_path_prefix(canonical_path, "/var/cache")
        || str_is_path_prefix(canonical_path, "/tmp") {
        Ok(())
    } else {
        Err(SecurityError::OutsideBoundaries { path: String::from_str(canonical_path) })
    }
}

/// Permission check: the target's metadata must be readable, the
/// target writable, and owned by the caller unless the caller is the
/// superuser.
pub fn validate_permissions(
    canonical_path: &str,
    metadata: &Option<PermissionFacts>,
    caller_uid: u32,
) -> (r: Result<(), SecurityError>)
    ensures
        r is Ok <==> permissions_ok(*metadata, caller_uid),
        (r is Err && *metadata is Some) ==> (r matches Err(
            SecurityError::PermissionDenied { path: p },
        ) && p@ == canonical_path@),
        (r is Err && *metadata is None) ==> (r matches Err(
            SecurityError::SecurityViolation { message: m },
        ) && m@ == "cannot access file metadata: "@ + canonical_path@),
{
    match metadata {
        Some(m) => {
            if m.readonly {
                return Err(
                    SecurityError::PermissionDenied { path: String::from_str(canonical_path) },
                );
            }
            if caller_uid != 0 && caller_uid != m.owner_uid {
                return Err(
                    SecurityError::PermissionDenied { path: String::from_str(canonical_path) },
                );
            }
            Ok(())
        },
        None => {
            let msg = String::from_str("cannot access file metadata: ").concat(canonical_path);
            Err(SecurityError::SecurityViolation { message: msg })
        },
    }
}

/// Comprehensive path validation: all seven layers, short-circuiting
/// on the first failure. `home` is the caller's home directory and
/// `facts` the filesystem facts for `path`.
pub fn validate_path_comprehensive(
    path: &str,
    context: SecurityContext,
    home: &str,
    facts: &PathFacts,
) -> (r: Result<(), SecurityError>)
    ensures
        r is Ok <==> validate_ok(path@, context, home@, *facts),
        (r matches Err(SecurityError::PathTraversal { path: p }) ==> p@ == path@),
        (r matches Err(SecurityError::PathTraversal { .. }) <==> has_traversal(path@)),
        (r matches Err(SecurityError::NonAbsolutePath { path: p }) ==> p@ == path@),
        (r matches Err(SecurityError::NonAbsolutePath { .. }) <==> !has_traversal(path@)
            && !is_absolute(path@)),
        (r matches Err(SecurityError::SystemCriticalPath { path: p }) ==> critical_match(
            canon_of(*facts)->Some_0,
            context,
        ) == Some(p@)),
        (r matches Err(SecurityError::SystemCriticalPath { .. }) <==> !has_traversal(path@)
            && is_absolute(path@) && canon_of(*facts) is Some && critical_match(
            canon_of(*facts)->Some_0,
            context,
        ) is Some),
        (r matches Err(SecurityError::OutsideBoundaries { path: p }) ==> Some(p@) == canon_of(
            *facts,
        )),
        (r matches Err(SecurityError::OutsideBoundaries { .. }) <==> !has_traversal(path@)
            && is_absolute(path@) && canon_of(*facts) is Some && critical_match(
            canon_of(*facts)->Some_0,
            context,
        ) is None && !in_boundaries(canon_of(*facts)->Some_0, home@)),
        (r matches Err(SecurityError::PermissionDenied { path: p }) ==> Some(p@) == canon_of(
            *facts,
        )),
        (r matches Err(SecurityError::PermissionDenied { .. }) <==> !has_traversal(path@)
            && is_absolute(path@) && canon_of(*facts) is Some && critical_match(
            canon_of(*facts)->Some_0,
            context,
        ) is None && in_boundaries(canon_of(*facts)->Some_0, home@) && facts.metadata is Some
            && !permissions_ok(facts.metadata, facts.caller_uid)),
        (r matches Err(SecurityError::PathDoesNotExist { path: p }) ==> p@ == path@),
        (r matches Err(SecurityError::PathDoesNotExist { .. }) <==> !has_traversal(path@)
            && is_absolute(path@) && canon_of(*facts) is Some && critical_match(
            canon_of(*facts)->Some_0,
            context,
        ) is None && in_boundaries(canon_of(*facts)->Some_0, home@) && permissions_ok(
            facts.metadata,
            facts.caller_uid,
        ) && !facts.exists),
        (r matches Err(SecurityError::SecurityViolation { .. }) <==> !has_traversal(path@)
            && is_absolute(path@) && (canon_of(*facts) is None || (critical_match(
            canon_of(*facts)->Some_0,
            context,
        ) is None && in_boundaries(canon_of(*facts)->Some_0, home@) && facts.metadata is None))),
{
    // Layer 1: traversal protection on the raw input string
    if let Err(e) = validate_path_traversal(path) {
        return Err(e);
    }
    // Layer 2: absolute-path requirement
    let is_abs = if path.unicode_len() == 0 {
        false
    } else {
        path.get_char(0) == '/'
    };
    if !is_abs {
        return Err(SecurityError::NonAbsolutePath { path: String::from_str(path) });
    }
    // Layer 3: canonical path resolution must have succeeded
    let canonical = match &facts.canonical {
        Some(c) => c.as_str(),
        None => {
            let msg = String::from_str("cannot canonicalize path: ").concat(path);
            return Err(SecurityError::SecurityViolation { message: msg });
        },
    };
    // Layer 4: context-aware system-critical denylist
    if let Err(e) = validate_system_critical_paths(canonical, &context) {
        return Err(e);
    }
    // Layer 5: filesystem boundary check
    if let Err(e) = validate_filesystem_boundaries(canonical, home) {
        return Err(e);
    }
    // Layer 6: permission and ownership check
    if let Err(e) = validate_permissions(canonical, &facts.metadata, facts.caller_uid) {
        return Err(e);
    }
    // Layer 7: the canonical target must still exist
    if !facts.exists {
        return Err(SecurityError::PathDoesNotExist { path: String::from_str(path) });
    }
    Ok(())
}

/// Law: a path that contains `..` or an encoded variant is rejected in
/// every context, whatever the filesystem facts say.
pub proof fn lemma_traversal_always_rejected(
    path: Seq<char>,
    ctx: SecurityContext,
    home: Seq<char>,
    facts: PathFacts,
)
    requires
        has_traversal(path),
    ensures
        !validate_ok(path, ctx, home, facts),
{
}

/// Law: a canonical path under an always-forbidden system prefix is
/// rejected in every context.
pub proof fn lemma_always_forbidden_rejected(
    path: Seq<char>,
    ctx: SecurityContext,
    home: Seq<char>,
    facts: PathFacts,
)
    requires
        canon_of(facts) is Some,
        always_forbidden_match(canon_of(facts)->Some_0) is Some,
    ensures
        !validate_ok(path, ctx, home, facts),
{
}

/// Law: in the general-deletion context, canonical paths under `/usr`,
/// `/opt` or `/var` are additionally rejected.
pub proof fn lemma_deletion_extra_rejected(
    path: Seq<char>,
    home: Seq<char>,
    facts: PathFacts,
)
    requires
        canon_of(facts) is Some,
        has_prefix(canon_of(facts)->Some_0, "/usr"@) || has_prefix(
            canon_of(facts)->Some_0,
            "/opt"@,
        ) || has_prefix(canon_of(facts)->Some_0, "/var"@),
    ensures
        !validate_ok(path, SecurityContext::Deletion, home, facts),
{
}

/// The risk classification of a path, over its ASCII-lowered form:
/// directories are safe; files under system binary or configuration
/// trees are flagged for review; files under user configuration or
/// cache trees suggest caution.
pub open spec fn risk_of(path: Seq<char>, is_directory: bool) -> Seq<char> {
    let low = ascii_lower(path);
    if is_directory {
        "safe"@
    } else if contains_seq(low, "/etc/"@) || contains_seq(low, "/usr/bin/"@) || contains_seq(
        low,
        "/usr/sbin/"@,
    ) || contains_seq(low, "/bin/"@) || contains_seq(low, "/sbin/"@) || contains_seq(
        low,
        "/lib/"@,
    ) || contains_seq(low, "/opt/"@) {
        "warning"@
    } else if contains_seq(low, "/.config/"@) || contains_seq(low, "/.local/share/"@)
        || contains_seq(low, "/.cache/"@) {
        "caution"@
    } else {
        "safe"@
    }
}

/// Assess the risk level of removing `path`: `safe`, `caution` or
/// `warning`.
pub fn assess_risk_level(path: &str, is_directory: bool) -> (r: String)
    ensures
        r@ == risk_of(path@, is_directory),
{
    if is_directory {
        return String::from_str("safe");
    }
    if str_contains_lower(path, "/etc/") || str_contains_lower(path, "/usr/bin/")
        || str_contains_lower(path, "/usr/sbin/") || str_contains_lower(path, "/bin/")
        || str_contains_lower(path, "/sbin/") || str_contains_lower(path, "/lib/")
        || str_contains_lower(path, "/opt/") {
        return String::from_str("warning");
    }
    if str_contains_lower(path, "/.config/") || str_contains_lower(path, "/.local/share/")
        || str_contains_lower(path, "/.cache/") {
        return String::from_str("caution");
    }
    String::from_str("safe")
}

} // verus!
