use pulito::security::{
    validate_filesystem_boundaries, validate_path_comprehensive, validate_path_traversal,
    validate_permissions, validate_system_critical_paths, assess_risk_level, PathFacts,
    PermissionFacts, SecurityContext, SecurityError,
};

fn ok_facts(path: &str) -> PathFacts {
    PathFacts {
        canonical: Some(path.to_string()),
        metadata: Some(PermissionFacts { readonly: false, owner_uid: 1000 }),
        exists: true,
        caller_uid: 1000,
    }
}

#[test]
fn test_path_traversal_protection() {
    // Basic path traversal
    assert!(validate_path_traversal("/home/user/../etc/passwd").is_err());
    assert!(validate_path_traversal("/home/user/../../etc/passwd").is_err());
    assert!(validate_path_traversal("/home/user/..\\etc\\passwd").is_err());

    // Percent-encoded traversal
    assert!(validate_path_traversal("/home/user/%2e%2e%2fetc/passwd").is_err());
    assert!(validate_path_traversal("/home/user/%2e%2e/etc/passwd").is_err());

    // Valid paths (without ..)
    assert!(validate_path_traversal("/home/user/documents").is_ok());
    assert!(validate_path_traversal("/home/user/.cache").is_ok());
}

#[test]
fn test_system_critical_path_protection() {
    // System paths are blocked for the deletion context
    let result = validate_path_comprehensive(
        "/etc/passwd",
        SecurityContext::Deletion,
        "/home/user",
        &ok_facts("/etc/passwd"),
    );
    assert!(result.is_err());

    let result = validate_path_comprehensive(
        "/bin/ls",
        SecurityContext::Deletion,
        "/home/user",
        &ok_facts("/bin/ls"),
    );
    assert!(result.is_err());

    let result = validate_path_comprehensive(
        "/usr/bin",
        SecurityContext::Deletion,
        "/home/user",
        &ok_facts("/usr/bin"),
    );
    assert!(result.is_err());
}

#[test]
fn traversal_rejected_in_every_context() {
    let contexts = [
        SecurityContext::Deletion,
        SecurityContext::CacheCleanup,
        SecurityContext::PackageManagement,
        SecurityContext::LogCleanup,
        SecurityContext::StartupManagement,
    ];
    for ctx in contexts {
        let r = validate_path_comprehensive(
            "/home/user/../etc",
            ctx,
            "/home/user",
            &ok_facts("/home/user/../etc"),
        );
        assert!(matches!(r, Err(SecurityError::PathTraversal { .. })));
        let r = validate_path_comprehensive(
            "/home/user/%2e%2e%2fetc",
            ctx,
            "/home/user",
            &ok_facts("/home/user/%2e%2e%2fetc"),
        );
        assert!(matches!(r, Err(SecurityError::PathTraversal { .. })));
    }
}

#[test]
fn always_forbidden_rejected_in_every_context() {
    let contexts = [
        SecurityContext::Deletion,
        SecurityContext::CacheCleanup,
        SecurityContext::PackageManagement,
        SecurityContext::LogCleanup,
        SecurityContext::StartupManagement,
    ];
    let paths = ["/etc/hosts", "/boot/vmlinuz", "/proc/1", "/root/x", "/usr/bin/ls"];
    for ctx in contexts {
        for p in paths {
            let r = validate_path_comprehensive(p, ctx, "/home/user", &ok_facts(p));
            assert!(matches!(r, Err(SecurityError::SystemCriticalPath { .. })));
        }
    }
}

#[test]
fn deletion_context_also_rejects_usr_opt_var() {
    for p in ["/usr/share/doc", "/opt/app", "/var/tmp/x"] {
        let r = validate_path_comprehensive(
            p,
            SecurityContext::Deletion,
            "/home/user",
            &ok_facts(p),
        );
        assert!(matches!(r, Err(SecurityError::SystemCriticalPath { .. })));
    }
    // The log-cleanup context permits a path under /opt as far as the
    // denylist goes; it still fails the boundary check instead.
    let r = validate_path_comprehensive(
        "/opt/app",
        SecurityContext::LogCleanup,
        "/home/user",
        &ok_facts("/opt/app"),
    );
    assert!(matches!(r, Err(SecurityError::OutsideBoundaries { .. })));
}

#[test]
fn non_absolute_path_rejected() {
    let r = validate_path_comprehensive(
        "relative/path",
        SecurityContext::Deletion,
        "/home/user",
        &ok_facts("relative/path"),
    );
    assert!(matches!(r, Err(SecurityError::NonAbsolutePath { .. })));
}

#[test]
fn failed_canonicalization_is_a_violation() {
    let facts = PathFacts {
        canonical: None,
        metadata: None,
        exists: false,
        caller_uid: 1000,
    };
    let r = validate_path_comprehensive(
        "/home/user/broken-link",
        SecurityContext::Deletion,
        "/home/user",
        &facts,
    );
    assert!(matches!(r, Err(SecurityError::SecurityViolation { .. })));
}

#[test]
fn boundary_check_allows_home_and_shared_caches() {
    assert!(validate_filesystem_boundaries("/home/user/docs", "/home/user").is_ok());
    assert!(validate_filesystem_boundaries("/home/user", "/home/user").is_ok());
    assert!(validate_filesystem_boundaries("/var/cache/apt", "/home/user").is_ok());
    assert!(validate_filesystem_boundaries("/tmp/scratch", "/home/user").is_ok());
    // A sibling user's directory only shares a string prefix, not a
    // path component; it is outside the boundary.
    let r = validate_filesystem_boundaries("/home/user2/docs", "/home/user");
    assert!(matches!(r, Err(SecurityError::OutsideBoundaries { .. })));
}

#[test]
fn permission_check_requires_ownership_or_root() {
    let writable = Some(PermissionFacts { readonly: false, owner_uid: 1000 });
    let readonly = Some(PermissionFacts { readonly: true, owner_uid: 1000 });
    let foreign = Some(PermissionFacts { readonly: false, owner_uid: 1001 });
    assert!(validate_permissions("/home/user/a", &writable, 1000).is_ok());
    assert!(validate_permissions("/home/user/a", &writable, 0).is_ok());
    assert!(matches!(
        validate_permissions("/home/user/a", &readonly, 1000),
        Err(SecurityError::PermissionDenied { .. })
    ));
    assert!(matches!(
        validate_permissions("/home/user/a", &foreign, 1000),
        Err(SecurityError::PermissionDenied { .. })
    ));
    assert!(validate_permissions("/home/user/a", &foreign, 0).is_ok());
    assert!(matches!(
        validate_permissions("/home/user/a", &None, 1000),
        Err(SecurityError::SecurityViolation { .. })
    ));
}

#[test]
fn missing_target_is_reported_last() {
    let mut facts = ok_facts("/home/user/gone");
    facts.exists = false;
    let r = validate_path_comprehensive(
        "/home/user/gone",
        SecurityContext::Deletion,
        "/home/user",
        &facts,
    );
    assert!(matches!(r, Err(SecurityError::PathDoesNotExist { .. })));
}

#[test]
fn valid_home_path_passes_all_layers() {
    let r = validate_path_comprehensive(
        "/home/user/.cache/junk",
        SecurityContext::Deletion,
        "/home/user",
        &ok_facts("/home/user/.cache/junk"),
    );
    assert!(r.is_ok());
}

#[test]
fn etc_rejected_even_for_package_context() {
    // The always-forbidden list carries /etc and runs before any
    // context-specific rule, so even the package-management context
    // never reaches paths under /etc.
    let r = validate_system_critical_paths(
        "/etc/apt/sources.d",
        &SecurityContext::PackageManagement,
    );
    assert!(r.is_err());
    let r = validate_system_critical_paths("/etc/cron.d", &SecurityContext::PackageManagement);
    assert!(r.is_err());
}

#[test]
fn risk_levels_by_location() {
    assert_eq!(assess_risk_level("/etc/passwd", true), "safe");
    assert_eq!(assess_risk_level("/etc/passwd", false), "warning");
    assert_eq!(assess_risk_level("/usr/bin/ls", false), "warning");
    assert_eq!(assess_risk_level("/home/u/.config/app/x", false), "caution");
    assert_eq!(assess_risk_level("/home/u/.cache/app/x", false), "caution");
    assert_eq!(assess_risk_level("/home/u/notes.txt", false), "safe");
    assert_eq!(assess_risk_level("/ETC/passwd", false), "warning");
}
