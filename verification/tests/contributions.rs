use piui::api::{ExtensionOrigin, ExtensionResource};
use piui::contributions::{
    package_manifest_roots, parse_version, project_manifests, version_range_matches, Version,
    MAX_MANIFEST_PACKAGES,
};
use piui::extensions::{
    validate_bytes, EntrypointStatus, PackageSource, SchemaVerdict, ValidatedManifest,
};

fn safe_manifest(id: &str, piui_range: &str, extra: &str, handler: &str) -> String {
    format!(
        r#"{{"schemaVersion":1,"id":"{id}","name":"Safe extension","version":"1.0.0","engines":{{"piui":"{piui_range}"}},"permissions":["session.read"]{extra},"contributes":{{"commands":[{{"id":"{id}.status","title":"Show status","description":"Show the extension status.","handler":"{handler}"}}],"composerActions":[{{"id":"{id}.statusAction","title":"Status","command":"{id}.status","order":120}}]}}}}"#
    )
}

fn validated(text: &str) -> Option<ValidatedManifest> {
    let no_entrypoints: Vec<(String, EntrypointStatus)> = Vec::new();
    validate_bytes(
        text.as_bytes(),
        SchemaVerdict::Valid,
        &no_entrypoints,
        PackageSource::TrustedInstalled,
    )
    .manifest
}

#[test]
fn projects_only_safe_declarative_fields() {
    let manifest = validated(&safe_manifest("test.safe", ">=0.1.0", "", "pi-command:status"))
        .expect("valid manifest");
    let catalog = project_manifests(vec![manifest]);
    assert_eq!(catalog.commands.len(), 1);
    assert_eq!(catalog.commands[0].command_name, "status");
    assert_eq!(catalog.composer_actions.len(), 1);
    assert_eq!(catalog.composer_actions[0].command_name, "status");
    assert_eq!(catalog.composer_actions[0].order, 120);
    let output = format!("{catalog:?}");
    assert!(!output.contains("pi-command:"));
}

#[test]
fn duplicate_extension_ids_fail_closed_instead_of_shadowing() {
    let text = safe_manifest("test.safe", ">=0.1.0", "", "pi-command:status");
    let first = validated(&text).expect("first");
    let second = validated(&text).expect("second");
    let catalog = project_manifests(vec![first, second]);
    assert!(catalog.commands.is_empty());
    assert!(catalog.composer_actions.is_empty());
}

#[test]
fn incompatible_or_unnegotiated_manifest_degrades_to_backend_only() {
    let future = validated(&safe_manifest("test.safe", ">=9.0.0", "", "pi-command:status"))
        .expect("valid but incompatible");
    assert!(project_manifests(vec![future]).commands.is_empty());
    let required = validated(&safe_manifest(
        "test.safe",
        ">=0.1.0 <1",
        r#","requires":["future.capability"]"#,
        "pi-command:status",
    ))
    .expect("valid but requires a feature");
    assert!(required.has_required_features);
    assert!(project_manifests(vec![required]).commands.is_empty());
}

#[test]
fn invalid_optional_manifest_degrades_to_no_contributions() {
    assert!(validated(&safe_manifest("test.safe", ">=0.1.0", "", "pi-command:unsafe command")).is_none());
    let catalog = project_manifests(Vec::new());
    assert!(catalog.commands.is_empty());
    assert!(catalog.composer_actions.is_empty());
}

#[test]
fn catalog_is_sorted_by_extension_then_id() {
    let b = validated(&safe_manifest("b.ext", ">=0.1.0", "", "pi-command:b")).expect("b");
    let a = validated(&safe_manifest("a.ext", ">=0.1.0", "", "pi-command:a")).expect("a");
    let catalog = project_manifests(vec![b, a]);
    let ids: Vec<_> = catalog.commands.iter().map(|c| c.extension_id.as_str()).collect();
    assert_eq!(ids, vec!["a.ext", "b.ext"]);
}

#[test]
fn versions_and_ranges_follow_their_grammar() {
    assert_eq!(parse_version("1"), Some(Version { major: 1, minor: 0, patch: 0 }));
    assert_eq!(parse_version("0.1.0"), Some(Version { major: 0, minor: 1, patch: 0 }));
    assert_eq!(parse_version("+2.3"), Some(Version { major: 2, minor: 3, patch: 0 }));
    assert!(parse_version("1.2.3.4").is_none());
    assert!(parse_version("1.x").is_none());
    assert!(parse_version("18446744073709551616").is_none());
    let current = Version { major: 0, minor: 1, patch: 0 };
    assert!(version_range_matches(">=0.1.0", current));
    assert!(version_range_matches(">=0.1.0 <1", current));
    assert!(version_range_matches("0.1", current));
    assert!(!version_range_matches(">=9.0.0", current));
    assert!(!version_range_matches("", current));
    assert!(!version_range_matches(">=0.1.0 junk", current));
}

#[test]
fn package_roots_are_enabled_packages_each_once() {
    let resource = |root: Option<&str>, origin, enabled| ExtensionResource {
        name: "x".to_owned(),
        path: "/p".to_owned(),
        package_root: root.map(str::to_owned),
        origin,
        enabled,
    };
    let roots = package_manifest_roots(&[
        resource(Some("/pkg/a"), ExtensionOrigin::Package, true),
        resource(Some("/pkg/a"), ExtensionOrigin::Package, true),
        resource(Some("/pkg/b"), ExtensionOrigin::Package, false),
        resource(Some("/pkg/c"), ExtensionOrigin::TopLevel, true),
        resource(None, ExtensionOrigin::Package, true),
        resource(Some("/pkg/d"), ExtensionOrigin::Package, true),
    ]);
    assert_eq!(roots, vec!["/pkg/a".to_owned(), "/pkg/d".to_owned()]);
    let many: Vec<_> = (0..MAX_MANIFEST_PACKAGES + 5)
        .map(|i| ExtensionResource {
            name: "x".to_owned(),
            path: "/p".to_owned(),
            package_root: Some(format!("/pkg/{i}")),
            origin: ExtensionOrigin::Package,
            enabled: true,
        })
        .collect();
    assert_eq!(package_manifest_roots(&many).len(), MAX_MANIFEST_PACKAGES);
}
