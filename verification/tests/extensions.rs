use piui::extensions::{
    contains_absolute_path, display_text, entrypoint_lexical_diagnostic, has_ads_component,
    has_windows_reserved_device_component, is_lexically_relative, is_safe_pi_command_name,
    validate_bytes, CommandContribution, ComposerActionContribution, DiagnosticCode,
    EntrypointStatus, PackageSource, SchemaVerdict, ValidationReport, MAX_MANIFEST_BYTES,
};

const WORKER: &str = "./piui/worker.js";

fn manifest(permissions: &str, entrypoints: &str, contributes: &str) -> String {
    format!(
        r#"{{"schemaVersion":1,"id":"test.example","name":"Test","version":"1.0.0","engines":{{"piui":">=1"}},"permissions":{permissions},"entrypoints":{entrypoints},"contributes":{contributes}}}"#
    )
}

fn base_manifest() -> String {
    manifest(
        r#"["session.read"]"#,
        r#"{"worker":"./piui/worker.js"}"#,
        r#"{"commands":[{"id":"test.example.run","title":"Run","handler":"pi-command:run"}]}"#,
    )
}

fn resolved(paths: &[(&str, EntrypointStatus)]) -> Vec<(String, EntrypointStatus)> {
    paths.iter().map(|(p, s)| ((*p).to_owned(), *s)).collect()
}

fn validate(text: &str, source: PackageSource) -> ValidationReport {
    validate_bytes(
        text.as_bytes(),
        SchemaVerdict::Valid,
        &resolved(&[(WORKER, EntrypointStatus::Regular)]),
        source,
    )
}

fn has_code(report: &ValidationReport, code: DiagnosticCode) -> bool {
    report.diagnostics.iter().any(|diagnostic| diagnostic.code == code)
}

#[test]
fn base_manifest_is_valid_and_records_requested_permissions() {
    let report = validate(&base_manifest(), PackageSource::TrustedInstalled);
    assert!(report.is_valid(), "{:?}", report.diagnostics);
    let manifest = report.manifest.expect("validated");
    assert_eq!(manifest.id, "test.example");
    assert_eq!(manifest.piui_engine_range, ">=1");
    assert_eq!(manifest.requested_permissions, vec!["session.read".to_owned()]);
    assert!(!manifest.has_required_features);
}

#[test]
fn projects_safe_commands_and_composer_actions() {
    let text = format!(
        r#"{{"schemaVersion":1,"id":"test.example","name":"Safe extension","version":"1.0.0","engines":{{"piui":">=1"}},"permissions":["session.read"],"entrypoints":{{"worker":"./piui/worker.js"}},"contributes":{{"commands":[{{"id":"test.example.run","title":"Run","description":"Runs safely.","handler":"pi-command:run.safe:command_1","icon":"untrusted-icon"}}],"composerActions":[{{"id":"test.example.runAction","title":"Run safely","description":"Starts the safe command.","icon":"untrusted-action-icon","command":"test.example.run","order":240}}]}}}}"#
    );
    let report = validate(&text, PackageSource::TrustedInstalled);
    assert!(report.is_valid(), "{:?}", report.diagnostics);
    let manifest = report.manifest.expect("validated manifest");
    assert_eq!(manifest.name, "Safe extension");
    assert_eq!(
        manifest.commands,
        vec![CommandContribution {
            id: "test.example.run".into(),
            title: "Run".into(),
            description: Some("Runs safely.".into()),
            pi_command: "run.safe:command_1".into(),
        }]
    );
    assert_eq!(
        manifest.composer_actions,
        vec![ComposerActionContribution {
            id: "test.example.runAction".into(),
            title: "Run safely".into(),
            description: Some("Starts the safe command.".into()),
            command_id: "test.example.run".into(),
            order: 240,
        }]
    );
    let safe_output = format!("{:?}", manifest);
    assert!(!safe_output.contains("pi-command:"));
    assert!(!safe_output.contains("untrusted-icon"));
    assert!(!safe_output.contains("untrusted-action-icon"));
}

#[test]
fn rejects_dangling_composer_command_and_unsafe_display_text() {
    let entry = r#"{"worker":"./piui/worker.js"}"#;
    let perms = r#"["session.read"]"#;
    let dangling = manifest(
        perms,
        entry,
        r#"{"commands":[{"id":"test.example.run","title":"Run","handler":"pi-command:run"}],"composerActions":[{"id":"test.example.runAction","title":"Run","command":"test.example.missing"}]}"#,
    );
    let report = validate(&dangling, PackageSource::TrustedInstalled);
    assert_eq!(report.diagnostics[0].code, DiagnosticCode::ContributionProjectionInvalid);

    let control = manifest(
        perms,
        entry,
        r#"{"commands":[{"id":"test.example.run","title":"Run\nnow","handler":"pi-command:run"}]}"#,
    );
    let report = validate(&control, PackageSource::TrustedInstalled);
    assert_eq!(report.diagnostics[0].code, DiagnosticCode::ContributionProjectionInvalid);

    let long_title = manifest(
        perms,
        entry,
        &format!(
            r#"{{"commands":[{{"id":"test.example.run","title":"{}","handler":"pi-command:run"}}]}}"#,
            "x".repeat(101)
        ),
    );
    let report = validate(&long_title, PackageSource::TrustedInstalled);
    assert_eq!(report.diagnostics[0].code, DiagnosticCode::ContributionProjectionInvalid);

    let native_path = manifest(
        perms,
        entry,
        r#"{"commands":[{"id":"test.example.run","title":"Run","description":"Read C:\\sensitive\\private.txt","handler":"pi-command:run"}]}"#,
    );
    let report = validate(&native_path, PackageSource::TrustedInstalled);
    assert_eq!(report.diagnostics[0].code, DiagnosticCode::ContributionProjectionInvalid);
    assert!(!format!("{:?}", report.diagnostics).contains("sensitive"));

    let posix_path = manifest(
        perms,
        entry,
        r#"{"commands":[{"id":"test.example.run","title":"Run","description":"Config=/home/ada/private.json","handler":"pi-command:run"}]}"#,
    );
    let report = validate(&posix_path, PackageSource::TrustedInstalled);
    assert_eq!(report.diagnostics[0].code, DiagnosticCode::ContributionProjectionInvalid);

    let short_path = manifest(
        perms,
        entry,
        r#"{"commands":[{"id":"test.example.run","title":"Run","description":"Read /etc","handler":"pi-command:run"}]}"#,
    );
    let report = validate(&short_path, PackageSource::TrustedInstalled);
    assert_eq!(report.diagnostics[0].code, DiagnosticCode::ContributionProjectionInvalid);
}

#[test]
fn schema_and_semantic_failures_are_payload_safe() {
    let report = validate_bytes(
        base_manifest().as_bytes(),
        SchemaVerdict::Invalid,
        &[],
        PackageSource::TrustedInstalled,
    );
    assert_eq!(report.diagnostics[0].code, DiagnosticCode::SchemaInvalid);

    let semantic = manifest(
        r#"["session.read"]"#,
        r#"{"worker":"./piui/worker.js"}"#,
        r#"{"commands":[{"id":"other.run","title":"Run","handler":"pi-command:run"}]}"#,
    );
    let report = validate(&semantic, PackageSource::TrustedInstalled);
    assert!(has_code(&report, DiagnosticCode::ContributionIdNamespace));
    let encoded = format!("{:?}", report.diagnostics);
    assert!(!encoded.contains("other.run"));
}

#[test]
fn rejects_duplicate_ids_missing_rich_view_and_local_shell() {
    let duplicate = manifest(
        r#"["session.read"]"#,
        r#"{"worker":"./piui/worker.js"}"#,
        r#"{"commands":[{"id":"test.example.run","title":"Run","handler":"pi-command:run"}],"composerActions":[{"id":"test.example.run","title":"Again","command":"test.example.run"}]}"#,
    );
    let report = validate(&duplicate, PackageSource::TrustedInstalled);
    assert!(has_code(&report, DiagnosticCode::ContributionIdDuplicate));

    let rich = manifest(
        r#"["ui.richView"]"#,
        r#"{"worker":"./piui/worker.js","views":{"panel":"./piui/worker.js"}}"#,
        r#"{"commands":[{"id":"test.example.run","title":"Run","handler":"pi-command:run"}],"views":[{"id":"test.example.rich","title":"Rich","slot":"rightPanel.primary","kind":"rich","viewId":"missing-panel"}]}"#,
    );
    let report = validate(&rich, PackageSource::TrustedInstalled);
    assert!(has_code(&report, DiagnosticCode::RichViewEntrypointRequired));
    assert!(!has_code(&report, DiagnosticCode::RichViewPermissionRequired));

    let shell = manifest(
        r#"["ui.shell"]"#,
        r#"{"worker":"./piui/worker.js","shell":"./piui/worker.js"}"#,
        r#"{"commands":[{"id":"test.example.run","title":"Run","handler":"pi-command:run"}]}"#,
    );
    let report = validate(&shell, PackageSource::ProjectLocal);
    assert!(has_code(&report, DiagnosticCode::ShellSourceRejected));
    let trusted = validate(&shell, PackageSource::TrustedInstalled);
    assert!(!has_code(&trusted, DiagnosticCode::ShellSourceRejected));
}

#[test]
fn rejects_lexical_and_symlink_entrypoint_escape() {
    let with_worker = |worker: &str| {
        manifest(
            r#"["session.read"]"#,
            &format!(r#"{{"worker":"{worker}"}}"#),
            r#"{"commands":[{"id":"test.example.run","title":"Run","handler":"pi-command:run"}]}"#,
        )
    };
    let report = validate(&with_worker("../piui-extension-outside.js"), PackageSource::TrustedInstalled);
    assert!(has_code(&report, DiagnosticCode::EntrypointPathInvalid));
    let report = validate(&with_worker("./piui/worker.js:secret"), PackageSource::TrustedInstalled);
    assert!(has_code(&report, DiagnosticCode::EntrypointAdsComponent));
    let report = validate(&with_worker("./piui/CON.txt. "), PackageSource::TrustedInstalled);
    assert!(has_code(&report, DiagnosticCode::EntrypointReservedDevice));
    let report = validate(&with_worker("./piui/LPT².log. "), PackageSource::TrustedInstalled);
    assert!(has_code(&report, DiagnosticCode::EntrypointReservedDevice));
    let escaped = validate_bytes(
        with_worker("./piui/escape.js").as_bytes(),
        SchemaVerdict::Valid,
        &resolved(&[("./piui/escape.js", EntrypointStatus::EscapesPackage)]),
        PackageSource::TrustedInstalled,
    );
    assert!(has_code(&escaped, DiagnosticCode::EntrypointEscapesPackage));
    let unresolved = validate_bytes(
        with_worker("./piui/other.js").as_bytes(),
        SchemaVerdict::Valid,
        &[],
        PackageSource::TrustedInstalled,
    );
    assert!(has_code(&unresolved, DiagnosticCode::EntrypointMissing));
}

#[test]
fn malformed_and_oversized_manifests_are_reported_first() {
    let report = validate("{not json", PackageSource::TrustedInstalled);
    assert_eq!(report.diagnostics.len(), 1);
    assert_eq!(report.diagnostics[0].code, DiagnosticCode::ManifestJsonInvalid);
    let big = vec![b' '; MAX_MANIFEST_BYTES + 1];
    let report = validate_bytes(&big, SchemaVerdict::Valid, &[], PackageSource::TrustedInstalled);
    assert_eq!(report.diagnostics[0].code, DiagnosticCode::ManifestTooLarge);
    assert_eq!(report.diagnostics[0].code.as_str(), "MANIFEST_TOO_LARGE");
    let unavailable = validate_bytes(
        base_manifest().as_bytes(),
        SchemaVerdict::Unavailable,
        &[],
        PackageSource::TrustedInstalled,
    );
    assert_eq!(unavailable.diagnostics[0].code, DiagnosticCode::SchemaUnavailable);
}

#[test]
fn text_and_path_checks_match_their_rules() {
    assert!(contains_absolute_path("see /etc/passwd"));
    assert!(contains_absolute_path(r"C:\Users"));
    assert!(contains_absolute_path(r"\\server\share"));
    assert!(!contains_absolute_path("and/or either"));
    assert!(!contains_absolute_path("a / b"));
    assert_eq!(display_text("Hello", 5).as_deref(), Some("Hello"));
    assert!(display_text("Hello!", 5).is_none());
    assert!(is_safe_pi_command_name("run.safe:command_1"));
    assert!(!is_safe_pi_command_name("unsafe command"));
    assert!(!is_safe_pi_command_name(""));
    assert!(is_lexically_relative("./a/b.js"));
    assert!(is_lexically_relative("a/./b"));
    assert!(!is_lexically_relative("/abs"));
    assert!(!is_lexically_relative("a/../b"));
    assert!(!is_lexically_relative(""));
    assert!(has_ads_component(r"a\b:c"));
    assert!(has_windows_reserved_device_component("dir/aux"));
    assert!(has_windows_reserved_device_component(r"dir\com9.txt"));
    assert!(!has_windows_reserved_device_component("dir/com10.txt"));
    assert!(!has_windows_reserved_device_component("dir/console.txt"));
    assert_eq!(entrypoint_lexical_diagnostic("./ok.js"), None);
}
