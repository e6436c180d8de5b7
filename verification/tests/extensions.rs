use coder::extensions::{
    builtins, ExtensionManifest, ExtensionRegistry, LanguageDef, ServerSpec,
};

#[test]
fn builtins_resolve_by_extension() {
    let mut reg = ExtensionRegistry {
        manifests: builtins(),
        by_ext: Vec::new(),
    };
    reg.reindex();
    assert_eq!(
        reg.language_for_path("main.rs").map(|l| &l.id[..]),
        Some("rust")
    );
    assert_eq!(
        reg.language_for_path("a/b/app.py").map(|l| &l.id[..]),
        Some("python")
    );
    assert!(reg.language_for_path("notes.txt").is_none());
    assert_eq!(
        reg.language_for_path("main.rs")
            .and_then(|l| l.lsp.as_ref())
            .map(|s| &s.command[..]),
        Some("rust-analyzer")
    );
}

#[test]
fn user_manifest_overrides_builtin_extension() {
    let mut manifests = builtins();
    manifests.push(ExtensionManifest {
        name: "custom-rust".to_string(),
        languages: vec![LanguageDef {
            id: "rust".to_string(),
            extensions: vec!["rs".to_string()],
            lsp: Some(ServerSpec {
                command: "my-analyzer".to_string(),
                args: vec![],
                env: vec![],
            }),
            formatter: None,
            linter: None,
        }],
    });
    let mut reg = ExtensionRegistry {
        manifests,
        by_ext: Vec::new(),
    };
    reg.reindex();
    // Last (user) manifest wins for the .rs extension.
    assert_eq!(
        reg.language_for_path("x.rs")
            .and_then(|l| l.lsp.as_ref())
            .map(|s| &s.command[..]),
        Some("my-analyzer")
    );
}
