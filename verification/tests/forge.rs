use aos_realm::forge::{
    all_installed_exports, collect_export_keys, diagnose_imports, document_imports,
    exports_of_documents, find_declared_interface, format_wit, guide_index, interface_lookup_name, list_entries, manifest_imports,
    report_imports, summarize_wit, validate_name, wit_decl_name, wit_declares, DoctorArgs,
    ExplainArgs, ForgeGuideArgs, ForgeTools, GuideReply, IntentArgs, ScaffoldArgs, Scaffolded,
};
use aos_realm::intents::suggest_from_intent;
use aos_realm::json::Json;
use aos_realm::manifest::Toml;

#[test]
fn interface_lookup_accepts_bare_and_wit_names() {
    assert_eq!(interface_lookup_name("tool"), "tool");
    assert_eq!(interface_lookup_name("tool.wit"), "tool");
}

#[test]
fn guide_index_aliases_are_case_insensitive() {
    let forge = ForgeTools;
    for topic in ["Index", "LIST", "Help"] {
        let reply = forge.forge_guide(&ForgeGuideArgs {
            topic: Some(topic.to_string()),
        });
        let GuideReply::Text(guide) = reply else {
            panic!("expected the index");
        };
        assert!(guide.contains("# Unicity AOS Author Manual"));
    }
}

#[test]
fn capability_suggestions_ignore_plain_negation() {
    let suggestions = suggest_from_intent(
        "read files from the principal home, with no identity operations and without http.",
    );
    let rendered = format!("{suggestions:?}");
    assert!(rendered.contains("fs_read"));
    assert!(!rendered.contains("identity ="));
    assert!(!rendered.contains("net ="));
}

#[test]
fn bundled_wit_can_be_found_by_declared_interface() {
    let bundle = "package astrid:contracts;\ninterface tool { run: func(); }\nworld capsule {}";
    assert!(wit_declares(bundle, "tool"));
    assert!(wit_declares(bundle, "capsule"));
    assert!(!wit_declares(bundle, "missing"));
}

#[test]
fn guide_names_chapters_and_refuses_others() {
    let forge = ForgeTools;
    let reply = forge.forge_guide(&ForgeGuideArgs {
        topic: Some(" IPC ".to_string()),
    });
    assert!(matches!(reply, GuideReply::Chapter(5)));
    let GuideReply::Text(unknown) = forge.forge_guide(&ForgeGuideArgs {
        topic: Some("cooking".to_string()),
    }) else {
        panic!("expected a text");
    };
    assert!(unknown.starts_with("Unknown Forge guide topic 'cooking'.\n\n# Unicity AOS"));
    assert!(unknown.contains("- `wit` — typed contracts"));
    let GuideReply::Text(index) = forge.forge_guide(&ForgeGuideArgs { topic: None }) else {
        panic!("expected the index");
    };
    assert_eq!(index, guide_index());
}

#[test]
fn names_cannot_traverse() {
    assert_eq!(validate_name("my-tool"), Ok(()));
    assert_eq!(validate_name(""), Err("Name cannot be empty"));
    for name in ["a/b", "a\\b", "..", "x..y"] {
        assert_eq!(validate_name(name), Err("Invalid name — path traversal rejected"));
    }
}

#[test]
fn scaffolds_hold_the_name() {
    let forge = ForgeTools;
    let Ok(Scaffolded::Files(files)) = forge.scaffold_capsule(&ScaffoldArgs {
        name: " my-tool ".to_string(),
        kind: None,
    }) else {
        panic!("expected files");
    };
    assert!(files.iter().any(|(path, content)| *path == "Capsule.toml" && content.contains("my-tool")));
    let Ok(Scaffolded::Unsupported(note)) = forge.scaffold_capsule(&ScaffoldArgs {
        name: "x".to_string(),
        kind: Some("agent".to_string()),
    }) else {
        panic!("expected a note");
    };
    assert_eq!(note, "kind \"agent\" is not supported in v1; only \"tool\" is available.");
}

#[test]
fn contracts_are_summarised() {
    let wit = "package astrid:tool@1.0.0;\n  interface run {\n    record call { id: u32 }\n  }\n";
    assert_eq!(
        summarize_wit(wit),
        "package: astrid:tool@1.0.0\ninterfaces (1): run\nrecords (1): call"
    );
    assert_eq!(summarize_wit(""), "package: (none)\ninterfaces (0): (none)\nrecords (0): (none)");
    assert_eq!(wit_decl_name("interface tool{", "interface ").as_deref(), Some("tool"));
    assert_eq!(wit_decl_name("world capsule {}", "interface "), None);
    assert!(format_wit("tool.wit", wit).starts_with("=== tool.wit ===\npackage astrid:tool@1.0.0;"));
}

#[test]
fn imports_are_the_keys_of_the_imports_table() {
    assert!(document_imports(&None).is_empty());
    let version = || Toml::Text("1".to_string());
    let document = Toml::Table(vec![
        ("exports".to_string(), Toml::Table(vec![("astrid:fs".to_string(), version())])),
        (
            "imports".to_string(),
            Toml::Table(vec![
                ("astrid:llm".to_string(), version()),
                ("astrid:net".to_string(), Toml::Table(Vec::new())),
            ]),
        ),
    ]);
    assert_eq!(document.get("imports").and_then(|table| table.get("astrid:llm")), Some(&version()));
    assert_eq!(document.get("package"), None);
    assert_eq!(version().get("imports"), None);
    assert_eq!(document.table_keys("exports"), ["astrid:fs"]);
    assert_eq!(document_imports(&Some(document)), ["astrid:llm", "astrid:net"]);
    let flat = Toml::Table(vec![("imports".to_string(), Toml::List(vec![version()]))]);
    assert!(document_imports(&Some(flat)).is_empty());
    assert_eq!(
        manifest_imports("[imports]\nlist = [1, 2.5]\nday = 1979-05-27\n[imports.deep]\non = true\n"),
        ["day", "deep", "list"]
    );
    assert!(manifest_imports("imports = 3\n").is_empty());
    assert!(manifest_imports("[package]\nname = \"x\"\n").is_empty());
}

#[test]
fn missing_imports_become_findings() {
    let manifest = "[imports]\n\"astrid:llm\" = \"^1.0\"\n\"astrid:fs\" = \"1\"\n[package]\nname = \"x\"\n";
    let mut imports = manifest_imports(manifest);
    imports.sort();
    assert_eq!(imports, ["astrid:fs", "astrid:llm"]);
    assert!(manifest_imports("not toml [").is_empty());
    let metadata = Json::Object(vec![(
        "exports".to_string(),
        Json::Object(vec![
            (
                "astrid".to_string(),
                Json::Object(vec![("fs".to_string(), Json::Text("1.0.0".to_string()))]),
            ),
            ("flat".to_string(), Json::Null),
        ]),
    )]);
    let mut exports = Vec::new();
    collect_export_keys(&metadata, &mut exports);
    assert_eq!(exports, ["astrid:fs"]);
    let mut findings = Vec::new();
    report_imports(&imports, &exports, &mut findings);
    assert_eq!(findings.len(), 1);
    assert_eq!(findings[0].level, "error");
    assert_eq!(
        findings[0].message,
        "Import `astrid:llm` is not exported by any installed capsule."
    );
    assert_eq!(
        findings[0].fix,
        "Install a capsule that exports `astrid:llm` before this one boots."
    );
}

#[test]
fn paths_and_answers_of_the_tools() {
    let forge = ForgeTools;
    assert_eq!(
        forge.capsule_doctor(&DoctorArgs {
            name: "aos-fs".to_string(),
        }),
        Ok("home://.local/capsules/aos-fs/Capsule.toml".to_string())
    );
    assert_eq!(
        forge.explain_interface(&ExplainArgs {
            name: "tool".to_string(),
        }),
        Ok("tool.wit".to_string())
    );
    assert_eq!(
        forge.explain_missing("x.wit", &vec!["a.wit".to_string(), "b.wit".to_string()]),
        "Interface 'x.wit' not found.\nAvailable interfaces:\na.wit\nb.wit"
    );
    assert_eq!(
        forge.missing_capsule("x", "p"),
        "Capsule 'x' not found at p. Run the `list_capsules` tool (system capsule) to see installed names."
    );
    let names = vec!["b".to_string(), "a".to_string(), "B".to_string()];
    assert_eq!(list_entries(&names), ["B", "a", "b"]);
}

#[test]
fn intents_are_read_in_any_case() {
    let suggest = |intent: &str| {
        ForgeTools.suggest_capabilities(&IntentArgs {
            intent: intent.to_string(),
        })
    };
    let found = suggest("Read FILES and call an LLM");
    assert!(found.iter().any(|suggestion| suggestion.manifest.contains("fs_read")));
    assert!(found.iter().any(|suggestion| suggestion.matched == "call an LLM (consumer)"));
    let none = suggest("hum a tune");
    assert_eq!(none.len(), 1);
    assert_eq!(none[0].matched, "(no keywords recognised)");
}

#[test]
fn a_bundle_is_searched_for_its_interfaces() {
    let files = vec![
        ("notes.txt".to_string(), Some("interface tool {}".to_string())),
        ("gone.wit".to_string(), None),
        ("other.wit".to_string(), Some("interface other {}".to_string())),
        ("all.wit".to_string(), Some("package a:b;\n interface tool {".to_string())),
        ("again.wit".to_string(), Some("interface tool {".to_string())),
    ];
    assert_eq!(find_declared_interface("tool", &files), Some(3));
    assert_eq!(find_declared_interface("missing", &files), None);
}

#[test]
fn a_capsule_does_not_satisfy_its_own_imports() {
    let exporting = |name: &str| format!("{{\"exports\": {{\"astrid\": {{\"{name}\": null}}}}}}");
    let installed = vec![
        ("aos-fs".to_string(), Some(exporting("fs"))),
        ("aos-llm".to_string(), Some(exporting("llm"))),
        ("broken".to_string(), Some("{\"exports\": {".to_string())),
        ("unread".to_string(), None),
    ];
    assert_eq!(all_installed_exports("aos-llm", &installed), ["astrid:fs"]);
    let manifest = "[imports]\n\"astrid:llm\" = \"^1.0\"\n\"astrid:fs\" = \"1\"\n";
    let mut findings = Vec::new();
    diagnose_imports("aos-llm", manifest, &installed, &mut findings);
    assert_eq!(findings.len(), 1);
    diagnose_imports("aos-web", manifest, &installed, &mut findings);
    assert_eq!(findings.len(), 1);
}

#[test]
fn exports_are_read_from_parsed_metadata() {
    let exporting = Json::Object(vec![(
        "exports".to_string(),
        Json::Object(vec![(
            "astrid".to_string(),
            Json::Object(vec![("fs".to_string(), Json::Null)]),
        )]),
    )]);
    let installed = vec![("aos-fs".to_string(), Some(exporting)), ("gone".to_string(), None)];
    assert_eq!(exports_of_documents("aos-web", &installed), ["astrid:fs"]);
    assert!(exports_of_documents("aos-fs", &installed).is_empty());
}
